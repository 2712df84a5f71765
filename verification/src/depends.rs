//! Reading one entry of a `Depends` or `Pre-Depends` field.
use crate::table::opt_view;
use crate::text::{
    is_white, lemma_split_first, lemma_split_whole, lemma_trim_end_keeps, lemma_trim_no_white,
    no_white, trim_end, trim_start, all_white, chars_of, lemma_chars_deep_view, lemma_split_nonempty, lemma_trim_idempotent,
    lemma_trim_surrounded, split, split_chars, string_from_chars, sub_chars, trim, trim_chars,
};
use vstd::prelude::*;

verus! {

/// The entry, without its surrounding white space, holds a space.
pub open spec fn has_version(dep: Seq<char>) -> bool {
    trim(dep).contains(' ')
}

/// The words of an entry that has a version, such as `libc6 (>= 2.15)`:
/// the name, the relation with its parenthesis, the version with its
/// closing parenthesis.
pub open spec fn dep_words(dep: Seq<char>) -> Seq<Seq<char>> {
    split(trim(dep), seq![' '])
}

/// The entries that `parse_depends` can read: an entry with a space has at
/// least three words, and its third word ends in a one-byte (ASCII)
/// character, which is cut off as the closing parenthesis.
pub open spec fn parse_depends_defined(dep: Seq<char>) -> bool {
    has_version(dep) ==> {
        let w = dep_words(dep);
        &&& w.len() >= 3
        &&& w[2].len() >= 1
        &&& (w[2].last() as u32) < 128
    }
}

/// What an entry names, and the version it asks for: an entry with a space
/// gives its first word up to the first `:`, and its third word without its
/// last character; each without surrounding white space.
pub open spec fn parse_depends_spec(dep: Seq<char>) -> (Seq<char>, Option<Seq<char>>) {
    if has_version(dep) {
        let w = dep_words(dep);
        let name = split(trim(w[0]), seq![':'])[0];
        (trim(name), Some(trim(w[2].drop_last())))
    } else {
        (trim(dep), None)
    }
}

fn contains_char(s: &Vec<char>, c: char) -> (r: bool)
    ensures
        r == s@.contains(c),
{
    let mut i: usize = 0;
    while i < s.len()
        invariant
            i <= s@.len(),
            forall|j: int| 0 <= j < i ==> s@[j] != c,
        decreases s@.len() - i,
    {
        if s[i] == c {
            assert(s@[i as int] == c);
            return true;
        }
        i = i + 1;
    }
    false
}

/// Whether `parse_depends` can read the entry.
pub(crate) fn depends_readable(dep: &Vec<char>) -> (r: bool)
    ensures
        r == parse_depends_defined(dep@),
{
    let d = trim_chars(dep);
    if !contains_char(&d, ' ') {
        return true;
    }
    let space = vec![' '];
    let words = split_chars(&d, &space);
    assert(space@ =~= seq![' ']);
    if words.len() < 3 {
        return false;
    }
    proof {
        lemma_chars_deep_view(&words@[2]);
    }
    let third = &words[2];
    if third.len() < 1 {
        return false;
    }
    (third[third.len() - 1] as u32) < 128
}

/// `parse_depends` on characters.
pub(crate) fn parse_depends_chars(dep: &Vec<char>) -> (r: (Vec<char>, Option<Vec<char>>))
    requires
        parse_depends_defined(dep@),
    ensures
        r.0@ == parse_depends_spec(dep@).0,
        match r.1 {
            Some(v) => parse_depends_spec(dep@).1 == Some(v@),
            None => parse_depends_spec(dep@).1 is None,
        },
{
    let d = trim_chars(dep);
    if contains_char(&d, ' ') {
        let space = vec![' '];
        assert(space@ =~= seq![' ']);
        let words = split_chars(&d, &space);
        proof {
            lemma_chars_deep_view(&words@[0]);
            lemma_chars_deep_view(&words@[2]);
        }
        let first = trim_chars(&words[0]);
        let colon = vec![':'];
        assert(colon@ =~= seq![':']);
        let pieces = split_chars(&first, &colon);
        proof {
            lemma_split_nonempty(first@, colon@);
            lemma_chars_deep_view(&pieces@[0]);
        }
        let name = trim_chars(&pieces[0]);
        let third = &words[2];
        let cut = sub_chars(third, 0, third.len() - 1);
        assert(cut@ =~= third@.drop_last());
        let version = trim_chars(&cut);
        (name, Some(version))
    } else {
        (d, None)
    }
}

/// Reads one entry of a dependency list, such as `libc6 (>= 2.15)` or
/// `libbz2-1.0`: the package it names, and the version it asks for, if any.
pub fn parse_depends(_dep: &str) -> (r: Result<(String, Option<String>), String>)
    requires
        parse_depends_defined(_dep@),
    ensures
        r matches Ok((name, version)) && name@ == parse_depends_spec(_dep@).0 && opt_view(version)
            == parse_depends_spec(_dep@).1,
{
    let chars = chars_of(_dep);
    let (name, version) = parse_depends_chars(&chars);
    let name_s = string_from_chars(&name);
    match version {
        Some(v) => Ok((name_s, Some(string_from_chars(&v)))),
        None => Ok((name_s, None)),
    }
}


/// The name and the version that `parse_depends` gives have no white
/// space at either end.
pub proof fn lemma_parse_depends_trimmed(dep: Seq<char>)
    ensures
        trim(parse_depends_spec(dep).0) == parse_depends_spec(dep).0,
        parse_depends_spec(dep).1 matches Some(v) ==> trim(v) == v,
{
    if has_version(dep) {
        let w = dep_words(dep);
        lemma_trim_idempotent(split(trim(w[0]), seq![':'])[0]);
        lemma_trim_idempotent(w[2].drop_last());
    } else {
        lemma_trim_idempotent(dep);
    }
}


/// White space around an entry changes nothing: whether it can be read,
/// and what it names and asks for, are those of the bare entry.
pub proof fn lemma_parse_depends_ignores_surrounding_white(p: Seq<char>, dep: Seq<char>, q: Seq<
    char,
>)
    requires
        all_white(p),
        all_white(q),
    ensures
        parse_depends_defined(p + dep + q) == parse_depends_defined(dep),
        parse_depends_spec(p + dep + q) == parse_depends_spec(dep),
{
    lemma_trim_surrounded(p, dep, q);
}


proof fn lemma_no_space(s: Seq<char>)
    requires
        no_white(s),
    ensures
        !s.contains(' '),
{
    if s.contains(' ') {
        let i = choose|i: int| 0 <= i < s.len() && s[i] == ' ';
        assert(!is_white(s[i]));
    }
}

proof fn lemma_entry_words(p: Seq<char>, r: Seq<char>, v: Seq<char>, rest: Seq<char>)
    requires
        p.len() > 0,
        no_white(p),
        no_white(r),
        no_white(v),
        rest.len() == 0 || rest[0] == ' ',
    ensures
        parse_depends_defined(p + seq![' '] + r + seq![' '] + v + seq![')'] + rest),
        parse_depends_spec(p + seq![' '] + r + seq![' '] + v + seq![')'] + rest) == (
            trim(split(p, seq![':'])[0]),
            Some(v),
        ),
{
    let sp = seq![' '];
    let third = v + seq![')'];
    let dep = p + sp + r + sp + third + rest;
    assert(dep =~= p + sp + r + sp + v + seq![')'] + rest);
    let base = p.len() + 1 + r.len() + 1 + third.len();
    assert(dep[0] == p[0]);
    assert(trim_start(dep) == dep);
    assert(dep[base - 1] == ')');
    lemma_trim_end_keeps(dep, base - 1);
    let k = choose|k: int| base - 1 < k <= dep.len() && #[trigger] trim_end(dep) == dep.take(k);
    let t = dep.take(k);
    assert(trim(dep) == t);
    let rest2 = rest.take(k - base);
    assert(t =~= p + sp + (r + sp + (third + rest2)));
    lemma_no_space(p);
    lemma_no_space(r);
    lemma_no_space(v);
    assert(!third.contains(' ')) by {
        if third.contains(' ') {
            let i = choose|i: int| 0 <= i < third.len() && third[i] == ' ';
            if i < v.len() {
                assert(third[i] == v[i]);
            }
        }
    }
    lemma_split_first(p, sp, r + sp + (third + rest2));
    lemma_split_first(r, sp, third + rest2);
    if rest2.len() == 0 {
        assert(third + rest2 =~= third);
        lemma_split_whole(third, sp);
    } else {
        let rest3 = rest2.drop_first();
        assert(rest2[0] == rest[0]);
        assert(third + rest2 =~= third + sp + rest3);
        lemma_split_first(third, sp, rest3);
    }
    let w = dep_words(dep);
    assert(w.len() >= 3);
    assert(w[0] == p);
    assert(w[2] == third);
    assert(t[p.len() as int] == ' ');
    assert(t.contains(' '));
    assert(has_version(dep));
    assert(third.last() == ')');
    assert(third.drop_last() =~= v);
    lemma_trim_no_white(v);
    lemma_trim_no_white(p);
}

/// An entry `name (relation version)` reads as that name and that version,
/// whatever follows the closing parenthesis after a space: the version is
/// the third word without its last character, never a later word.
pub proof fn lemma_parse_depends_entry(p: Seq<char>, r: Seq<char>, v: Seq<char>, rest: Seq<char>)
    requires
        p.len() > 0,
        no_white(p),
        no_white(r),
        no_white(v),
        !p.contains(':'),
        rest.len() == 0 || rest[0] == ' ',
    ensures
        parse_depends_defined(p + seq![' '] + r + seq![' '] + v + seq![')'] + rest),
        parse_depends_spec(p + seq![' '] + r + seq![' '] + v + seq![')'] + rest) == (p, Some(v)),
{
    lemma_entry_words(p, r, v, rest);
    lemma_split_whole(p, seq![':']);
    lemma_trim_no_white(p);
}

/// The name of an entry stops at its first `:`, as in `python3:any`: the
/// part after it is no part of the name.
pub proof fn lemma_parse_depends_qualified_name(
    n: Seq<char>,
    qual: Seq<char>,
    r: Seq<char>,
    v: Seq<char>,
    rest: Seq<char>,
)
    requires
        n.len() > 0,
        no_white(n),
        no_white(qual),
        no_white(r),
        no_white(v),
        !n.contains(':'),
        rest.len() == 0 || rest[0] == ' ',
    ensures
        parse_depends_defined(n + seq![':'] + qual + seq![' '] + r + seq![' '] + v + seq![')'] + rest),
        parse_depends_spec(n + seq![':'] + qual + seq![' '] + r + seq![' '] + v + seq![')'] + rest)
            == (n, Some(v)),
{
    let p = n + seq![':'] + qual;
    assert(no_white(p)) by {
        assert forall|i: int| 0 <= i < p.len() implies !is_white(#[trigger] p[i]) by {
            if i < n.len() {
                assert(p[i] == n[i]);
            } else if i > n.len() {
                assert(p[i] == qual[i - n.len() - 1]);
            }
        }
    }
    lemma_entry_words(p, r, v, rest);
    lemma_split_first(n, seq![':'], qual);
    lemma_split_nonempty(qual, seq![':']);
    lemma_trim_no_white(n);
}

/// An entry of one word, without white space, names that package and asks
/// for no version.
pub proof fn lemma_parse_depends_bare(dep: Seq<char>)
    requires
        no_white(dep),
    ensures
        parse_depends_defined(dep),
        parse_depends_spec(dep) == (dep, None::<Seq<char>>),
{
    lemma_trim_no_white(dep);
    lemma_no_space(dep);
}

} // verus!

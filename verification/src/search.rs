//! Finding cached records by a glob pattern on their names, and taking the
//! contents of cache files into the list of cached records.
use crate::package::{PackageView, SourcePackage};
use crate::row::{from_row_spec, views_of};
use vstd::prelude::*;

verus! {

/// Whether `glob::Pattern::new` accepts the pattern text.
pub uninterp spec fn glob_pattern_valid(pattern: Seq<char>) -> bool;

/// Whether the pattern, compiled by `glob::Pattern::new`, matches `name`
/// under `glob::Pattern::matches` (case-sensitive, default options).
pub uninterp spec fn glob_pattern_matches(pattern: Seq<char>, name: Seq<char>) -> bool;

/// A pattern text with no wildcard and no character that could be a path
/// separator: it matches exactly itself.
pub open spec fn is_literal_pattern(pattern: Seq<char>) -> bool {
    !pattern.contains('*') && !pattern.contains('?') && !pattern.contains('[') && !pattern.contains(
        '/',
    ) && !pattern.contains('\\')
}

/// `glob::Pattern::new(pattern).is_ok()`.  The crate's source returns an
/// error only for a `*` run or a `[` it cannot read, so a text holding
/// neither compiles; of other texts only the name `glob_pattern_valid` is
/// claimed.
#[verifier::external_body]
fn glob_compiles(pattern: &str) -> (r: bool)
    ensures
        r == glob_pattern_valid(pattern@),
        !pattern@.contains('*') && !pattern@.contains('[') ==> r,
{
    glob::Pattern::new(pattern).is_ok()
}

/// `glob::Pattern::matches` on the pattern that `glob::Pattern::new`
/// compiles from `pattern`.  Claimed besides the name, from the crate's
/// source: a pattern without wildcards or separators matches exactly the
/// same text, and `*` matches every text.
#[verifier::external_body]
fn glob_matches(pattern: &str, name: &str) -> (r: bool)
    requires
        glob_pattern_valid(pattern@),
    ensures
        r == glob_pattern_matches(pattern@, name@),
        is_literal_pattern(pattern@) ==> (r <==> name@ == pattern@),
        pattern@ == "*"@ ==> r,
{
    match glob::Pattern::new(pattern) {
        Ok(p) => p.matches(name),
        Err(_) => false,
    }
}

/// A glob pattern over package names, such as `lib*`.
pub struct GlobPattern {
    text: String,
}

impl GlobPattern {
    #[verifier::type_invariant]
    closed spec fn compiles(self) -> bool {
        glob_pattern_valid(self.text@)
    }

    /// The text of the pattern.
    pub closed spec fn text(self) -> Seq<char> {
        self.text@
    }

    /// The pattern written as `text`, when it is a valid glob pattern.
    pub fn new(text: &str) -> (r: Option<GlobPattern>)
        ensures
            r is Some <==> glob_pattern_valid(text@),
            r matches Some(p) ==> p.text() == text@,
            !text@.contains('*') && !text@.contains('[') ==> r is Some,
    {
        if glob_compiles(text) {
            Some(GlobPattern { text: text.to_owned() })
        } else {
            None
        }
    }

    /// Whether the pattern matches `name`.
    pub fn matches(&self, name: &str) -> (r: bool)
        ensures
            r == glob_pattern_matches(self.text(), name@),
            is_literal_pattern(self.text()) ==> (r <==> name@ == self.text()),
            self.text() == "*"@ ==> r,
    {
        proof {
            use_type_invariant(self);
        }
        glob_matches(self.text.as_str(), name)
    }
}

/// The records whose names the pattern matches.
pub open spec fn matching(pattern: Seq<char>, items: Seq<PackageView>) -> Seq<PackageView> {
    items.filter(|p: PackageView| glob_pattern_matches(pattern, p.package))
}

/// The cached records whose names `glob` matches, in their order.
pub fn search_cache_with_name(glob: &GlobPattern, cached_items: &Vec<SourcePackage>) -> (r: Vec<
    SourcePackage,
>)
    ensures
        views_of(r@) == matching(glob.text(), views_of(cached_items@)),
        is_literal_pattern(glob.text()) ==> views_of(r@) == views_of(cached_items@).filter(
            |p: PackageView| p.package == glob.text(),
        ),
        glob.text() == "*"@ ==> views_of(r@) == views_of(cached_items@),
{
    let ghost s = views_of(cached_items@);
    let ghost pred = |p: PackageView| glob_pattern_matches(glob.text(), p.package);
    let ghost same = |p: PackageView| p.package == glob.text();
    let mut ret_items: Vec<SourcePackage> = Vec::new();
    let mut i: usize = 0;
    assert(s.take(0) =~= Seq::<PackageView>::empty());
    assert(views_of(ret_items@) =~= Seq::<PackageView>::empty());
    proof {
        reveal_with_fuel(Seq::<_>::filter, 1);
    }
    while i < cached_items.len()
        invariant
            i <= cached_items@.len(),
            s == views_of(cached_items@),
            pred == (|p: PackageView| glob_pattern_matches(glob.text(), p.package)),
            same == (|p: PackageView| p.package == glob.text()),
            views_of(ret_items@) == s.take(i as int).filter(pred),
            is_literal_pattern(glob.text()) ==> views_of(ret_items@) == s.take(i as int).filter(
                same,
            ),
            glob.text() == "*"@ ==> views_of(ret_items@) == s.take(i as int),
        decreases cached_items@.len() - i,
    {
        proof {
            reveal_with_fuel(Seq::<_>::filter, 1);
            assert(s.take(i + 1).drop_last() =~= s.take(i as int));
            assert(s.take(i + 1).last() == cached_items@[i as int]@);
        }
        let item = &cached_items[i];
        if glob.matches(item.package.as_str()) {
            let ghost before = views_of(ret_items@);
            let copy = item.duplicate();
            ret_items.push(copy);
            assert(views_of(ret_items@) =~= before.push(item@));
        }
        assert(glob.text() == "*"@ ==> s.take(i + 1) =~= s.take(i as int).push(item@));
        i = i + 1;
    }
    assert(s.take(i as int) =~= s);
    ret_items
}

/// Takes the contents of one cache file into `items`: its records are
/// appended when the file reads without error; on an error, `items` stays
/// as it was and the message comes back.  `None`, with `items` unchanged,
/// for a file that `SourcePackage::from_row` cannot read.
pub fn append_cache_contents(items: &mut Vec<SourcePackage>, raw_cache: &str) -> (r: Option<
    Result<(), String>,
>)
    ensures
        match from_row_spec(raw_cache@) {
            Some(Ok(ps)) => r matches Some(Ok(())) && views_of(final(items)@) == views_of(
                old(items)@,
            ) + ps,
            Some(Err(e)) => r matches Some(Err(m)) && m@ == e && final(items)@ == old(items)@,
            None => r is None && final(items)@ == old(items)@,
        },
{
    match SourcePackage::from_row_checked(raw_cache) {
        None => None,
        Some(Err(m)) => Some(Err(m)),
        Some(Ok(parsed)) => {
            let ghost start = views_of(items@);
            let mut k: usize = 0;
            assert(views_of(parsed@).take(0) =~= Seq::<PackageView>::empty());
            assert(start + views_of(parsed@).take(0) =~= start);
            while k < parsed.len()
                invariant
                    k <= parsed@.len(),
                    start == views_of(old(items)@),
                    views_of(items@) == start + views_of(parsed@).take(k as int),
                decreases parsed@.len() - k,
            {
                let ghost before = views_of(items@);
                let copy = parsed[k].duplicate();
                items.push(copy);
                assert(views_of(items@) =~= before.push(parsed@[k as int]@));
                assert(views_of(parsed@).take(k + 1) =~= views_of(parsed@).take(k as int).push(
                    parsed@[k as int]@,
                ));
                k = k + 1;
            }
            assert(views_of(parsed@).take(k as int) =~= views_of(parsed@));
            Some(Ok(()))
        },
    }
}


/// What a search gives: records of the cache, in their order, each one
/// matched by the pattern, and every matched record of the cache.
pub proof fn lemma_matching_law(pattern: Seq<char>, items: Seq<PackageView>)
    ensures
        matching(pattern, items).len() <= items.len(),
        forall|i: int|
            0 <= i < matching(pattern, items).len() ==> glob_pattern_matches(
                pattern,
                #[trigger] matching(pattern, items)[i].package,
            ) && items.contains(matching(pattern, items)[i]),
        forall|i: int|
            0 <= i < items.len() && glob_pattern_matches(pattern, #[trigger] items[i].package)
                ==> matching(pattern, items).contains(items[i]),
{
    broadcast use vstd::seq_lib::group_filter_ensures;

    let pred = |p: PackageView| glob_pattern_matches(pattern, p.package);
    let m = items.filter(pred);
    assert forall|i: int| 0 <= i < m.len() implies glob_pattern_matches(
        pattern,
        #[trigger] m[i].package,
    ) && items.contains(m[i]) by {
        items.lemma_filter_pred(pred, i);
        assert(m.contains(m[i]));
        items.lemma_filter_contains_rev(pred, m[i]);
    }
    assert forall|i: int| 0 <= i < items.len() && glob_pattern_matches(
        pattern,
        #[trigger] items[i].package,
    ) implies matching(pattern, items).contains(items[i]) by {
        items.lemma_filter_contains(pred, i);
    }
}

} // verus!

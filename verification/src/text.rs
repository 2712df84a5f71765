//! Character-level text handling: the views of `str` and `String` are
//! `Seq<char>`, and everything here is stated over those sequences.
use vstd::prelude::*;

verus! {

/// The characters of `s`, in order.
pub(crate) fn chars_of(s: &str) -> (r: Vec<char>)
    ensures
        r@ == s@,
{
    broadcast use vstd::string::group_string_axioms;
    let mut out: Vec<char> = Vec::new();
    for c in iter: s.chars()
        invariant
            iter.seq() == s@,
            out@ == iter.seq().take(iter.index() as int),
    {
        out.push(c);
    }
    out
}

/// The `String` made of the characters of `v`
/// (`FromIterator<&char>` for `String`, through `collect`).
#[verifier::external_body]
pub(crate) fn string_from_chars(v: &Vec<char>) -> (r: String)
    ensures
        r@ == v@,
{
    v.iter().collect()
}

/// Unicode `White_Space`, the property that `char::is_whitespace` tests
/// and that `str::trim` strips.
pub open spec fn is_white(c: char) -> bool {
    let u = c as u32;
    ||| 0x09 <= u <= 0x0d
    ||| u == 0x20
    ||| u == 0x85
    ||| u == 0xa0
    ||| u == 0x1680
    ||| 0x2000 <= u <= 0x200a
    ||| u == 0x2028
    ||| u == 0x2029
    ||| u == 0x202f
    ||| u == 0x205f
    ||| u == 0x3000
}

pub(crate) fn char_is_white(c: char) -> (r: bool)
    ensures
        r == is_white(c),
{
    let u = c as u32;
    (0x09 <= u && u <= 0x0d) || u == 0x20 || u == 0x85 || u == 0xa0 || u == 0x1680 || (0x2000
        <= u && u <= 0x200a) || u == 0x2028 || u == 0x2029 || u == 0x202f || u == 0x205f || u
        == 0x3000
}

/// `s` without its leading white space.
pub open spec fn trim_start(s: Seq<char>) -> Seq<char>
    decreases s.len(),
{
    if s.len() > 0 && is_white(s[0]) {
        trim_start(s.drop_first())
    } else {
        s
    }
}

/// `s` without its trailing white space.
pub open spec fn trim_end(s: Seq<char>) -> Seq<char>
    decreases s.len(),
{
    if s.len() > 0 && is_white(s.last()) {
        trim_end(s.drop_last())
    } else {
        s
    }
}

/// `s` without leading and trailing white space, as `str::trim` gives it.
pub open spec fn trim(s: Seq<char>) -> Seq<char> {
    trim_end(trim_start(s))
}

proof fn lemma_trim_start_skip(s: Seq<char>, i: int)
    requires
        0 <= i <= s.len(),
        forall|j: int| 0 <= j < i ==> is_white(#[trigger] s[j]),
    ensures
        trim_start(s) == trim_start(s.skip(i)),
    decreases i,
{
    if i > 0 {
        assert(s.skip(1) =~= s.drop_first());
        lemma_trim_start_skip(s.drop_first(), i - 1);
        assert(s.drop_first().skip(i - 1) =~= s.skip(i));
    } else {
        assert(s.skip(0) =~= s);
    }
}

proof fn lemma_trim_end_take(s: Seq<char>, i: int)
    requires
        0 <= i <= s.len(),
        forall|j: int| i <= j < s.len() ==> is_white(#[trigger] s[j]),
    ensures
        trim_end(s) == trim_end(s.take(i)),
    decreases s.len() - i,
{
    if i < s.len() {
        lemma_trim_end_take(s.drop_last(), i);
        assert(s.drop_last().take(i) =~= s.take(i));
    } else {
        assert(s.take(i) =~= s);
    }
}

/// The characters of `s[from..to]`.
pub(crate) fn sub_chars(s: &Vec<char>, from: usize, to: usize) -> (r: Vec<char>)
    requires
        from <= to <= s@.len(),
    ensures
        r@ == s@.subrange(from as int, to as int),
{
    let mut out: Vec<char> = Vec::new();
    let mut i = from;
    while i < to
        invariant
            from <= i <= to <= s@.len(),
            out@ == s@.subrange(from as int, i as int),
        decreases to - i,
    {
        out.push(s[i]);
        i = i + 1;
    }
    out
}

/// `str::trim` on characters.
pub(crate) fn trim_chars(s: &Vec<char>) -> (r: Vec<char>)
    ensures
        r@ == trim(s@),
{
    let n = s.len();
    let mut a: usize = 0;
    while a < n && char_is_white(s[a])
        invariant
            0 <= a <= n == s@.len(),
            forall|j: int| 0 <= j < a ==> is_white(#[trigger] s@[j]),
        decreases n - a,
    {
        a = a + 1;
    }
    proof {
        lemma_trim_start_skip(s@, a as int);
    }
    let ghost t = s@.skip(a as int);
    assert(trim_start(t) == t);
    let mut b: usize = n;
    while b > a && char_is_white(s[b - 1])
        invariant
            a <= b <= n == s@.len(),
            t == s@.skip(a as int),
            forall|j: int| b - a <= j < t.len() ==> is_white(#[trigger] t[j]),
        decreases b,
    {
        b = b - 1;
    }
    proof {
        lemma_trim_end_take(t, b - a);
        let u = t.take(b - a);
        if u.len() > 0 {
            assert(u.last() == s@[b - 1]);
        }
        assert(trim_end(u) == u);
        assert(u =~= s@.subrange(a as int, b as int));
    }
    sub_chars(s, a, b)
}

/// Whether `sep` occurs in `s` at position `i`.
pub open spec fn occurs_at(s: Seq<char>, sep: Seq<char>, i: int) -> bool {
    0 <= i && i + sep.len() <= s.len() && s.subrange(i, i + sep.len()) == sep
}

/// The position of the first occurrence of `sep` in `s`.
pub open spec fn first_occurrence(s: Seq<char>, sep: Seq<char>) -> Option<int>
    decreases s.len(),
{
    if s.len() < sep.len() {
        None
    } else if s.take(sep.len() as int) == sep {
        Some(0)
    } else if s.len() == 0 {
        None
    } else {
        match first_occurrence(s.drop_first(), sep) {
            Some(k) => Some(k + 1),
            None => None,
        }
    }
}

/// `s` cut at each occurrence of `sep`, from left to right and without
/// overlaps, as `str::split` with a string pattern gives it.
pub open spec fn split(s: Seq<char>, sep: Seq<char>) -> Seq<Seq<char>>
    decreases s.len(),
{
    if sep.len() == 0 {
        seq![s]
    } else {
        match first_occurrence(s, sep) {
            Some(k) => if 0 <= k && k + sep.len() <= s.len() {
                seq![s.take(k)] + split(s.skip(k + sep.len()), sep)
            } else {
                seq![s]
            },
            None => seq![s],
        }
    }
}

/// `parts` with `sep` between each two neighbours, as `[String]::join`
/// gives it.
pub open spec fn join(parts: Seq<Seq<char>>, sep: Seq<char>) -> Seq<char>
    decreases parts.len(),
{
    if parts.len() == 0 {
        Seq::empty()
    } else if parts.len() == 1 {
        parts[0]
    } else {
        join(parts.drop_last(), sep) + sep + parts.last()
    }
}

proof fn lemma_first_occurrence(s: Seq<char>, sep: Seq<char>)
    ensures
        match first_occurrence(s, sep) {
            Some(k) => occurs_at(s, sep, k) && forall|j: int|
                0 <= j < k ==> !#[trigger] occurs_at(s, sep, j),
            None => forall|j: int| !#[trigger] occurs_at(s, sep, j),
        },
    decreases s.len(),
{
    if s.len() < sep.len() {
    } else if s.take(sep.len() as int) == sep {
        assert(s.subrange(0, sep.len() as int) =~= s.take(sep.len() as int));
    } else if s.len() == 0 {
        assert(s.take(0) =~= sep);
    } else {
        lemma_first_occurrence(s.drop_first(), sep);
        let t = s.drop_first();
        assert forall|j: int| 0 <= j && occurs_at(s, sep, j + 1) implies occurs_at(t, sep, j) by {
            assert(t.subrange(j, j + sep.len()) =~= s.subrange(j + 1, j + 1 + sep.len()));
        }
        assert forall|j: int| 0 <= j && occurs_at(t, sep, j) implies occurs_at(s, sep, j + 1) by {
            assert(t.subrange(j, j + sep.len()) =~= s.subrange(j + 1, j + 1 + sep.len()));
        }
        assert(!occurs_at(s, sep, 0)) by {
            assert(s.subrange(0, sep.len() as int) =~= s.take(sep.len() as int));
        }
        match first_occurrence(t, sep) {
            Some(k) => {
                assert forall|j: int| 0 <= j < k + 1 implies !#[trigger] occurs_at(s, sep, j) by {
                    if j > 0 {
                        assert(!occurs_at(t, sep, j - 1));
                    }
                }
            },
            None => {
                assert forall|j: int| !#[trigger] occurs_at(s, sep, j) by {
                    if j > 0 {
                        assert(!occurs_at(t, sep, j - 1));
                    }
                }
            },
        }
    }
}

/// The first occurrence, told by its defining property.
proof fn lemma_first_occurrence_is(s: Seq<char>, sep: Seq<char>, k: int)
    requires
        occurs_at(s, sep, k),
        forall|j: int| 0 <= j < k ==> !#[trigger] occurs_at(s, sep, j),
    ensures
        first_occurrence(s, sep) == Some(k),
{
    lemma_first_occurrence(s, sep);
    match first_occurrence(s, sep) {
        Some(k2) => {
            if k2 < k {
                assert(!occurs_at(s, sep, k2));
            } else if k < k2 {
                assert(!occurs_at(s, sep, k));
            }
        },
        None => {
            assert(!occurs_at(s, sep, k));
        },
    }
}

/// A vector of characters seen deeply is its view.
pub proof fn lemma_chars_deep_view(v: &Vec<char>)
    ensures
        v.deep_view() == v@,
{
    assert(v.deep_view() =~= v@);
}

/// Whether `sep` occurs in `s` at position `i`.
fn occurs_at_exec(s: &Vec<char>, sep: &Vec<char>, i: usize) -> (r: bool)
    requires
        i <= s@.len(),
    ensures
        r == occurs_at(s@, sep@, i as int),
{
    if sep.len() > s.len() - i {
        return false;
    }
    let mut j: usize = 0;
    while j < sep.len()
        invariant
            i + sep@.len() <= s.len(),
            j <= sep@.len(),
            forall|m: int| 0 <= m < j ==> s@[i + m] == sep@[m],
        decreases sep@.len() - j,
    {
        if s[i + j] != sep[j] {
            assert(s@.subrange(i as int, i + sep@.len())[j as int] != sep@[j as int]);
            return false;
        }
        j = j + 1;
    }
    assert(s@.subrange(i as int, i + sep@.len()) =~= sep@);
    true
}

/// `str::split` with a string pattern, on characters.
pub(crate) fn split_chars(s: &Vec<char>, sep: &Vec<char>) -> (r: Vec<Vec<char>>)
    requires
        sep@.len() > 0,
    ensures
        r.deep_view() == split(s@, sep@),
{
    let mut out: Vec<Vec<char>> = Vec::new();
    let mut start: usize = 0;
    let mut i: usize = 0;
    let n = s.len();
    assert(s@.skip(0) =~= s@);
    assert(out.deep_view() + split(s@, sep@) =~= split(s@, sep@));
    while i < n
        invariant
            n == s@.len(),
            sep@.len() > 0,
            start <= i <= n,
            out.deep_view() + split(s@.skip(start as int), sep@) == split(s@, sep@),
            forall|j: int| start <= j < i ==> !#[trigger] occurs_at(s@, sep@, j),
        decreases n - i + (n - start),
    {
        if occurs_at_exec(s, sep, i) {
            let ghost t = s@.skip(start as int);
            let ghost k = i - start;
            proof {
                assert forall|j: int| 0 <= j < k implies !#[trigger] occurs_at(t, sep@, j) by {
                    assert(t.subrange(j, j + sep@.len()) =~= s@.subrange(start + j, start + j
                        + sep@.len()));
                    assert(!occurs_at(s@, sep@, start + j));
                }
                assert(t.subrange(k, k + sep@.len()) =~= s@.subrange(i as int, i + sep@.len()));
                lemma_first_occurrence_is(t, sep@, k);
                assert(t.take(k) =~= s@.subrange(start as int, i as int));
                assert(t.skip(k + sep@.len()) =~= s@.skip(i + sep@.len()));
            }
            let piece = sub_chars(s, start, i);
            proof {
                lemma_chars_deep_view(&piece);
            }
            let ghost before = out.deep_view();
            out.push(piece);
            assert(out.deep_view() =~= before.push(piece@));
            i = i + sep.len();
            start = i;
        } else {
            i = i + 1;
        }
    }
    proof {
        let t = s@.skip(start as int);
        lemma_first_occurrence(t, sep@);
        assert forall|j: int| !#[trigger] occurs_at(t, sep@, j) by {
            if 0 <= j && j + sep@.len() <= t.len() {
                assert(t.subrange(j, j + sep@.len()) =~= s@.subrange(start + j, start + j
                    + sep@.len()));
                assert(!occurs_at(s@, sep@, start + j));
            }
        }
    }
    let last = sub_chars(s, start, n);
    proof {
        lemma_chars_deep_view(&last);
    }
    let ghost before = out.deep_view();
    out.push(last);
    assert(out.deep_view() =~= before.push(last@));
    proof {
        assert(s@.subrange(start as int, n as int) =~= s@.skip(start as int));
    }
    out
}


/// Splitting always gives at least one piece.
pub proof fn lemma_split_nonempty(s: Seq<char>, sep: Seq<char>)
    ensures
        split(s, sep).len() >= 1,
    decreases s.len(),
{
    if sep.len() > 0 {
        match first_occurrence(s, sep) {
            Some(k) => if 0 <= k && k + sep.len() <= s.len() {
                lemma_split_nonempty(s.skip(k + sep.len()), sep);
            },
            None => {},
        }
    }
}


/// Whether two character vectors hold the same characters.
pub(crate) fn chars_eq(a: &Vec<char>, b: &Vec<char>) -> (r: bool)
    ensures
        r == (a@ == b@),
{
    if a.len() != b.len() {
        return false;
    }
    let mut i: usize = 0;
    while i < a.len()
        invariant
            a@.len() == b@.len(),
            i <= a@.len(),
            forall|j: int| 0 <= j < i ==> a@[j] == b@[j],
        decreases a@.len() - i,
    {
        if a[i] != b[i] {
            return false;
        }
        i = i + 1;
    }
    assert(a@ =~= b@);
    true
}

/// Whether the characters of `a` are those of the text `lit`.
pub(crate) fn chars_are(a: &Vec<char>, lit: &str) -> (r: bool)
    ensures
        r == (a@ == lit@),
{
    let b = chars_of(lit);
    chars_eq(a, &b)
}

/// `parts[start..]` joined with `sep`, as `[String]::join` gives it.
pub(crate) fn join_from(parts: &Vec<Vec<char>>, start: usize, sep: &Vec<char>) -> (r: Vec<char>)
    requires
        start <= parts@.len(),
    ensures
        r@ == join(parts.deep_view().skip(start as int), sep@),
{
    let ghost q = parts.deep_view().skip(start as int);
    let mut out: Vec<char> = Vec::new();
    let mut i: usize = start;
    assert(q.take(0) =~= Seq::<Seq<char>>::empty());
    while i < parts.len()
        invariant
            start <= i <= parts@.len(),
            q == parts.deep_view().skip(start as int),
            out@ == join(q.take(i - start), sep@),
        decreases parts@.len() - i,
    {
        proof {
            lemma_chars_deep_view(&parts@[i as int]);
            assert(q[i - start] == parts@[i as int]@);
            assert(q.take(i - start + 1).drop_last() =~= q.take(i - start));
        }
        if i > start {
            let mut k: usize = 0;
            while k < sep.len()
                invariant
                    k <= sep@.len(),
                    out@ == join(q.take(i - start), sep@) + sep@.take(k as int),
                decreases sep@.len() - k,
            {
                out.push(sep[k]);
                assert(sep@.take(k + 1) =~= sep@.take(k as int).push(sep@[k as int]));
                k = k + 1;
            }
            assert(sep@.take(k as int) =~= sep@);
        }
        let ghost mid = out@;
        let mut k: usize = 0;
        let part = &parts[i];
        while k < part.len()
            invariant
                k <= part@.len(),
                out@ == mid + part@.take(k as int),
            decreases part@.len() - k,
        {
            out.push(part[k]);
            assert(part@.take(k + 1) =~= part@.take(k as int).push(part@[k as int]));
            k = k + 1;
        }
        proof {
            assert(part@.take(k as int) =~= part@);
            if i == start {
                assert(mid =~= Seq::<char>::empty());
                assert(out@ =~= q.take(1)[0]);
            }
        }
        i = i + 1;
    }
    assert(q.take(i - start) =~= q);
    out
}


proof fn lemma_trim_start_shape(s: Seq<char>)
    ensures
        exists|k: int| 0 <= k <= s.len() && trim_start(s) == s.skip(k),
        trim_start(s).len() > 0 ==> !is_white(trim_start(s)[0]),
    decreases s.len(),
{
    if s.len() > 0 && is_white(s[0]) {
        lemma_trim_start_shape(s.drop_first());
        let k = choose|k: int| 0 <= k <= s.drop_first().len() && trim_start(s.drop_first()) == s.drop_first().skip(k);
        assert(s.drop_first().skip(k) =~= s.skip(k + 1));
    } else {
        assert(s.skip(0) =~= s);
    }
}

proof fn lemma_trim_end_shape(s: Seq<char>)
    ensures
        exists|k: int| 0 <= k <= s.len() && trim_end(s) == s.take(k),
        trim_end(s).len() > 0 ==> !is_white(trim_end(s).last()),
    decreases s.len(),
{
    if s.len() > 0 && is_white(s.last()) {
        lemma_trim_end_shape(s.drop_last());
        let k = choose|k: int| 0 <= k <= s.drop_last().len() && trim_end(s.drop_last()) == s.drop_last().take(k);
        assert(s.drop_last().take(k) =~= s.take(k));
    } else {
        assert(s.take(s.len() as int) =~= s);
    }
}

/// Trimming twice is trimming once: what `trim` gives has no white space
/// at either end.
pub proof fn lemma_trim_idempotent(s: Seq<char>)
    ensures
        trim(trim(s)) == trim(s),
        trim(s).len() > 0 ==> !is_white(trim(s)[0]) && !is_white(trim(s).last()),
{
    let a = trim_start(s);
    lemma_trim_start_shape(s);
    lemma_trim_end_shape(a);
    let t = trim_end(a);
    let k = choose|k: int| 0 <= k <= a.len() && t == a.take(k);
    if t.len() > 0 {
        assert(t[0] == a[0]);
    }
    assert(trim_start(t) == t);
    assert(trim_end(t) == t);
}


/// Splitting at a one-character separator: text with the separator between
/// two parts splits into the pieces of the first part, then those of the
/// second.
pub proof fn lemma_split_concat(x: Seq<char>, y: Seq<char>, c: char)
    ensures
        split(x + seq![c] + y, seq![c]) == split(x, seq![c]) + split(y, seq![c]),
    decreases x.len(),
{
    let sep = seq![c];
    let s = x + sep + y;
    lemma_first_occurrence(x, sep);
    match first_occurrence(x, sep) {
        Some(k) => {
            assert(x.subrange(k, k + 1) =~= s.subrange(k, k + 1));
            assert forall|j: int| 0 <= j < k implies !#[trigger] occurs_at(s, sep, j) by {
                assert(!occurs_at(x, sep, j));
                assert(x.subrange(j, j + 1) =~= s.subrange(j, j + 1));
            }
            lemma_first_occurrence_is(s, sep, k);
            let x2 = x.skip(k + 1);
            lemma_split_concat(x2, y, c);
            assert(s.take(k) =~= x.take(k));
            assert(s.skip(k + 1) =~= x2 + sep + y);
            assert(split(x, sep) == seq![x.take(k)] + split(x2, sep));
            assert(split(s, sep) == seq![s.take(k)] + split(s.skip(k + 1), sep));
            assert(split(s, sep) =~= split(x, sep) + split(y, sep));
        },
        None => {
            let k = x.len() as int;
            assert(s.subrange(k, k + 1) =~= sep);
            assert forall|j: int| 0 <= j < k implies !#[trigger] occurs_at(s, sep, j) by {
                assert(!occurs_at(x, sep, j));
                assert(x.subrange(j, j + 1) =~= s.subrange(j, j + 1));
            }
            lemma_first_occurrence_is(s, sep, k);
            assert(s.take(k) =~= x);
            assert(s.skip(k + 1) =~= y);
            assert(split(s, sep) =~= split(x, sep) + split(y, sep));
        },
    }
}


/// All characters of `s` are white space.
pub open spec fn all_white(s: Seq<char>) -> bool {
    forall|i: int| 0 <= i < s.len() ==> is_white(#[trigger] s[i])
}

proof fn lemma_trim_start_all_white(s: Seq<char>)
    requires
        all_white(s),
    ensures
        trim_start(s).len() == 0,
    decreases s.len(),
{
    if s.len() > 0 {
        assert(all_white(s.drop_first())) by {
            assert forall|i: int| 0 <= i < s.drop_first().len() implies is_white(
                #[trigger] s.drop_first()[i],
            ) by {
                assert(s.drop_first()[i] == s[i + 1]);
            }
        }
        lemma_trim_start_all_white(s.drop_first());
    }
}

proof fn lemma_trim_start_append(d: Seq<char>, q: Seq<char>)
    requires
        trim_start(d).len() > 0,
    ensures
        trim_start(d + q) == trim_start(d) + q,
    decreases d.len(),
{
    if d.len() > 0 && is_white(d[0]) {
        assert((d + q).drop_first() =~= d.drop_first() + q);
        lemma_trim_start_append(d.drop_first(), q);
    } else if d.len() == 0 {
    } else {
        assert((d + q)[0] == d[0]);
    }
}

/// White space around a text does not change what `trim` gives.
pub proof fn lemma_trim_surrounded(p: Seq<char>, d: Seq<char>, q: Seq<char>)
    requires
        all_white(p),
        all_white(q),
    ensures
        trim(p + d + q) == trim(d),
{
    let s = p + d + q;
    assert forall|j: int| 0 <= j < p.len() implies is_white(#[trigger] s[j]) by {
        assert(s[j] == p[j]);
    }
    lemma_trim_start_skip(s, p.len() as int);
    assert(s.skip(p.len() as int) =~= d + q);
    let t = trim_start(d);
    if t.len() > 0 {
        lemma_trim_start_append(d, q);
        let u = t + q;
        assert forall|j: int| t.len() <= j < u.len() implies is_white(#[trigger] u[j]) by {
            assert(u[j] == q[j - t.len()]);
        }
        lemma_trim_end_take(u, t.len() as int);
        assert(u.take(t.len() as int) =~= t);
    } else {
        lemma_trim_start_shape(d);
        let k = choose|k: int| 0 <= k <= d.len() && trim_start(d) == d.skip(k);
        assert(k == d.len());
        assert forall|j: int| 0 <= j < d.len() implies is_white(#[trigger] d[j]) by {
            lemma_white_prefix(d, j);
        }
        let dq = d + q;
        assert(all_white(dq)) by {
            assert forall|j: int| 0 <= j < dq.len() implies is_white(#[trigger] dq[j]) by {
                if j < d.len() {
                    assert(dq[j] == d[j]);
                } else {
                    assert(dq[j] == q[j - d.len()]);
                }
            }
        }
        lemma_trim_start_all_white(dq);
        assert(trim_start(dq) =~= t);
    }
}

/// Before the first character that `trim_start` keeps, all is white space.
proof fn lemma_white_prefix(d: Seq<char>, j: int)
    requires
        0 <= j < d.len(),
        trim_start(d).len() == 0,
    ensures
        is_white(d[j]),
    decreases d.len(),
{
    if d.len() > 0 && is_white(d[0]) {
        if j > 0 {
            lemma_white_prefix(d.drop_first(), j - 1);
            assert(d.drop_first()[j - 1] == d[j]);
        }
    }
}


/// Text without the separator's first character is one piece.
pub proof fn lemma_split_whole(s: Seq<char>, sep: Seq<char>)
    requires
        sep.len() > 0,
        !s.contains(sep[0]),
    ensures
        split(s, sep) == seq![s],
{
    lemma_first_occurrence(s, sep);
    match first_occurrence(s, sep) {
        Some(k) => {
            assert(s.subrange(k, k + sep.len())[0] == s[k]);
            assert(s[k] == sep[0]);
        },
        None => {},
    }
}

/// Text that has no separator character before the first separator splits
/// there first.
pub proof fn lemma_split_first(p: Seq<char>, sep: Seq<char>, q: Seq<char>)
    requires
        sep.len() > 0,
        !p.contains(sep[0]),
    ensures
        split(p + sep + q, sep) == seq![p] + split(q, sep),
{
    let s = p + sep + q;
    let k = p.len() as int;
    assert(s.subrange(k, k + sep.len()) =~= sep);
    assert forall|j: int| 0 <= j < k implies !#[trigger] occurs_at(s, sep, j) by {
        if occurs_at(s, sep, j) {
            assert(s.subrange(j, j + sep.len())[0] == s[j]);
            assert(s[j] == p[j]);
        }
    }
    lemma_first_occurrence_is(s, sep, k);
    assert(s.take(k) =~= p);
    assert(s.skip(k + sep.len()) =~= q);
}


/// No character of `s` is white space.
pub open spec fn no_white(s: Seq<char>) -> bool {
    forall|i: int| 0 <= i < s.len() ==> !is_white(#[trigger] s[i])
}

/// `trim` keeps a text without white space as it is.
pub proof fn lemma_trim_no_white(s: Seq<char>)
    requires
        no_white(s),
    ensures
        trim(s) == s,
{
    if s.len() > 0 {
        assert(!is_white(s[0]));
        assert(!is_white(s[s.len() - 1]));
    }
}

/// `trim_end` cuts nothing up to a character that is not white space.
pub proof fn lemma_trim_end_keeps(s: Seq<char>, j: int)
    requires
        0 <= j < s.len(),
        !is_white(s[j]),
    ensures
        exists|k: int| j < k <= s.len() && #[trigger] trim_end(s) == s.take(k),
    decreases s.len(),
{
    if is_white(s.last()) {
        assert(j < s.len() - 1);
        lemma_trim_end_keeps(s.drop_last(), j);
        let k = choose|k: int| j < k <= s.drop_last().len() && #[trigger] trim_end(s.drop_last())
            == s.drop_last().take(k);
        assert(s.drop_last().take(k) =~= s.take(k));
    } else {
        assert(s.take(s.len() as int) =~= s);
    }
}

} // verus!

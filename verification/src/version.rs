//! Comparing version strings.
//!
//! A version string is read as a sequence of runs: a run of decimal digits
//! followed by a run of other characters, again and again.  Two versions
//! compare run by run: digit runs by their numeric value, the other runs
//! character by character, where `~` sorts before the end of the run, the
//! end before letters, and letters before everything else.
use crate::text::{chars_of, lemma_chars_deep_view, string_from_chars, sub_chars};
use vstd::prelude::*;

verus! {

pub open spec fn is_digit(c: char) -> bool {
    48 <= (c as u32) <= 57
}

pub open spec fn is_letter(c: char) -> bool {
    let u = c as u32;
    (65 <= u <= 90) || (97 <= u <= 122)
}

/// The weight of a character, or of the end of a run (`None`), in the
/// order of non-digit runs.
pub open spec fn char_weight(c: Option<char>) -> int {
    match c {
        None => 0,
        Some(c) => if c == '~' {
            -1
        } else if is_letter(c) {
            c as u32 as int
        } else {
            c as u32 as int + 256
        },
    }
}

/// `1`, `0` or `-1` as `x` is positive, zero or negative.
pub open spec fn sign(x: int) -> i32 {
    if x > 0 {
        1
    } else if x < 0 {
        -1i32
    } else {
        0
    }
}

/// Compares two characters of non-digit runs, `None` standing for the end
/// of a run: `1` when `a` sorts after `b`, `-1` when before, `0` when equal.
pub fn comp_version_char(a: Option<char>, b: Option<char>) -> (r: i32)
    ensures
        r == sign(char_weight(a) - char_weight(b)),
{
    let wa = weight(a);
    let wb = weight(b);
    if wa > wb {
        1
    } else if wa < wb {
        -1i32
    } else {
        0
    }
}

fn weight(c: Option<char>) -> (r: i64)
    ensures
        r == char_weight(c),
{
    match c {
        None => 0,
        Some(c) => {
            let u = c as u32;
            if c == '~' {
                -1
            } else if (65 <= u && u <= 90) || (97 <= u && u <= 122) {
                u as i64
            } else {
                u as i64 + 256
            }
        },
    }
}

/// The length of the run of digits that `s` starts with.
pub open spec fn digit_run_len(s: Seq<char>) -> nat
    decreases s.len(),
{
    if s.len() > 0 && is_digit(s[0]) {
        1 + digit_run_len(s.drop_first())
    } else {
        0
    }
}

/// The length of the run of non-digits that `s` starts with.
pub open spec fn text_run_len(s: Seq<char>) -> nat
    decreases s.len(),
{
    if s.len() > 0 && !is_digit(s[0]) {
        1 + text_run_len(s.drop_first())
    } else {
        0
    }
}

pub proof fn lemma_digit_run_len(s: Seq<char>)
    ensures
        digit_run_len(s) <= s.len(),
        forall|j: int| 0 <= j < digit_run_len(s) ==> is_digit(#[trigger] s[j]),
        digit_run_len(s) < s.len() ==> !is_digit(s[digit_run_len(s) as int]),
    decreases s.len(),
{
    if s.len() > 0 && is_digit(s[0]) {
        lemma_digit_run_len(s.drop_first());
        assert forall|j: int| 0 <= j < digit_run_len(s) implies is_digit(#[trigger] s[j]) by {
            if j > 0 {
                assert(s[j] == s.drop_first()[j - 1]);
            }
        }
    }
}

pub proof fn lemma_text_run_len(s: Seq<char>)
    ensures
        text_run_len(s) <= s.len(),
        forall|j: int| 0 <= j < text_run_len(s) ==> !is_digit(#[trigger] s[j]),
        text_run_len(s) < s.len() ==> is_digit(s[text_run_len(s) as int]),
    decreases s.len(),
{
    if s.len() > 0 && !is_digit(s[0]) {
        lemma_text_run_len(s.drop_first());
        assert forall|j: int| 0 <= j < text_run_len(s) implies !is_digit(#[trigger] s[j]) by {
            if j > 0 {
                assert(s[j] == s.drop_first()[j - 1]);
            }
        }
    }
}

/// The run lengths told by their defining property.
proof fn lemma_run_lens_are(s: Seq<char>, d: int, n: int)
    requires
        0 <= d <= n <= s.len(),
        forall|j: int| 0 <= j < d ==> is_digit(#[trigger] s[j]),
        d < s.len() ==> !is_digit(s[d]),
        forall|j: int| d <= j < n ==> !is_digit(#[trigger] s[j]),
        n < s.len() ==> is_digit(s[n]),
    ensures
        digit_run_len(s) == d,
        text_run_len(s.skip(d)) == n - d,
{
    lemma_digit_run_len(s);
    let dd = digit_run_len(s) as int;
    if dd < d {
        assert(is_digit(s[dd]));
    } else if d < dd {
        assert(is_digit(s[d]));
    }
    let t = s.skip(d);
    lemma_text_run_len(t);
    let nn = text_run_len(t) as int;
    if nn < n - d {
        assert(t[nn] == s[d + nn]);
    } else if n - d < nn {
        assert(t[n - d] == s[n]);
    }
}

/// The runs of `s`: each pair is a run of digits (possibly empty, at the
/// start) and the run of non-digits that follows it.
pub open spec fn upstream_runs(s: Seq<char>) -> Seq<(Seq<char>, Seq<char>)>
    decreases s.len(),
{
    if s.len() == 0 {
        Seq::empty()
    } else {
        let d = digit_run_len(s) as int;
        let rest = s.skip(d);
        let n = text_run_len(rest) as int;
        proof {
            lemma_digit_run_len(s);
            lemma_text_run_len(rest);
        }
        if d + n > 0 {
            seq![(s.take(d), rest.take(n))] + upstream_runs(rest.skip(n))
        } else {
            Seq::empty()
        }
    }
}

/// The runs of `s`, as character vectors.
fn runs_of(s: &Vec<char>) -> (r: Vec<(Vec<char>, Vec<char>)>)
    ensures
        r.deep_view() == upstream_runs(s@),
{
    let n = s.len();
    let mut out: Vec<(Vec<char>, Vec<char>)> = Vec::new();
    let mut i: usize = 0;
    assert(s@.skip(0) =~= s@);
    assert(out.deep_view() + upstream_runs(s@) =~= upstream_runs(s@));
    while i < n
        invariant
            n == s@.len(),
            i <= n,
            out.deep_view() + upstream_runs(s@.skip(i as int)) == upstream_runs(s@),
        decreases n - i,
    {
        let mut j = i;
        while j < n && is_digit_exec(s[j])
            invariant
                i <= j <= n == s@.len(),
                forall|m: int| i <= m < j ==> is_digit(#[trigger] s@[m]),
            decreases n - j,
        {
            j = j + 1;
        }
        let mut k = j;
        while k < n && !is_digit_exec(s[k])
            invariant
                j <= k <= n == s@.len(),
                forall|m: int| j <= m < k ==> !is_digit(#[trigger] s@[m]),
            decreases n - k,
        {
            k = k + 1;
        }
        let ghost t = s@.skip(i as int);
        proof {
            lemma_run_lens_are(t, j - i, k - i);
            assert(j < n ==> t[j - i] == s@[j as int]);
            assert(k < n ==> t[k - i] == s@[k as int]);
            assert(t.take(j - i) =~= s@.subrange(i as int, j as int));
            assert(t.skip(j - i).take(k - j) =~= s@.subrange(j as int, k as int));
            assert(t.skip(j - i).skip(k - j) =~= s@.skip(k as int));
            assert(k > i) by {
                if j == i {
                    assert(!is_digit(s@[i as int]));
                }
            }
        }
        let digits = sub_chars(s, i, j);
        let others = sub_chars(s, j, k);
        proof {
            lemma_chars_deep_view(&digits);
            lemma_chars_deep_view(&others);
        }
        let ghost before = out.deep_view();
        out.push((digits, others));
        assert(out.deep_view() =~= before.push((digits@, others@)));
        i = k;
    }
    assert(s@.skip(n as int) =~= Seq::<char>::empty());
    assert(out.deep_view() =~= upstream_runs(s@));
    out
}

fn is_digit_exec(c: char) -> (r: bool)
    ensures
        r == is_digit(c),
{
    let u = c as u32;
    48 <= u && u <= 57
}

/// Splits a version into its runs: pairs of a run of digits and the run of
/// other characters after it.
pub fn split_in_upstream(version: &str) -> (r: Vec<(String, String)>)
    ensures
        r.deep_view() == upstream_runs(version@),
{
    let chars = chars_of(version);
    let runs = runs_of(&chars);
    let mut out: Vec<(String, String)> = Vec::new();
    let mut i: usize = 0;
    while i < runs.len()
        invariant
            i <= runs@.len(),
            runs.deep_view() == upstream_runs(version@),
            out.deep_view() == runs.deep_view().take(i as int),
        decreases runs@.len() - i,
    {
        let d = string_from_chars(&runs[i].0);
        let t = string_from_chars(&runs[i].1);
        proof {
            lemma_chars_deep_view(&runs@[i as int].0);
            lemma_chars_deep_view(&runs@[i as int].1);
        }
        let ghost before = out.deep_view();
        let ghost before_v = out@;
        out.push((d, t));
        proof {
            assert(before.len() == i);
            assert(before_v.len() == i);
            assert(out@.len() == i + 1);
            assert(out@[i as int].0.deep_view() == d@);
            assert(out.deep_view()[i as int] == runs.deep_view()[i as int]);
            assert forall|m: int| 0 <= m < i implies out.deep_view()[m] == before[m] by {
                assert(out@[m] == before_v[m]);
            }
        }
        assert(out.deep_view() =~= runs.deep_view().take(i + 1));
        i = i + 1;
    }
    assert(runs.deep_view().take(i as int) =~= runs.deep_view());
    out
}


/// The numeric value of a digit.
pub open spec fn digit_value(c: char) -> int {
    c as u32 as int - 48
}

/// The numeric value of a run of digits; the empty run is `0`.
pub open spec fn digits_value(s: Seq<char>) -> int
    decreases s.len(),
{
    if s.len() == 0 {
        0
    } else {
        digits_value(s.drop_last()) * 10 + digit_value(s.last())
    }
}

pub open spec fn pow10(n: nat) -> int
    decreases n,
{
    if n == 0 {
        1
    } else {
        10 * pow10((n - 1) as nat)
    }
}

/// How two runs of digits compare by their numeric value.
pub open spec fn comp_digits_spec(a: Seq<char>, b: Seq<char>) -> i32 {
    sign(digits_value(a) - digits_value(b))
}

/// `s` with zeros in front, `n` characters in all.
pub open spec fn pad_zeros(s: Seq<char>, n: nat) -> Seq<char> {
    Seq::new((n - s.len()) as nat, |i: int| '0') + s
}

proof fn lemma_pow10_pos(n: nat)
    ensures
        pow10(n) >= 1,
    decreases n,
{
    if n > 0 {
        lemma_pow10_pos((n - 1) as nat);
    }
}

proof fn lemma_digits_value_bounds(s: Seq<char>)
    requires
        forall|j: int| 0 <= j < s.len() ==> is_digit(#[trigger] s[j]),
    ensures
        0 <= digits_value(s) < pow10(s.len()),
    decreases s.len(),
{
    if s.len() > 0 {
        let t = s.drop_last();
        assert forall|j: int| 0 <= j < t.len() implies is_digit(#[trigger] t[j]) by {
            assert(t[j] == s[j]);
        }
        lemma_digits_value_bounds(t);
        let v = digits_value(t);
        let d = digit_value(s.last());
        assert(0 <= d <= 9);
        let p = pow10(t.len());
        assert(pow10(s.len()) == 10 * p);
        assert(v * 10 + d < 10 * p) by (nonlinear_arith)
            requires
                v < p,
                d <= 9,
        ;
        assert(v * 10 + d >= 0) by (nonlinear_arith)
            requires
                v >= 0,
                d >= 0,
        ;
    }
}

/// The value of a concatenation of digit runs.
proof fn lemma_digits_value_concat(x: Seq<char>, y: Seq<char>)
    ensures
        digits_value(x + y) == digits_value(x) * pow10(y.len()) + digits_value(y),
    decreases y.len(),
{
    if y.len() == 0 {
        assert(x + y =~= x);
    } else {
        let y2 = y.drop_last();
        assert((x + y).drop_last() =~= x + y2);
        assert((x + y).last() == y.last());
        lemma_digits_value_concat(x, y2);
        let vx = digits_value(x);
        let p = pow10(y2.len());
        let v2 = digits_value(y2);
        let d = digit_value(y.last());
        assert(pow10(y.len()) == 10 * p);
        assert(digits_value(y) == v2 * 10 + d);
        assert(digits_value(x + y) == digits_value(x + y2) * 10 + d);
        assert(digits_value(x + y2) == vx * p + v2);
        assert((vx * p + v2) * 10 + d == vx * (10 * p) + (v2 * 10 + d)) by (nonlinear_arith);
    }
}

proof fn lemma_zeros_value(n: nat)
    ensures
        digits_value(Seq::new(n, |i: int| '0')) == 0,
    decreases n,
{
    if n > 0 {
        let z = Seq::new(n, |i: int| '0');
        assert(z.drop_last() =~= Seq::new((n - 1) as nat, |i: int| '0'));
        lemma_zeros_value((n - 1) as nat);
    }
}

proof fn lemma_pad_value(s: Seq<char>, n: nat)
    requires
        s.len() <= n,
    ensures
        digits_value(pad_zeros(s, n)) == digits_value(s),
        pad_zeros(s, n).len() == n,
{
    let z = Seq::new((n - s.len()) as nat, |i: int| '0');
    lemma_digits_value_concat(z, s);
    lemma_zeros_value((n - s.len()) as nat);
}

proof fn lemma_single_digit_value(c: char)
    ensures
        digits_value(seq![c]) == digit_value(c),
{
    let s = seq![c];
    assert(s.drop_last() =~= Seq::<char>::empty());
    assert(s.last() == c);
    assert(digits_value(s) == digits_value(s.drop_last()) * 10 + digit_value(s.last()));
}

/// Digit runs with the same digit values have the same value.
proof fn lemma_same_digits(a: Seq<char>, b: Seq<char>)
    requires
        a.len() == b.len(),
        forall|j: int| 0 <= j < a.len() ==> digit_value(#[trigger] a[j]) == digit_value(b[j]),
    ensures
        digits_value(a) == digits_value(b),
    decreases a.len(),
{
    if a.len() > 0 {
        let a2 = a.drop_last();
        let b2 = b.drop_last();
        assert forall|j: int| 0 <= j < a2.len() implies digit_value(#[trigger] a2[j])
            == digit_value(b2[j]) by {
            assert(a2[j] == a[j]);
            assert(b2[j] == b[j]);
        }
        lemma_same_digits(a2, b2);
        assert(digit_value(a.last()) == digit_value(b.last()));
    }
}

/// Of two digit runs of one length that agree before position `k`, the
/// one with the smaller digit at `k` has the smaller value.
proof fn lemma_first_difference(a: Seq<char>, b: Seq<char>, k: int)
    requires
        a.len() == b.len(),
        0 <= k < a.len(),
        forall|j: int| 0 <= j < k ==> digit_value(#[trigger] a[j]) == digit_value(b[j]),
        digit_value(a[k]) < digit_value(b[k]),
        forall|j: int| 0 <= j < a.len() ==> is_digit(#[trigger] a[j]),
        forall|j: int| 0 <= j < b.len() ==> is_digit(#[trigger] b[j]),
    ensures
        digits_value(a) < digits_value(b),
{
    let pa = a.take(k);
    let pb = b.take(k);
    assert forall|j: int| 0 <= j < pa.len() implies digit_value(#[trigger] pa[j]) == digit_value(
        pb[j],
    ) by {
        assert(pa[j] == a[j]);
        assert(pb[j] == b[j]);
    }
    lemma_same_digits(pa, pb);
    let ra = a.skip(k + 1);
    let rb = b.skip(k + 1);
    assert(a =~= pa + (seq![a[k]] + ra));
    assert(b =~= pb + (seq![b[k]] + rb));
    lemma_digits_value_concat(pa, seq![a[k]] + ra);
    lemma_digits_value_concat(pb, seq![b[k]] + rb);
    lemma_digits_value_concat(seq![a[k]], ra);
    lemma_digits_value_concat(seq![b[k]], rb);
    lemma_single_digit_value(a[k]);
    lemma_single_digit_value(b[k]);
    assert forall|j: int| 0 <= j < ra.len() implies is_digit(#[trigger] ra[j]) by {
        assert(ra[j] == a[k + 1 + j]);
    }
    assert forall|j: int| 0 <= j < rb.len() implies is_digit(#[trigger] rb[j]) by {
        assert(rb[j] == b[k + 1 + j]);
    }
    lemma_digits_value_bounds(ra);
    lemma_digits_value_bounds(rb);
    let q = pow10(ra.len());
    assert(rb.len() == ra.len());
    let da = digit_value(a[k]);
    let db = digit_value(b[k]);
    let va = digits_value(ra);
    let vb = digits_value(rb);
    assert(da * q + va < db * q + vb) by (nonlinear_arith)
        requires
            da < db,
            0 <= va < q,
            0 <= vb,
    ;
    assert((seq![a[k]] + ra).len() == (seq![b[k]] + rb).len());
}

/// Compares two runs of digits by their numeric value, however long.
pub(crate) fn comp_digits(a: &Vec<char>, b: &Vec<char>) -> (r: i32)
    requires
        forall|j: int| 0 <= j < a@.len() ==> is_digit(#[trigger] a@[j]),
        forall|j: int| 0 <= j < b@.len() ==> is_digit(#[trigger] b@[j]),
    ensures
        r == comp_digits_spec(a@, b@),
{
    let la = a.len();
    let lb = b.len();
    let n = if la > lb {
        la
    } else {
        lb
    };
    let ghost pa = pad_zeros(a@, n as nat);
    let ghost pb = pad_zeros(b@, n as nat);
    proof {
        lemma_pad_value(a@, n as nat);
        lemma_pad_value(b@, n as nat);
        assert forall|j: int| 0 <= j < n implies is_digit(#[trigger] pa[j]) by {
            if j >= n - la {
                assert(pa[j] == a@[j - (n - la)]);
            }
        }
        assert forall|j: int| 0 <= j < n implies is_digit(#[trigger] pb[j]) by {
            if j >= n - lb {
                assert(pb[j] == b@[j - (n - lb)]);
            }
        }
    }
    let mut i: usize = 0;
    while i < n
        invariant
            i <= n,
            la == a@.len(),
            lb == b@.len(),
            n == if la > lb { la } else { lb },
            pa == pad_zeros(a@, n as nat),
            pb == pad_zeros(b@, n as nat),
            pa.len() == n,
            pb.len() == n,
            forall|j: int| 0 <= j < i ==> digit_value(#[trigger] pa[j]) == digit_value(pb[j]),
            forall|j: int| 0 <= j < n ==> is_digit(#[trigger] pa[j]),
            forall|j: int| 0 <= j < n ==> is_digit(#[trigger] pb[j]),
            digits_value(pa) == digits_value(a@),
            digits_value(pb) == digits_value(b@),
        decreases n - i,
    {
        let ca = if i >= n - la {
            a[i - (n - la)]
        } else {
            '0'
        };
        let cb = if i >= n - lb {
            b[i - (n - lb)]
        } else {
            '0'
        };
        assert(ca == pa[i as int]);
        assert(cb == pb[i as int]);
        let ua = ca as u32;
        let ub = cb as u32;
        if ua < ub {
            proof {
                lemma_first_difference(pa, pb, i as int);
            }
            return -1;
        } else if ua > ub {
            proof {
                lemma_first_difference(pb, pa, i as int);
            }
            return 1;
        }
        i = i + 1;
    }
    proof {
        lemma_same_digits(pa, pb);
    }
    0
}

/// The character at `i` of a run, or `None` past its end.
pub open spec fn char_at(s: Seq<char>, i: int) -> Option<char> {
    if 0 <= i < s.len() {
        Some(s[i])
    } else {
        None
    }
}

/// How two non-digit runs compare from position `i` on.
pub open spec fn comp_text_from(a: Seq<char>, b: Seq<char>, i: int) -> i32
    decreases a.len() + b.len() - i,
{
    if i < 0 || (i >= a.len() && i >= b.len()) {
        0
    } else {
        let c = sign(char_weight(char_at(a, i)) - char_weight(char_at(b, i)));
        if c != 0 {
            c
        } else {
            comp_text_from(a, b, i + 1)
        }
    }
}

/// How two non-digit runs compare.
pub open spec fn comp_text_spec(a: Seq<char>, b: Seq<char>) -> i32 {
    comp_text_from(a, b, 0)
}

/// Compares two non-digit runs character by character.
pub(crate) fn comp_text(a: &Vec<char>, b: &Vec<char>) -> (r: i32)
    ensures
        r == comp_text_spec(a@, b@),
{
    let la = a.len();
    let lb = b.len();
    let n = if la > lb {
        la
    } else {
        lb
    };
    let mut i: usize = 0;
    while i < n
        invariant
            i <= n,
            la == a@.len(),
            lb == b@.len(),
            n == if la > lb { la } else { lb },
            comp_text_from(a@, b@, 0) == comp_text_from(a@, b@, i as int),
        decreases n - i,
    {
        let ca = if i < la {
            Some(a[i])
        } else {
            None
        };
        let cb = if i < lb {
            Some(b[i])
        } else {
            None
        };
        let c = comp_version_char(ca, cb);
        if c != 0 {
            return c;
        }
        i = i + 1;
    }
    0
}

/// The runs of a version at `i`, or two empty runs past its end.
pub open spec fn run_at(r: Seq<(Seq<char>, Seq<char>)>, i: int) -> (Seq<char>, Seq<char>) {
    if 0 <= i < r.len() {
        r[i]
    } else {
        (Seq::empty(), Seq::empty())
    }
}

/// How two sequences of runs compare from position `i` on.
pub open spec fn comp_runs_from(
    ra: Seq<(Seq<char>, Seq<char>)>,
    rb: Seq<(Seq<char>, Seq<char>)>,
    i: int,
) -> i32
    decreases ra.len() + rb.len() - i,
{
    if i < 0 || (i >= ra.len() && i >= rb.len()) {
        0
    } else {
        let (da, ta) = run_at(ra, i);
        let (db, tb) = run_at(rb, i);
        let c = comp_digits_spec(da, db);
        if c != 0 {
            c
        } else {
            let c2 = comp_text_spec(ta, tb);
            if c2 != 0 {
                c2
            } else {
                comp_runs_from(ra, rb, i + 1)
            }
        }
    }
}

/// How two versions compare: `1` when `a` is the later version, `-1` when
/// `b` is, `0` when they are equal as versions.
pub open spec fn comp_version_spec(a: Seq<char>, b: Seq<char>) -> i32 {
    comp_runs_from(upstream_runs(a), upstream_runs(b), 0)
}

/// Every run of digits that `upstream_runs` gives is made of digits.
pub proof fn lemma_runs_digits(s: Seq<char>)
    ensures
        forall|i: int, j: int|
            0 <= i < upstream_runs(s).len() && 0 <= j < upstream_runs(s)[i].0.len()
                ==> is_digit(#[trigger] upstream_runs(s)[i].0[j]),
    decreases s.len(),
{
    if s.len() > 0 {
        let d = digit_run_len(s) as int;
        let rest = s.skip(d);
        let n = text_run_len(rest) as int;
        lemma_digit_run_len(s);
        lemma_text_run_len(rest);
        if d + n > 0 {
            lemma_runs_digits(rest.skip(n));
            let r = upstream_runs(s);
            assert forall|i: int, j: int|
                0 <= i < r.len() && 0 <= j < r[i].0.len() implies is_digit(#[trigger] r[i].0[j]) by {
                if i == 0 {
                    assert(r[0].0 == s.take(d));
                    assert(s.take(d)[j] == s[j]);
                } else {
                    assert(r[i] == upstream_runs(rest.skip(n))[i - 1]);
                }
            }
        }
    }
}

/// Compares two version strings: `1` when `a` is the later version, `-1`
/// when `b` is, `0` when they are equal as versions.
pub fn comp_version(a: &str, b: &str) -> (r: i32)
    ensures
        r == comp_version_spec(a@, b@),
{
    let ca = chars_of(a);
    let cb = chars_of(b);
    let ra = runs_of(&ca);
    let rb = runs_of(&cb);
    proof {
        lemma_runs_digits(a@);
        lemma_runs_digits(b@);
    }
    let la = ra.len();
    let lb = rb.len();
    let n = if la > lb {
        la
    } else {
        lb
    };
    let empty: Vec<char> = Vec::new();
    let mut i: usize = 0;
    while i < n
        invariant
            i <= n,
            la == ra@.len(),
            lb == rb@.len(),
            n == if la > lb { la } else { lb },
            ra.deep_view() == upstream_runs(a@),
            rb.deep_view() == upstream_runs(b@),
            empty@ == Seq::<char>::empty(),
            forall|k: int, j: int|
                0 <= k < upstream_runs(a@).len() && 0 <= j < upstream_runs(a@)[k].0.len()
                    ==> is_digit(#[trigger] upstream_runs(a@)[k].0[j]),
            forall|k: int, j: int|
                0 <= k < upstream_runs(b@).len() && 0 <= j < upstream_runs(b@)[k].0.len()
                    ==> is_digit(#[trigger] upstream_runs(b@)[k].0[j]),
            comp_version_spec(a@, b@) == comp_runs_from(
                upstream_runs(a@),
                upstream_runs(b@),
                i as int,
            ),
        decreases n - i,
    {
        let (da, ta) = if i < la {
            (&ra[i].0, &ra[i].1)
        } else {
            (&empty, &empty)
        };
        let (db, tb) = if i < lb {
            (&rb[i].0, &rb[i].1)
        } else {
            (&empty, &empty)
        };
        proof {
            if i < la {
                lemma_chars_deep_view(&ra@[i as int].0);
                lemma_chars_deep_view(&ra@[i as int].1);
                assert(ra.deep_view()[i as int] == (da@, ta@));
            }
            if i < lb {
                lemma_chars_deep_view(&rb@[i as int].0);
                lemma_chars_deep_view(&rb@[i as int].1);
                assert(rb.deep_view()[i as int] == (db@, tb@));
            }
            assert(run_at(upstream_runs(a@), i as int) == (da@, ta@));
            assert(run_at(upstream_runs(b@), i as int) == (db@, tb@));
            assert forall|j: int| 0 <= j < da@.len() implies is_digit(#[trigger] da@[j]) by {
                assert(da@[j] == upstream_runs(a@)[i as int].0[j]);
            }
            assert forall|j: int| 0 <= j < db@.len() implies is_digit(#[trigger] db@[j]) by {
                assert(db@[j] == upstream_runs(b@)[i as int].0[j]);
            }
        }
        let c = comp_digits(da, db);
        if c != 0 {
            return c;
        }
        let c2 = comp_text(ta, tb);
        if c2 != 0 {
            return c2;
        }
        i = i + 1;
    }
    0
}


proof fn lemma_comp_text_from_antisymmetric(a: Seq<char>, b: Seq<char>, i: int)
    ensures
        comp_text_from(a, b, i) == -comp_text_from(b, a, i),
    decreases a.len() + b.len() - i,
{
    if !(i < 0 || (i >= a.len() && i >= b.len())) {
        lemma_comp_text_from_antisymmetric(a, b, i + 1);
    }
}

proof fn lemma_comp_text_from_reflexive(a: Seq<char>, i: int)
    ensures
        comp_text_from(a, a, i) == 0,
    decreases a.len() + a.len() - i,
{
    if !(i < 0 || i >= a.len()) {
        lemma_comp_text_from_reflexive(a, i + 1);
    }
}

proof fn lemma_comp_runs_from_antisymmetric(
    ra: Seq<(Seq<char>, Seq<char>)>,
    rb: Seq<(Seq<char>, Seq<char>)>,
    i: int,
)
    ensures
        comp_runs_from(ra, rb, i) == -comp_runs_from(rb, ra, i),
    decreases ra.len() + rb.len() - i,
{
    if !(i < 0 || (i >= ra.len() && i >= rb.len())) {
        let (da, ta) = run_at(ra, i);
        let (db, tb) = run_at(rb, i);
        lemma_comp_text_from_antisymmetric(ta, tb, 0);
        lemma_comp_runs_from_antisymmetric(ra, rb, i + 1);
    }
}

proof fn lemma_comp_runs_from_reflexive(ra: Seq<(Seq<char>, Seq<char>)>, i: int)
    ensures
        comp_runs_from(ra, ra, i) == 0,
    decreases ra.len() + ra.len() - i,
{
    if !(i < 0 || i >= ra.len()) {
        let (da, ta) = run_at(ra, i);
        lemma_comp_text_from_reflexive(ta, 0);
        lemma_comp_runs_from_reflexive(ra, i + 1);
    }
}

/// Swapping the two characters negates their comparison.
pub proof fn lemma_comp_version_char_antisymmetric(a: Option<char>, b: Option<char>)
    ensures
        sign(char_weight(a) - char_weight(b)) == -sign(char_weight(b) - char_weight(a)),
{
}

/// Swapping the two versions negates their comparison, and a version is
/// equal to itself.
pub proof fn lemma_comp_version_antisymmetric(a: Seq<char>, b: Seq<char>)
    ensures
        comp_version_spec(a, b) == -comp_version_spec(b, a),
        comp_version_spec(a, a) == 0,
{
    lemma_comp_runs_from_antisymmetric(upstream_runs(a), upstream_runs(b), 0);
    lemma_comp_runs_from_reflexive(upstream_runs(a), 0);
}


/// The runs put back together, digits then other characters.
pub open spec fn runs_text(r: Seq<(Seq<char>, Seq<char>)>) -> Seq<char>
    decreases r.len(),
{
    if r.len() == 0 {
        Seq::empty()
    } else {
        r[0].0 + r[0].1 + runs_text(r.drop_first())
    }
}

/// `split_in_upstream` loses nothing: its runs put back together are the
/// version.
pub proof fn lemma_runs_rejoin(s: Seq<char>)
    ensures
        runs_text(upstream_runs(s)) == s,
    decreases s.len(),
{
    if s.len() > 0 {
        let d = digit_run_len(s) as int;
        let rest = s.skip(d);
        let n = text_run_len(rest) as int;
        lemma_digit_run_len(s);
        lemma_text_run_len(rest);
        if d == 0 {
            assert(rest =~= s);
            assert(!is_digit(s[0]));
            assert(n >= 1);
        }
        lemma_runs_rejoin(rest.skip(n));
        let r = upstream_runs(s);
        assert(r.drop_first() =~= upstream_runs(rest.skip(n)));
        assert(s.take(d) + rest.take(n) + rest.skip(n) =~= s);
    }
}


proof fn lemma_weight_nonzero(c: char)
    ensures
        char_weight(Some(c)) != 0,
{
}

/// One step of the comparison of non-digit runs, at any position.
proof fn lemma_comp_text_step(a: Seq<char>, b: Seq<char>, i: int)
    requires
        i >= 0,
    ensures
        comp_text_from(a, b, i) == (if sign(char_weight(char_at(a, i)) - char_weight(char_at(b, i)))
            != 0 {
            sign(char_weight(char_at(a, i)) - char_weight(char_at(b, i)))
        } else {
            comp_text_from(a, b, i + 1)
        }),
{
}

proof fn lemma_comp_text_transitive_from(a: Seq<char>, b: Seq<char>, c: Seq<char>, i: int)
    requires
        i >= 0,
        comp_text_from(a, b, i) >= 0,
        comp_text_from(b, c, i) >= 0,
    ensures
        comp_text_from(a, c, i) >= 0,
        comp_text_from(a, b, i) > 0 || comp_text_from(b, c, i) > 0 ==> comp_text_from(a, c, i) > 0,
    decreases a.len() + b.len() + c.len() - i,
{
    if i >= a.len() && i >= b.len() && i >= c.len() {
    } else {
        lemma_comp_text_step(a, b, i);
        lemma_comp_text_step(b, c, i);
        lemma_comp_text_step(a, c, i);
        let wa = char_weight(char_at(a, i));
        let wb = char_weight(char_at(b, i));
        let wc = char_weight(char_at(c, i));
        if wa == wb && wb == wc {
            lemma_comp_text_transitive_from(a, b, c, i + 1);
        }
    }
}

/// The order of non-digit runs is transitive.
pub proof fn lemma_comp_text_transitive(a: Seq<char>, b: Seq<char>, c: Seq<char>)
    requires
        comp_text_spec(a, b) >= 0,
        comp_text_spec(b, c) >= 0,
    ensures
        comp_text_spec(a, c) >= 0,
        comp_text_spec(a, b) > 0 || comp_text_spec(b, c) > 0 ==> comp_text_spec(a, c) > 0,
{
    lemma_comp_text_transitive_from(a, b, c, 0);
}

/// One step of the comparison of runs, at any position.
proof fn lemma_comp_runs_step(
    ra: Seq<(Seq<char>, Seq<char>)>,
    rb: Seq<(Seq<char>, Seq<char>)>,
    i: int,
)
    requires
        i >= 0,
    ensures
        comp_runs_from(ra, rb, i) == ({
            let (da, ta) = run_at(ra, i);
            let (db, tb) = run_at(rb, i);
            let c = comp_digits_spec(da, db);
            if c != 0 {
                c
            } else {
                let c2 = comp_text_spec(ta, tb);
                if c2 != 0 {
                    c2
                } else {
                    comp_runs_from(ra, rb, i + 1)
                }
            }
        }),
{
    if i >= ra.len() && i >= rb.len() {
        assert(comp_text_from(Seq::<char>::empty(), Seq::<char>::empty(), 0) == 0);
    }
}

proof fn lemma_comp_runs_transitive_from(
    ra: Seq<(Seq<char>, Seq<char>)>,
    rb: Seq<(Seq<char>, Seq<char>)>,
    rc: Seq<(Seq<char>, Seq<char>)>,
    i: int,
)
    requires
        i >= 0,
        comp_runs_from(ra, rb, i) >= 0,
        comp_runs_from(rb, rc, i) >= 0,
    ensures
        comp_runs_from(ra, rc, i) >= 0,
    decreases ra.len() + rb.len() + rc.len() - i,
{
    if i >= ra.len() && i >= rb.len() && i >= rc.len() {
    } else {
        lemma_comp_runs_step(ra, rb, i);
        lemma_comp_runs_step(rb, rc, i);
        lemma_comp_runs_step(ra, rc, i);
        let (da, ta) = run_at(ra, i);
        let (db, tb) = run_at(rb, i);
        let (dc, tc) = run_at(rc, i);
        let va = digits_value(da);
        let vb = digits_value(db);
        let vc = digits_value(dc);
        if va == vb && vb == vc {
            lemma_comp_text_antisymmetric_at(ta, tb);
            lemma_comp_text_antisymmetric_at(tb, tc);
            lemma_comp_text_antisymmetric_at(ta, tc);
            if comp_text_spec(ta, tb) >= 0 && comp_text_spec(tb, tc) >= 0 {
                lemma_comp_text_transitive(ta, tb, tc);
                if comp_text_spec(ta, tb) == 0 && comp_text_spec(tb, tc) == 0 {
                    lemma_comp_runs_transitive_from(ra, rb, rc, i + 1);
                }
            }
        }
    }
}

proof fn lemma_comp_text_antisymmetric_at(a: Seq<char>, b: Seq<char>)
    ensures
        comp_text_spec(a, b) == -comp_text_spec(b, a),
{
    lemma_comp_text_from_antisymmetric(a, b, 0);
}

/// The order of versions is transitive: a version not earlier than a
/// second one, which is not earlier than a third, is not earlier than
/// the third.
pub proof fn lemma_comp_version_transitive(a: Seq<char>, b: Seq<char>, c: Seq<char>)
    requires
        comp_version_spec(a, b) >= 0,
        comp_version_spec(b, c) >= 0,
    ensures
        comp_version_spec(a, c) >= 0,
{
    lemma_comp_runs_transitive_from(upstream_runs(a), upstream_runs(b), upstream_runs(c), 0);
}


/// A version made of digits only is one run: those digits, then nothing.
proof fn lemma_digits_only_runs(a: Seq<char>)
    requires
        a.len() > 0,
        forall|j: int| 0 <= j < a.len() ==> 48 <= (#[trigger] a[j] as u32) <= 57,
    ensures
        upstream_runs(a) == seq![(a, Seq::<char>::empty())],
{
    lemma_run_lens_are(a, a.len() as int, a.len() as int);
    assert(a.take(a.len() as int) =~= a);
    assert(a.skip(a.len() as int) =~= Seq::<char>::empty());
    assert(a.skip(a.len() as int).take(0) =~= Seq::<char>::empty());
    assert(a.skip(a.len() as int).skip(0) =~= Seq::<char>::empty());
    assert(upstream_runs(Seq::<char>::empty()) =~= Seq::<(Seq<char>, Seq<char>)>::empty());
    assert(upstream_runs(a) =~= seq![(a, Seq::<char>::empty())]);
}

proof fn lemma_compare_single_runs(a: Seq<char>, b: Seq<char>)
    requires
        a.len() > 0,
        b.len() > 0,
        forall|j: int| 0 <= j < a.len() ==> 48 <= (#[trigger] a[j] as u32) <= 57,
        forall|j: int| 0 <= j < b.len() ==> 48 <= (#[trigger] b[j] as u32) <= 57,
        digits_value(a) != digits_value(b),
    ensures
        comp_version_spec(a, b) == sign(digits_value(a) - digits_value(b)),
{
    lemma_digits_only_runs(a);
    lemma_digits_only_runs(b);
    let ra = upstream_runs(a);
    let rb = upstream_runs(b);
    assert(run_at(ra, 0) == (a, Seq::<char>::empty()));
    assert(run_at(rb, 0) == (b, Seq::<char>::empty()));
}

/// Versions of digits only, of one length, compare as their first
/// differing digits do: the smaller digit is the earlier version.
pub proof fn lemma_digit_versions_same_length(a: Seq<char>, b: Seq<char>, k: int)
    requires
        a.len() == b.len(),
        0 <= k < a.len(),
        forall|j: int| 0 <= j < a.len() ==> 48 <= (#[trigger] a[j] as u32) <= 57,
        forall|j: int| 0 <= j < b.len() ==> 48 <= (#[trigger] b[j] as u32) <= 57,
        a.take(k) == b.take(k),
        a[k] as u32 != b[k] as u32,
    ensures
        comp_version_spec(a, b) == if (a[k] as u32) < (b[k] as u32) {
            -1i32
        } else {
            1i32
        },
{
    assert forall|j: int| 0 <= j < k implies digit_value(#[trigger] a[j]) == digit_value(b[j]) by {
        assert(a.take(k)[j] == a[j]);
        assert(b.take(k)[j] == b[j]);
    }
    assert forall|j: int| 0 <= j < k implies digit_value(#[trigger] b[j]) == digit_value(a[j]) by {
        assert(a.take(k)[j] == a[j]);
        assert(b.take(k)[j] == b[j]);
    }
    if (a[k] as u32) < (b[k] as u32) {
        lemma_first_difference(a, b, k);
    } else {
        lemma_first_difference(b, a, k);
    }
    lemma_compare_single_runs(a, b);
}

proof fn lemma_pow10_monotone(m: nat, n: nat)
    requires
        m <= n,
    ensures
        pow10(m) <= pow10(n),
    decreases n,
{
    if m < n {
        lemma_pow10_monotone(m, (n - 1) as nat);
        lemma_pow10_pos((n - 1) as nat);
    }
}

/// A run of digits that does not start with `0` is worth at least the
/// smallest number of its length.
proof fn lemma_digits_value_lower(s: Seq<char>)
    requires
        s.len() > 0,
        s[0] as u32 != 48,
        forall|j: int| 0 <= j < s.len() ==> is_digit(#[trigger] s[j]),
    ensures
        digits_value(s) >= pow10((s.len() - 1) as nat),
{
    let r = s.drop_first();
    assert(s =~= seq![s[0]] + r);
    lemma_digits_value_concat(seq![s[0]], r);
    lemma_single_digit_value(s[0]);
    assert forall|j: int| 0 <= j < r.len() implies is_digit(#[trigger] r[j]) by {
        assert(r[j] == s[j + 1]);
    }
    lemma_digits_value_bounds(r);
    let d = digit_value(s[0]);
    let q = pow10(r.len());
    assert(d * q >= q) by (nonlinear_arith)
        requires
            d >= 1,
            q >= 0,
    ;
}

/// Versions of digits only that do not start with `0` (code point 48)
/// compare by length first: the longer number is the later version.
pub proof fn lemma_digit_versions_longer(a: Seq<char>, b: Seq<char>)
    requires
        0 < a.len() < b.len(),
        a[0] as u32 != 48,
        b[0] as u32 != 48,
        forall|j: int| 0 <= j < a.len() ==> 48 <= (#[trigger] a[j] as u32) <= 57,
        forall|j: int| 0 <= j < b.len() ==> 48 <= (#[trigger] b[j] as u32) <= 57,
    ensures
        comp_version_spec(a, b) == -1,
{
    lemma_digits_value_bounds(a);
    lemma_digits_value_lower(b);
    lemma_pow10_monotone(a.len(), (b.len() - 1) as nat);
    lemma_compare_single_runs(a, b);
}

/// The order of the characters of non-digit runs: `~` before everything,
/// even the end of the run; the end before every other character; letters
/// before the other characters; and among letters, as among the other
/// characters, the order of their code points.
pub proof fn lemma_char_order(x: char, y: char)
    ensures
        ({
            let ux = x as u32;
            let uy = y as u32;
            let lx = (65 <= ux <= 90) || (97 <= ux <= 122);
            let ly = (65 <= uy <= 90) || (97 <= uy <= 122);
            let r = sign(char_weight(Some(x)) - char_weight(Some(y)));
            &&& lx && ly ==> r == sign(ux - uy)
            &&& !lx && !ly && x != '~' && y != '~' ==> r == sign(ux - uy)
            &&& lx && !ly && y != '~' ==> r == -1
            &&& x == '~' && y != '~' ==> r == -1
        }),
        x == '~' ==> sign(char_weight(Some(x)) - char_weight(None)) == -1,
        x != '~' ==> sign(char_weight(Some(x)) - char_weight(None)) == 1,
{
}


/// The runs of a text that ends in a non-digit, followed by digits, are
/// the runs of the text, then the one run of the digits.
proof fn lemma_runs_append_digits(t: Seq<char>, a: Seq<char>)
    requires
        t.len() == 0 || !is_digit(t.last()),
        forall|j: int| 0 <= j < a.len() ==> is_digit(#[trigger] a[j]),
    ensures
        upstream_runs(t + a) == upstream_runs(t) + upstream_runs(a),
    decreases t.len(),
{
    if t.len() == 0 {
        assert(t + a =~= a);
        assert(upstream_runs(t) =~= Seq::<(Seq<char>, Seq<char>)>::empty());
        assert(upstream_runs(t) + upstream_runs(a) =~= upstream_runs(a));
    } else {
        let s = t + a;
        lemma_digit_run_len(t);
        let d = digit_run_len(t) as int;
        if d == t.len() {
            assert(is_digit(t[t.len() - 1]));
        }
        let rest_t = t.skip(d);
        lemma_text_run_len(rest_t);
        let n = text_run_len(rest_t) as int;
        assert forall|j: int| 0 <= j < d implies is_digit(#[trigger] s[j]) by {
            assert(s[j] == t[j]);
        }
        assert(s[d] == t[d]);
        assert forall|j: int| d <= j < d + n implies !is_digit(#[trigger] s[j]) by {
            assert(s[j] == t[j]);
            assert(rest_t[j - d] == t[j]);
        }
        assert(d + n < s.len() ==> is_digit(s[d + n])) by {
            if d + n < t.len() {
                assert(rest_t[n] == t[d + n]);
                assert(s[d + n] == t[d + n]);
            } else if d + n < s.len() {
                assert(s[d + n] == a[d + n - t.len()]);
            }
        }
        lemma_run_lens_are(s, d, d + n);
        let rest_s = s.skip(d);
        assert(s.take(d) =~= t.take(d));
        assert(rest_s.take(n) =~= rest_t.take(n));
        assert(n >= 1) by {
            assert(!is_digit(t[d]));
            assert(rest_t[0] == t[d]);
        }
        let t2 = rest_t.skip(n);
        assert(rest_s.skip(n) =~= t2 + a);
        if t2.len() > 0 {
            assert(t2.last() == t.last());
        }
        lemma_runs_append_digits(t2, a);
        assert(upstream_runs(s) =~= upstream_runs(t) + upstream_runs(a));
    }
}

proof fn lemma_comp_runs_offset(
    p: Seq<(Seq<char>, Seq<char>)>,
    x: Seq<(Seq<char>, Seq<char>)>,
    y: Seq<(Seq<char>, Seq<char>)>,
    j: int,
)
    requires
        j >= 0,
    ensures
        comp_runs_from(p + x, p + y, p.len() + j) == comp_runs_from(x, y, j),
    decreases x.len() + y.len() - j,
{
    if !(j >= x.len() && j >= y.len()) {
        assert(run_at(p + x, p.len() + j) == run_at(x, j));
        assert(run_at(p + y, p.len() + j) == run_at(y, j));
        lemma_comp_runs_offset(p, x, y, j + 1);
    }
}

proof fn lemma_comp_runs_common(
    p: Seq<(Seq<char>, Seq<char>)>,
    x: Seq<(Seq<char>, Seq<char>)>,
    y: Seq<(Seq<char>, Seq<char>)>,
    i: int,
)
    requires
        0 <= i <= p.len(),
    ensures
        comp_runs_from(p + x, p + y, i) == comp_runs_from(x, y, 0),
    decreases p.len() - i,
{
    if i == p.len() {
        lemma_comp_runs_offset(p, x, y, 0);
    } else {
        assert(run_at(p + x, i) == p[i]);
        assert(run_at(p + y, i) == p[i]);
        lemma_comp_text_from_reflexive(p[i].1, 0);
        lemma_comp_runs_common(p, x, y, i + 1);
    }
}

/// Two versions that differ only in a last run of digits, after the same
/// text ending in a non-digit (such as `1.8` and `1.9`), compare as those
/// digit runs do.
pub proof fn lemma_version_common_prefix(t: Seq<char>, a: Seq<char>, b: Seq<char>)
    requires
        t.len() == 0 || !is_digit(t.last()),
        forall|j: int| 0 <= j < a.len() ==> is_digit(#[trigger] a[j]),
        forall|j: int| 0 <= j < b.len() ==> is_digit(#[trigger] b[j]),
    ensures
        comp_version_spec(t + a, t + b) == comp_version_spec(a, b),
{
    lemma_runs_append_digits(t, a);
    lemma_runs_append_digits(t, b);
    lemma_comp_runs_common(upstream_runs(t), upstream_runs(a), upstream_runs(b), 0);
}


/// The runs of `split_in_upstream` are as long as they can be: each is a
/// run of digits and a run of non-digits; every run but the last has
/// non-digits, and every run but the first has digits, so that no two
/// neighbouring runs could be joined.
pub proof fn lemma_runs_shape(s: Seq<char>)
    ensures
        forall|i: int, j: int|
            0 <= i < upstream_runs(s).len() && 0 <= j < upstream_runs(s)[i].0.len() ==> is_digit(
                #[trigger] upstream_runs(s)[i].0[j],
            ),
        forall|i: int, j: int|
            0 <= i < upstream_runs(s).len() && 0 <= j < upstream_runs(s)[i].1.len() ==> !is_digit(
                #[trigger] upstream_runs(s)[i].1[j],
            ),
        forall|i: int|
            0 <= i < upstream_runs(s).len() - 1 ==> (#[trigger] upstream_runs(s)[i]).1.len() > 0,
        forall|i: int| 0 < i < upstream_runs(s).len() ==> (#[trigger] upstream_runs(s)[i]).0.len() > 0,
    decreases s.len(),
{
    lemma_runs_digits(s);
    if s.len() > 0 {
        let d = digit_run_len(s) as int;
        let rest = s.skip(d);
        let n = text_run_len(rest) as int;
        lemma_digit_run_len(s);
        lemma_text_run_len(rest);
        if d + n > 0 {
            let tail = rest.skip(n);
            lemma_runs_shape(tail);
            let r = upstream_runs(s);
            let rt = upstream_runs(tail);
            assert(r == seq![(s.take(d), rest.take(n))] + rt);
            assert forall|i: int, j: int|
                0 <= i < r.len() && 0 <= j < r[i].1.len() implies !is_digit(#[trigger] r[i].1[j]) by {
                if i == 0 {
                    assert(r[0].1[j] == rest[j]);
                } else {
                    assert(r[i] == rt[i - 1]);
                }
            }
            if tail.len() > 0 {
                assert(is_digit(tail[0])) by {
                    assert(tail[0] == rest[n]);
                }
                assert(n > 0) by {
                    if n == 0 {
                        assert(rest[0] == s[d]);
                    }
                }
                lemma_digit_run_len(tail);
                assert(digit_run_len(tail) > 0) by {
                    reveal_with_fuel(digit_run_len, 2);
                }
                assert(rt.len() > 0);
                assert(rt[0].0 == tail.take(digit_run_len(tail) as int));
            } else {
                assert(rt.len() == 0);
            }
            assert forall|i: int| 0 <= i < r.len() - 1 implies (#[trigger] r[i]).1.len() > 0 by {
                if i > 0 {
                    assert(r[i] == rt[i - 1]);
                }
            }
            assert forall|i: int| 0 < i < r.len() implies (#[trigger] r[i]).0.len() > 0 by {
                assert(r[i] == rt[i - 1]);
            }
        }
    }
}


proof fn lemma_text_only_runs(a: Seq<char>)
    requires
        forall|j: int| 0 <= j < a.len() ==> !is_digit(#[trigger] a[j]),
    ensures
        run_at(upstream_runs(a), 0) == (Seq::<char>::empty(), a),
        upstream_runs(a).len() <= 1,
{
    if a.len() > 0 {
        lemma_run_lens_are(a, 0, a.len() as int);
        assert(a.take(0) =~= Seq::<char>::empty());
        assert(a.skip(0) =~= a);
        assert(a.skip(0).take(a.len() as int) =~= a);
        assert(a.skip(0).skip(a.len() as int) =~= Seq::<char>::empty());
        assert(upstream_runs(Seq::<char>::empty()).len() == 0);
        assert(upstream_runs(a) =~= seq![(Seq::<char>::empty(), a)]);
    }
}

proof fn lemma_comp_text_prefix(a: Seq<char>, b: Seq<char>, i: int, k: int)
    requires
        0 <= i <= k,
        k <= a.len(),
        k <= b.len(),
        a.take(k) == b.take(k),
    ensures
        comp_text_from(a, b, i) == comp_text_from(a, b, k),
    decreases k - i,
{
    if i < k {
        assert(a.take(k)[i] == a[i]);
        assert(b.take(k)[i] == b[i]);
        lemma_comp_text_prefix(a, b, i + 1, k);
    }
}

/// Versions without digits compare at their first difference: as the
/// character of each at that place, or the end of one of them, compare
/// (see `lemma_char_order`).
pub proof fn lemma_text_versions(a: Seq<char>, b: Seq<char>, k: int)
    requires
        forall|j: int| 0 <= j < a.len() ==> !is_digit(#[trigger] a[j]),
        forall|j: int| 0 <= j < b.len() ==> !is_digit(#[trigger] b[j]),
        0 <= k <= a.len(),
        k <= b.len(),
        a.take(k) == b.take(k),
        char_weight(char_at(a, k)) != char_weight(char_at(b, k)),
    ensures
        comp_version_spec(a, b) == sign(char_weight(char_at(a, k)) - char_weight(char_at(b, k))),
{
    lemma_text_only_runs(a);
    lemma_text_only_runs(b);
    let ra = upstream_runs(a);
    let rb = upstream_runs(b);
    assert(!(0 >= ra.len() && 0 >= rb.len()));
    assert(comp_digits_spec(Seq::<char>::empty(), Seq::<char>::empty()) == 0);
    lemma_comp_text_prefix(a, b, 0, k);
    assert(comp_runs_from(ra, rb, 0) == comp_text_spec(a, b));
}

} // verus!

//! Picking one record per package name.
use crate::package::{PackageView, SourcePackage};
use crate::row::views_of;
use crate::text::chars_of;
use crate::version::{
    comp_version, comp_version_spec, lemma_comp_version_antisymmetric, lemma_comp_version_transitive,
};
use std::collections::HashMap;
use vstd::prelude::*;

verus! {

/// Of two records, the one to keep: the one of higher priority; between
/// equal priorities the one of the later version; between equal versions
/// too, the first.
pub open spec fn choose_spec(a: PackageView, b: PackageView) -> PackageView {
    if a.priority.rank() > b.priority.rank() {
        a
    } else if a.priority.rank() < b.priority.rank() {
        b
    } else if comp_version_spec(a.version, b.version) < 0 {
        b
    } else {
        a
    }
}

/// Of two records of a package, the one to keep (see `choose_spec`).
pub fn choose_package(p1: &SourcePackage, p2: &SourcePackage) -> (r: SourcePackage)
    ensures
        r@ == choose_spec(p1@, p2@),
{
    if p1.priority > p2.priority {
        p1.duplicate()
    } else if p1.priority < p2.priority {
        p2.duplicate()
    } else {
        let cmp_res = comp_version(p1.version.as_str(), p2.version.as_str());
        if cmp_res > 0 {
            p1.duplicate()
        } else if cmp_res < 0 {
            p2.duplicate()
        } else {
            p1.duplicate()
        }
    }
}

/// The position of the first record of `r` named `name`.
pub open spec fn index_of_name(r: Seq<PackageView>, name: Seq<char>) -> Option<int>
    decreases r.len(),
{
    if r.len() == 0 {
        None
    } else {
        match index_of_name(r.drop_last(), name) {
            Some(j) => Some(j),
            None => if r.last().package == name {
                Some(r.len() - 1)
            } else {
                None
            },
        }
    }
}

/// The records of `s` with one record per name: names in the order they
/// first occur, each with the record that `choose_spec` keeps when the
/// records of that name are taken in turn, each later one against the one
/// kept so far.
pub open spec fn resolve_spec(s: Seq<PackageView>) -> Seq<PackageView>
    decreases s.len(),
{
    if s.len() == 0 {
        Seq::empty()
    } else {
        let prev = resolve_spec(s.drop_last());
        let item = s.last();
        match index_of_name(prev, item.package) {
            Some(j) => prev.update(j, choose_spec(item, prev[j])),
            None => prev.push(item),
        }
    }
}

/// No two records have the same name.
pub open spec fn names_unique(r: Seq<PackageView>) -> bool {
    forall|i: int, j: int| 0 <= i < j < r.len() ==> #[trigger] r[i].package != #[trigger] r[j].package
}

/// The bucket number of a name.
pub open spec fn name_hash(s: Seq<char>) -> u64
    decreases s.len(),
{
    if s.len() == 0 {
        0
    } else {
        ((name_hash(s.drop_last()) as int * 31 + (s.last() as u32) as int) % 1000000007) as u64
    }
}

fn name_hash_exec(s: &String) -> (r: u64)
    ensures
        r == name_hash(s@),
{
    let c = chars_of(s.as_str());
    let mut h: u64 = 0;
    let mut i: usize = 0;
    assert(c@.take(0) =~= Seq::<char>::empty());
    while i < c.len()
        invariant
            i <= c@.len(),
            c@ == s@,
            h == name_hash(c@.take(i as int)),
            h < 1000000007,
        decreases c@.len() - i,
    {
        assert(c@.take(i + 1).drop_last() =~= c@.take(i as int));
        h = (h * 31 + (c[i] as u32) as u64) % 1000000007;
        i = i + 1;
    }
    assert(c@.take(i as int) =~= c@);
    h
}

proof fn lemma_name_hash_bound(s: Seq<char>)
    ensures
        name_hash(s) < 1000000007,
    decreases s.len(),
{
    if s.len() > 0 {
        lemma_name_hash_bound(s.drop_last());
    }
}

/// With unique names, the record named `name` is the one at `j`.
proof fn lemma_index_of_unique(r: Seq<PackageView>, name: Seq<char>)
    requires
        names_unique(r),
    ensures
        match index_of_name(r, name) {
            Some(j) => 0 <= j < r.len() && r[j].package == name,
            None => forall|j: int| 0 <= j < r.len() ==> #[trigger] r[j].package != name,
        },
    decreases r.len(),
{
    if r.len() > 0 {
        let r2 = r.drop_last();
        assert(names_unique(r2)) by {
            assert forall|a: int, b: int| 0 <= a < b < r2.len() implies #[trigger] r2[a].package
                != #[trigger] r2[b].package by {
                assert(r2[a] == r[a]);
                assert(r2[b] == r[b]);
            }
        }
        lemma_index_of_unique(r2, name);
        match index_of_name(r2, name) {
            Some(j) => {
                assert(r2[j] == r[j]);
            },
            None => {
                assert forall|j: int| 0 <= j < r.len() - 1 implies #[trigger] r[j].package
                    != name by {
                    assert(r2[j] == r[j]);
                }
            },
        }
    }
}

proof fn lemma_index_is(r: Seq<PackageView>, name: Seq<char>, j: int)
    requires
        names_unique(r),
        0 <= j < r.len(),
        r[j].package == name,
    ensures
        index_of_name(r, name) == Some(j),
{
    lemma_index_of_unique(r, name);
    match index_of_name(r, name) {
        Some(k) => {
            if k != j {
                if k < j {
                    assert(r[k].package != r[j].package);
                } else {
                    assert(r[j].package != r[k].package);
                }
            }
        },
        None => {
            assert(r[j].package != name);
        },
    }
}

/// The buckets hold, for each bucket number, the positions of the records
/// whose names fall in it, and every record is in its bucket.
pub open spec fn buckets_ok(b: Map<u64, Vec<usize>>, out: Seq<PackageView>) -> bool {
    &&& forall|h: u64, m: int|
        b.contains_key(h) && 0 <= m < b[h]@.len() ==> {
            &&& (#[trigger] b[h]@[m]) < out.len()
            &&& name_hash(out[b[h]@[m] as int].package) == h
        }
    &&& forall|j: int|
        0 <= j < out.len() ==> b.contains_key(name_hash(#[trigger] out[j].package)) && b[name_hash(
            out[j].package,
        )]@.contains(j as usize)
}

/// The position in `out` of the record named `name`, if any.
fn find_named(buckets: &HashMap<u64, Vec<usize>>, out: &Vec<SourcePackage>, name: &String) -> (r:
    Option<usize>)
    requires
        buckets_ok(buckets@, views_of(out@)),
        names_unique(views_of(out@)),
    ensures
        r == match index_of_name(views_of(out@), name@) {
            Some(j) => Some(j as usize),
            None => None::<usize>,
        },
{
    broadcast use vstd::std_specs::hash::group_hash_axioms;

    let ghost v = views_of(out@);
    let out_len = out.len();
    assert(v.len() == out_len);
    let h = name_hash_exec(name);
    proof {
        lemma_index_of_unique(v, name@);
    }
    match buckets.get(&h) {
        None => {
            proof {
                match index_of_name(v, name@) {
                    Some(j) => {
                        assert(v[j].package == name@);
                        assert(buckets@.contains_key(name_hash(v[j].package)));
                    },
                    None => {},
                }
            }
            None
        },
        Some(bucket) => {
            let mut m: usize = 0;
            while m < bucket.len()
                invariant
                    buckets@.contains_key(h),
                    buckets@[h] == *bucket,
                    h == name_hash(name@),
                    v == views_of(out@),
                    v.len() == out_len,
                    buckets_ok(buckets@, v),
                    names_unique(v),
                    m <= bucket@.len(),
                    forall|k: int| 0 <= k < m ==> v[#[trigger] bucket@[k] as int].package != name@,
                decreases bucket@.len() - m,
            {
                let j = bucket[m];
                assert(j < out@.len());
                assert(out@[j as int]@ == v[j as int]);
                if out[j].package == *name {
                    proof {
                        lemma_index_is(v, name@, j as int);
                    }
                    return Some(j);
                }
                m = m + 1;
            }
            proof {
                match index_of_name(v, name@) {
                    Some(j) => {
                        assert(v[j].package == name@);
                        assert(bucket@.contains(j as usize));
                        let k = choose|k: int| 0 <= k < bucket@.len() && bucket@[k] == j as usize;
                        assert(v[bucket@[k] as int].package != name@);
                    },
                    None => {},
                }
            }
            None
        },
    }
}

/// Keeps one record per package name (see `resolve_spec`): the names in
/// the order they first occur, each with the record that `choose_package`
/// keeps among the records of that name.
pub fn resolve_duplication(sources: &Vec<SourcePackage>) -> (r: Result<Vec<SourcePackage>, String>)
    ensures
        r matches Ok(v) && views_of(v@) == resolve_spec(views_of(sources@)),
{
    broadcast use vstd::std_specs::hash::group_hash_axioms;

    let ghost s = views_of(sources@);
    let mut out: Vec<SourcePackage> = Vec::new();
    let mut buckets: HashMap<u64, Vec<usize>> = HashMap::new();
    let n = sources.len();
    let mut i: usize = 0;
    proof {
        assert(views_of(out@) =~= Seq::<PackageView>::empty());
        assert(s.take(0) =~= Seq::<PackageView>::empty());
    }
    while i < n
        invariant
            n == sources@.len(),
            s == views_of(sources@),
            i <= n,
            views_of(out@) == resolve_spec(s.take(i as int)),
            names_unique(views_of(out@)),
            buckets_ok(buckets@, views_of(out@)),
            out@.len() <= i,
        decreases n - i,
    {
        let ghost before = views_of(out@);
        let item = &sources[i];
        proof {
            assert(s.take(i + 1).drop_last() =~= s.take(i as int));
            assert(s.take(i + 1).last() == item@);
        }
        match find_named(&buckets, &out, &item.package) {
            Some(j) => {
                proof {
                    lemma_index_of_unique(before, item@.package);
                }
                let chosen = choose_package(item, &out[j]);
                out.set(j, chosen);
                proof {
                    assert(views_of(out@) =~= before.update(j as int, choose_spec(item@, before[j as int])));
                    let after = views_of(out@);
                    assert(after[j as int].package == before[j as int].package);
                    assert forall|a: int, b: int| 0 <= a < b < after.len() implies #[trigger] after[a].package
                        != #[trigger] after[b].package by {
                        assert(before[a].package != before[b].package);
                    }
                    assert forall|h: u64, m: int|
                        buckets@.contains_key(h) && 0 <= m < buckets@[h]@.len() implies {
                            &&& (#[trigger] buckets@[h]@[m]) < after.len()
                            &&& name_hash(after[buckets@[h]@[m] as int].package) == h
                        } by {
                        let k = buckets@[h]@[m] as int;
                        assert(after[k].package == before[k].package);
                    }
                    assert forall|a: int| 0 <= a < after.len() implies buckets@.contains_key(
                        name_hash(#[trigger] after[a].package),
                    ) && buckets@[name_hash(after[a].package)]@.contains(a as usize) by {
                        assert(after[a].package == before[a].package);
                    }
                }
            },
            None => {
                let h = name_hash_exec(&item.package);
                let idx = out.len();
                let copy = item.duplicate();
                out.push(copy);
                let mut bucket = match buckets.remove(&h) {
                    Some(b) => b,
                    None => Vec::new(),
                };
                let ghost old_bucket = bucket@;
                bucket.push(idx);
                let ghost old_map = buckets@;
                buckets.insert(h, bucket);
                proof {
                    let after = views_of(out@);
                    assert(after =~= before.push(item@));
                    lemma_index_of_unique(before, item@.package);
                    assert forall|a: int, b: int| 0 <= a < b < after.len() implies #[trigger] after[a].package
                        != #[trigger] after[b].package by {
                        if b < before.len() {
                            assert(before[a].package != before[b].package);
                        } else {
                            assert(before[a].package != item@.package);
                        }
                    }
                    assert forall|hh: u64, m: int|
                        buckets@.contains_key(hh) && 0 <= m < buckets@[hh]@.len() implies {
                            &&& (#[trigger] buckets@[hh]@[m]) < after.len()
                            &&& name_hash(after[buckets@[hh]@[m] as int].package) == hh
                        } by {
                        if hh == h {
                            if m < old_bucket.len() {
                                let k = old_bucket[m] as int;
                                assert(buckets@[hh]@[m] == old_bucket[m]);
                            } else {
                                assert(buckets@[hh]@[m] == idx);
                            }
                        } else {
                            assert(buckets@[hh] == old_map[hh]);
                        }
                    }
                    assert forall|a: int| 0 <= a < after.len() implies buckets@.contains_key(
                        name_hash(#[trigger] after[a].package),
                    ) && buckets@[name_hash(after[a].package)]@.contains(a as usize) by {
                        if a < before.len() {
                            assert(after[a] == before[a]);
                            let ha = name_hash(before[a].package);
                            if ha == h {
                                let k = choose|k: int| 0 <= k < old_bucket.len() && old_bucket[k] == a as usize;
                                assert(buckets@[h]@[k] == a as usize);
                            } else {
                                assert(buckets@[ha] == old_map[ha]);
                            }
                        } else {
                            assert(buckets@[h]@[old_bucket.len() as int] == idx);
                        }
                    }
                }
            },
        }
        i = i + 1;
    }
    assert(s.take(n as int) =~= s);
    Ok(out)
}


/// `choose_package` keeps one of its two records, one whose priority is
/// not below the other's, and between equal priorities one whose version
/// is not earlier.  Swapping the records changes the choice only when
/// both priority and version are equal.
pub proof fn lemma_choose_law(a: PackageView, b: PackageView)
    ensures
        choose_spec(a, b) == a || choose_spec(a, b) == b,
        choose_spec(a, b).priority.rank() >= a.priority.rank(),
        choose_spec(a, b).priority.rank() >= b.priority.rank(),
        a.priority.rank() == b.priority.rank() ==> comp_version_spec(
            choose_spec(a, b).version,
            a.version,
        ) >= 0 && comp_version_spec(choose_spec(a, b).version, b.version) >= 0,
        !(a.priority.rank() == b.priority.rank() && comp_version_spec(a.version, b.version) == 0)
            ==> choose_spec(a, b) == choose_spec(b, a),
{
    lemma_comp_version_antisymmetric(a.version, b.version);
    lemma_comp_version_antisymmetric(b.version, a.version);
}

proof fn lemma_resolve_invariants(s: Seq<PackageView>)
    ensures
        names_unique(resolve_spec(s)),
        resolve_spec(s).len() <= s.len(),
        forall|j: int|
            0 <= j < resolve_spec(s).len() ==> exists|i: int|
                0 <= i < s.len() && #[trigger] resolve_spec(s)[j] == s[i],
        forall|i: int|
            0 <= i < s.len() ==> (#[trigger] index_of_name(resolve_spec(s), s[i].package)) is Some,
        forall|i: int|
            0 <= i < s.len() ==> #[trigger] resolve_spec(s)[index_of_name(
                resolve_spec(s),
                s[i].package,
            )->0].priority.rank() >= s[i].priority.rank(),
    decreases s.len(),
{
    if s.len() > 0 {
        let s2 = s.drop_last();
        lemma_resolve_invariants(s2);
        let prev = resolve_spec(s2);
        let item = s.last();
        let r = resolve_spec(s);
        lemma_index_of_unique(prev, item.package);
        match index_of_name(prev, item.package) {
            Some(j) => {
                lemma_choose_law(item, prev[j]);
                assert(r == prev.update(j, choose_spec(item, prev[j])));
                assert forall|a: int, b: int| 0 <= a < b < r.len() implies #[trigger] r[a].package
                    != #[trigger] r[b].package by {
                    assert(prev[a].package != prev[b].package);
                }
                assert forall|k: int| 0 <= k < r.len() implies exists|i: int|
                    0 <= i < s.len() && #[trigger] r[k] == s[i] by {
                    if k == j {
                        if r[k] == item {
                            assert(r[k] == s[s.len() - 1]);
                        } else {
                            let i = choose|i: int| 0 <= i < s2.len() && prev[k] == s2[i];
                            assert(r[k] == s[i]);
                        }
                    } else {
                        let i = choose|i: int| 0 <= i < s2.len() && prev[k] == s2[i];
                        assert(r[k] == s[i]);
                    }
                }
                assert forall|i: int| 0 <= i < s.len() implies (#[trigger] index_of_name(
                    r,
                    s[i].package,
                )) is Some && r[index_of_name(r, s[i].package)->0].priority.rank()
                    >= s[i].priority.rank() by {
                    if i == s.len() - 1 {
                        lemma_index_is(r, item.package, j);
                    } else {
                        assert(s[i] == s2[i]);
                        assert(index_of_name(prev, s2[i].package) is Some);
                        let k = index_of_name(prev, s2[i].package)->0;
                        lemma_index_of_unique(prev, s2[i].package);
                        lemma_index_is(r, s2[i].package, k);
                    }
                }
            },
            None => {
                assert(r == prev.push(item));
                assert forall|a: int, b: int| 0 <= a < b < r.len() implies #[trigger] r[a].package
                    != #[trigger] r[b].package by {
                    if b < prev.len() {
                        assert(prev[a].package != prev[b].package);
                    } else {
                        assert(prev[a].package != item.package);
                    }
                }
                assert forall|k: int| 0 <= k < r.len() implies exists|i: int|
                    0 <= i < s.len() && #[trigger] r[k] == s[i] by {
                    if k == prev.len() {
                        assert(r[k] == s[s.len() - 1]);
                    } else {
                        let i = choose|i: int| 0 <= i < s2.len() && prev[k] == s2[i];
                        assert(r[k] == s[i]);
                    }
                }
                assert forall|i: int| 0 <= i < s.len() implies (#[trigger] index_of_name(
                    r,
                    s[i].package,
                )) is Some && r[index_of_name(r, s[i].package)->0].priority.rank()
                    >= s[i].priority.rank() by {
                    if i == s.len() - 1 {
                        lemma_index_is(r, item.package, prev.len() as int);
                    } else {
                        assert(s[i] == s2[i]);
                        let k = index_of_name(prev, s2[i].package)->0;
                        lemma_index_of_unique(prev, s2[i].package);
                        lemma_index_is(r, s2[i].package, k);
                    }
                }
            },
        }
    }
}

/// After `resolve_duplication` no two records share a name; every name of
/// the input is still there, with a record of that name from the input
/// whose priority is not below that of any input record of the name; and
/// every record of the result is a record of the input.
pub proof fn lemma_resolve_law(s: Seq<PackageView>)
    ensures
        names_unique(resolve_spec(s)),
        resolve_spec(s).len() <= s.len(),
        forall|j: int|
            0 <= j < resolve_spec(s).len() ==> exists|i: int|
                0 <= i < s.len() && #[trigger] resolve_spec(s)[j] == s[i],
        forall|i: int|
            0 <= i < s.len() ==> exists|j: int|
                0 <= j < resolve_spec(s).len() && #[trigger] resolve_spec(s)[j].package
                    == s[i].package && resolve_spec(s)[j].priority.rank()
                    >= #[trigger] s[i].priority.rank(),
{
    lemma_resolve_invariants(s);
    let r = resolve_spec(s);
    assert forall|i: int| 0 <= i < s.len() implies exists|j: int|
        0 <= j < r.len() && #[trigger] r[j].package == s[i].package && r[j].priority.rank()
            >= #[trigger] s[i].priority.rank() by {
        assert(index_of_name(r, s[i].package) is Some);
        lemma_index_of_unique(r, s[i].package);
        let j = index_of_name(r, s[i].package)->0;
        assert(r[j].package == s[i].package);
    }
}

/// A list whose names are all different comes out of
/// `resolve_duplication` unchanged.
pub proof fn lemma_resolve_unique_unchanged(s: Seq<PackageView>)
    requires
        names_unique(s),
    ensures
        resolve_spec(s) == s,
    decreases s.len(),
{
    if s.len() > 0 {
        let s2 = s.drop_last();
        assert(names_unique(s2)) by {
            assert forall|a: int, b: int| 0 <= a < b < s2.len() implies #[trigger] s2[a].package
                != #[trigger] s2[b].package by {
                assert(s2[a] == s[a]);
                assert(s2[b] == s[b]);
            }
        }
        lemma_resolve_unique_unchanged(s2);
        lemma_index_of_unique(s2, s.last().package);
        match index_of_name(s2, s.last().package) {
            Some(j) => {
                assert(s[j] == s2[j]);
                assert(s[j].package != s[s.len() - 1].package);
            },
            None => {
                assert(s2.push(s.last()) =~= s);
            },
        }
    }
}


/// `x` is at least as good as `y`: of higher priority, or of the same
/// priority and a version that is not earlier.
pub open spec fn dominates(x: PackageView, y: PackageView) -> bool {
    ||| x.priority.rank() > y.priority.rank()
    ||| x.priority.rank() == y.priority.rank() && comp_version_spec(x.version, y.version) >= 0
}

proof fn lemma_dominates_transitive(x: PackageView, y: PackageView, z: PackageView)
    requires
        dominates(x, y),
        dominates(y, z),
    ensures
        dominates(x, z),
{
    if x.priority.rank() == y.priority.rank() && y.priority.rank() == z.priority.rank() {
        lemma_comp_version_transitive(x.version, y.version, z.version);
    }
}

proof fn lemma_choose_dominates(a: PackageView, b: PackageView)
    ensures
        dominates(choose_spec(a, b), a),
        dominates(choose_spec(a, b), b),
{
    lemma_comp_version_antisymmetric(a.version, b.version);
    lemma_comp_version_antisymmetric(b.version, a.version);
}

proof fn lemma_resolve_dominates(s: Seq<PackageView>)
    ensures
        forall|i: int|
            0 <= i < s.len() ==> dominates(
                #[trigger] resolve_spec(s)[index_of_name(resolve_spec(s), s[i].package)->0],
                s[i],
            ),
    decreases s.len(),
{
    if s.len() > 0 {
        let s2 = s.drop_last();
        lemma_resolve_dominates(s2);
        lemma_resolve_invariants(s2);
        lemma_resolve_invariants(s);
        let prev = resolve_spec(s2);
        let item = s.last();
        let r = resolve_spec(s);
        lemma_index_of_unique(prev, item.package);
        match index_of_name(prev, item.package) {
            Some(j) => {
                lemma_choose_dominates(item, prev[j]);
                assert forall|i: int| 0 <= i < s.len() implies dominates(
                    #[trigger] r[index_of_name(r, s[i].package)->0],
                    s[i],
                ) by {
                    if i == s.len() - 1 {
                        lemma_index_is(r, item.package, j);
                    } else {
                        assert(s[i] == s2[i]);
                        let k = index_of_name(prev, s2[i].package)->0;
                        lemma_index_of_unique(prev, s2[i].package);
                        lemma_index_is(r, s2[i].package, k);
                        assert(dominates(prev[k], s2[i]));
                        if k == j {
                            lemma_dominates_transitive(r[j], prev[j], s2[i]);
                        }
                    }
                }
            },
            None => {
                lemma_comp_version_antisymmetric(item.version, item.version);
                assert forall|i: int| 0 <= i < s.len() implies dominates(
                    #[trigger] r[index_of_name(r, s[i].package)->0],
                    s[i],
                ) by {
                    if i == s.len() - 1 {
                        lemma_index_is(r, item.package, prev.len() as int);
                    } else {
                        assert(s[i] == s2[i]);
                        let k = index_of_name(prev, s2[i].package)->0;
                        lemma_index_of_unique(prev, s2[i].package);
                        lemma_index_is(r, s2[i].package, k);
                        assert(dominates(prev[k], s2[i]));
                    }
                }
            },
        }
    }
}

/// For every record of the input, the record that `resolve_duplication`
/// keeps for its name is at least as good: of higher priority, or of the
/// same priority and a version that is not earlier.
pub proof fn lemma_resolve_keeps_best(s: Seq<PackageView>)
    ensures
        forall|i: int|
            0 <= i < s.len() ==> exists|j: int|
                0 <= j < resolve_spec(s).len() && #[trigger] resolve_spec(s)[j].package
                    == s[i].package && dominates(resolve_spec(s)[j], #[trigger] s[i]),
{
    lemma_resolve_invariants(s);
    lemma_resolve_dominates(s);
    let r = resolve_spec(s);
    assert forall|i: int| 0 <= i < s.len() implies exists|j: int|
        0 <= j < r.len() && #[trigger] r[j].package == s[i].package && dominates(
            r[j],
            #[trigger] s[i],
        ) by {
        assert(index_of_name(r, s[i].package) is Some);
        lemma_index_of_unique(r, s[i].package);
        let j = index_of_name(r, s[i].package)->0;
        assert(dominates(r[j], s[i]));
    }
}

} // verus!

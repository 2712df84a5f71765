//! A table from package names to an optional version, where a later entry
//! for a name replaces the earlier one.
use vstd::prelude::*;
use vstd::std_specs::cmp::PartialEqSpecImpl;

verus! {

/// The view of an optional string.
pub open spec fn opt_view(o: Option<String>) -> Option<Seq<char>> {
    match o {
        Some(s) => Some(s@),
        None => None,
    }
}

/// The map that a list of entries describes, a later entry for a name
/// taking the place of an earlier one.
pub open spec fn entries_map(e: Seq<(String, Option<String>)>) -> Map<
    Seq<char>,
    Option<Seq<char>>,
>
    decreases e.len(),
{
    if e.len() == 0 {
        Map::empty()
    } else {
        entries_map(e.drop_last()).insert(e.last().0@, opt_view(e.last().1))
    }
}

/// No two entries have the same name.
pub open spec fn names_distinct(e: Seq<(String, Option<String>)>) -> bool {
    forall|i: int, j: int| 0 <= i < j < e.len() ==> #[trigger] e[i].0@ != #[trigger] e[j].0@
}

/// A dependency table: what a package depends on, each name with the
/// version that the dependency asks for, if any.
#[derive(Debug)]
pub struct DependencyTable {
    entries: Vec<(String, Option<String>)>,
}

impl View for DependencyTable {
    type V = Map<Seq<char>, Option<Seq<char>>>;

    closed spec fn view(&self) -> Map<Seq<char>, Option<Seq<char>>> {
        entries_map(self.entries@)
    }
}

proof fn lemma_entries_map_dom(e: Seq<(String, Option<String>)>, k: Seq<char>)
    ensures
        entries_map(e).dom().contains(k) <==> exists|i: int| 0 <= i < e.len() && #[trigger] e[i].0@
            == k,
    decreases e.len(),
{
    if e.len() > 0 {
        let e2 = e.drop_last();
        lemma_entries_map_dom(e2, k);
        if entries_map(e2).dom().contains(k) {
            let i = choose|i: int| 0 <= i < e2.len() && #[trigger] e2[i].0@ == k;
            assert(e[i] == e2[i]);
        }
        if exists|i: int| 0 <= i < e.len() && #[trigger] e[i].0@ == k {
            let i = choose|i: int| 0 <= i < e.len() && #[trigger] e[i].0@ == k;
            if i < e.len() - 1 {
                assert(e2[i] == e[i]);
            }
        }
    }
}

proof fn lemma_entries_map_at(e: Seq<(String, Option<String>)>, i: int)
    requires
        names_distinct(e),
        0 <= i < e.len(),
    ensures
        entries_map(e).dom().contains(e[i].0@),
        entries_map(e)[e[i].0@] == opt_view(e[i].1),
    decreases e.len(),
{
    if i < e.len() - 1 {
        let e2 = e.drop_last();
        assert(e2[i] == e[i]);
        assert(names_distinct(e2)) by {
            assert forall|a: int, b: int| 0 <= a < b < e2.len() implies #[trigger] e2[a].0@
                != #[trigger] e2[b].0@ by {
                assert(e2[a] == e[a]);
                assert(e2[b] == e[b]);
            }
        }
        lemma_entries_map_at(e2, i);
        assert(e[i].0@ != e[e.len() - 1].0@);
    }
}

proof fn lemma_entries_map_update(e: Seq<(String, Option<String>)>, i: int, x: (
    String,
    Option<String>,
))
    requires
        names_distinct(e),
        0 <= i < e.len(),
        e[i].0@ == x.0@,
    ensures
        entries_map(e.update(i, x)) == entries_map(e).insert(x.0@, opt_view(x.1)),
        names_distinct(e.update(i, x)),
    decreases e.len(),
{
    let u = e.update(i, x);
    assert(names_distinct(u)) by {
        assert forall|a: int, b: int| 0 <= a < b < u.len() implies #[trigger] u[a].0@
            != #[trigger] u[b].0@ by {
            assert(u[a].0@ == e[a].0@);
            assert(u[b].0@ == e[b].0@);
        }
    }
    let e2 = e.drop_last();
    if i == e.len() - 1 {
        assert(u.drop_last() =~= e2);
        assert(entries_map(u) =~= entries_map(e).insert(x.0@, opt_view(x.1)));
    } else {
        assert(names_distinct(e2)) by {
            assert forall|a: int, b: int| 0 <= a < b < e2.len() implies #[trigger] e2[a].0@
                != #[trigger] e2[b].0@ by {
                assert(e2[a] == e[a]);
                assert(e2[b] == e[b]);
            }
        }
        assert(e2[i] == e[i]);
        lemma_entries_map_update(e2, i, x);
        assert(u.drop_last() =~= e2.update(i, x));
        assert(u.last() == e.last());
        assert(e.last().0@ != x.0@) by {
            assert(e[i].0@ != e[e.len() - 1].0@);
        }
        assert(entries_map(u) =~= entries_map(e).insert(x.0@, opt_view(x.1)));
    }
}

fn clone_opt(o: &Option<String>) -> (r: Option<String>)
    ensures
        opt_view(r) == opt_view(*o),
{
    match o {
        Some(s) => Some(s.clone()),
        None => None,
    }
}

/// What `get` gives, seen as text.
pub open spec fn lookup_view(r: Option<Option<String>>) -> Option<Option<Seq<char>>> {
    match r {
        Some(v) => Some(opt_view(v)),
        None => None,
    }
}

impl DependencyTable {
    /// The entry of the table for `name`: `None` when it has none.
    pub open spec fn lookup(&self, name: Seq<char>) -> Option<Option<Seq<char>>> {
        if self@.dom().contains(name) {
            Some(self@[name])
        } else {
            None
        }
    }

    #[verifier::type_invariant]
    closed spec fn distinct(self) -> bool {
        names_distinct(self.entries@)
    }

    /// The empty table.
    pub fn new() -> (r: Self)
        ensures
            r@ == Map::<Seq<char>, Option<Seq<char>>>::empty(),
    {
        DependencyTable { entries: Vec::new() }
    }

    /// Sets the entry for `name`, replacing the one it had.
    pub fn insert(&mut self, name: String, version: Option<String>)
        ensures
            final(self)@ == old(self)@.insert(name@, opt_view(version)),
    {
        proof {
            use_type_invariant(&*self);
        }
        let n = self.entries.len();
        let mut i: usize = 0;
        let ghost e0 = self.entries@;
        assert(old(self)@ == entries_map(e0));
        while i < n
            invariant
                n == self.entries@.len(),
                i <= n,
                self.entries@ == e0,
                old(self)@ == entries_map(e0),
                names_distinct(self.entries@),
                forall|j: int| 0 <= j < i ==> #[trigger] self.entries@[j].0@ != name@,
            decreases n - i,
        {
            if self.entries[i].0 == name {
                let ghost e = self.entries@;
                let x = (name, version);
                proof {
                    lemma_entries_map_update(e, i as int, x);
                }
                let mut entries = Vec::new();
                std::mem::swap(&mut entries, &mut self.entries);
                entries.set(i, x);
                self.entries = entries;
                return ;
            }
            i = i + 1;
        }
        let ghost e = self.entries@;
        let mut entries = Vec::new();
        std::mem::swap(&mut entries, &mut self.entries);
        entries.push((name, version));
        proof {
            assert(entries@.drop_last() =~= e);
            assert forall|a: int, b: int| 0 <= a < b < entries@.len() implies #[trigger] entries@[a].0@
                != #[trigger] entries@[b].0@ by {
                if b == e.len() {
                    assert(entries@[a] == e[a]);
                    assert(entries@[b].0@ == name@);
                    assert(e[a].0@ != name@);
                } else {
                    assert(entries@[a] == e[a]);
                    assert(entries@[b] == e[b]);
                }
            }
        }
        self.entries = entries;
    }

    /// The entry for `name`: `None` when the table has none, else the
    /// version that the entry holds.
    pub fn get(&self, name: &str) -> (r: Option<Option<String>>)
        ensures
            lookup_view(r) == self.lookup(name@),
            r is None <==> !self@.dom().contains(name@),
            r matches Some(v) ==> self@[name@] == opt_view(v),
    {
        proof {
            use_type_invariant(self);
            lemma_entries_map_dom(self.entries@, name@);
        }
        let key = name.to_owned();
        let n = self.entries.len();
        let mut i: usize = 0;
        while i < n
            invariant
                n == self.entries@.len(),
                i <= n,
                key@ == name@,
                names_distinct(self.entries@),
                forall|j: int| 0 <= j < i ==> #[trigger] self.entries@[j].0@ != name@,
            decreases n - i,
        {
            if self.entries[i].0 == key {
                proof {
                    lemma_entries_map_at(self.entries@, i as int);
                }
                return Some(clone_opt(&self.entries[i].1));
            }
            i = i + 1;
        }
        None
    }

    /// A copy of the table.
    pub fn duplicate(&self) -> (r: Self)
        ensures
            r@ == self@,
    {
        proof {
            use_type_invariant(self);
        }
        let n = self.entries.len();
        let mut out: Vec<(String, Option<String>)> = Vec::new();
        let mut i: usize = 0;
        while i < n
            invariant
                n == self.entries@.len(),
                i <= n,
                names_distinct(self.entries@),
                out@.len() == i,
                forall|j: int| 0 <= j < i ==> #[trigger] out@[j].0@ == self.entries@[j].0@
                    && opt_view(out@[j].1) == opt_view(self.entries@[j].1),
                entries_map(out@) == entries_map(self.entries@.take(i as int)),
            decreases n - i,
        {
            let x = (self.entries[i].0.clone(), clone_opt(&self.entries[i].1));
            let ghost before = out@;
            out.push(x);
            proof {
                assert(out@.drop_last() =~= before);
                assert(self.entries@.take(i + 1).drop_last() =~= self.entries@.take(i as int));
            }
            i = i + 1;
        }
        proof {
            assert(self.entries@.take(n as int) =~= self.entries@);
            assert forall|a: int, b: int| 0 <= a < b < out@.len() implies #[trigger] out@[a].0@
                != #[trigger] out@[b].0@ by {
                assert(out@[a].0@ == self.entries@[a].0@);
                assert(out@[b].0@ == self.entries@[b].0@);
            }
        }
        DependencyTable { entries: out }
    }
}


/// What `get` reads back after `insert`: for the name just inserted, its
/// version; for any other name, what the table held before.  `after` is the
/// table that `insert(name, version)` made of `before`.
pub proof fn lemma_insert_then_get(
    before: DependencyTable,
    after: DependencyTable,
    name: Seq<char>,
    version: Option<Seq<char>>,
    other: Seq<char>,
)
    requires
        after@ == before@.insert(name, version),
    ensures
        after.lookup(name) == Some(version),
        other != name ==> after.lookup(other) == before.lookup(other),
{
}

proof fn lemma_entries_map_finite_len(e: Seq<(String, Option<String>)>)
    requires
        names_distinct(e),
    ensures
        entries_map(e).dom().finite(),
        entries_map(e).dom().len() == e.len(),
    decreases e.len(),
{
    if e.len() > 0 {
        let e2 = e.drop_last();
        assert(names_distinct(e2)) by {
            assert forall|a: int, b: int| 0 <= a < b < e2.len() implies #[trigger] e2[a].0@
                != #[trigger] e2[b].0@ by {
                assert(e2[a] == e[a]);
                assert(e2[b] == e[b]);
            }
        }
        lemma_entries_map_finite_len(e2);
        lemma_entries_map_dom(e2, e.last().0@);
        if entries_map(e2).dom().contains(e.last().0@) {
            let i = choose|i: int| 0 <= i < e2.len() && #[trigger] e2[i].0@ == e.last().0@;
            assert(e[i].0@ != e[e.len() - 1].0@);
        }
    }
}

impl PartialEq for DependencyTable {
    fn eq(&self, other: &Self) -> (r: bool) {
        proof {
            use_type_invariant(self);
            use_type_invariant(other);
            lemma_entries_map_finite_len(self.entries@);
            lemma_entries_map_finite_len(other.entries@);
        }
        if self.entries.len() != other.entries.len() {
            proof {
                if self@ == other@ {
                    assert(self@.dom() == other@.dom());
                }
            }
            return false;
        }
        let n = self.entries.len();
        let mut i: usize = 0;
        while i < n
            invariant
                n == self.entries@.len(),
                n == other.entries@.len(),
                i <= n,
                names_distinct(self.entries@),
                names_distinct(other.entries@),
                forall|j: int|
                    0 <= j < i ==> other@.dom().contains(#[trigger] self.entries@[j].0@)
                        && other@[self.entries@[j].0@] == opt_view(self.entries@[j].1),
            decreases n - i,
        {
            let found = other.get(self.entries[i].0.as_str());
            proof {
                lemma_entries_map_at(self.entries@, i as int);
            }
            match found {
                Some(v) => {
                    let same = match (&v, &self.entries[i].1) {
                        (Some(a), Some(b)) => *a == *b,
                        (None, None) => true,
                        _ => false,
                    };
                    if !same {
                        assert(self@[self.entries@[i as int].0@] != other@[self.entries@[i as int].0@]);
                        return false;
                    }
                },
                None => {
                    assert(!other@.dom().contains(self.entries@[i as int].0@));
                    return false;
                },
            }
            i = i + 1;
        }
        proof {
            assert forall|k: Seq<char>| self@.dom().contains(k) implies other@.dom().contains(k)
                && other@[k] == self@[k] by {
                lemma_entries_map_dom(self.entries@, k);
                let j = choose|j: int| 0 <= j < self.entries@.len() && #[trigger] self.entries@[j].0@ == k;
                lemma_entries_map_at(self.entries@, j);
            }
            let ds = entries_map(self.entries@).dom();
            let dt = entries_map(other.entries@).dom();
            assert forall|k: Seq<char>| ds.contains(k) implies dt.contains(k) by {
                lemma_entries_map_dom(self.entries@, k);
                let j = choose|j: int| 0 <= j < self.entries@.len() && #[trigger] self.entries@[j].0@ == k;
                assert(other@.dom().contains(self.entries@[j].0@));
            }
            assert(ds.subset_of(dt));
            vstd::set_lib::lemma_subset_equality(ds, dt);
            assert(self@ =~= other@);
        }
        true
    }
}

impl PartialEqSpecImpl for DependencyTable {
    open spec fn obeys_eq_spec() -> bool {
        true
    }

    open spec fn eq_spec(&self, other: &Self) -> bool {
        self@ == other@
    }
}

} // verus!

//! Package priorities and the order between them.
use core::cmp::Ordering;
use vstd::prelude::*;
use vstd::std_specs::cmp::PartialOrdSpec;
use vstd::std_specs::cmp::PartialOrdSpecImpl;

verus! {

/// The `Priority` field of a package record.
#[derive(Debug, PartialEq, Eq, Structural, Clone, Copy)]
pub enum Priority {
    REQUIRED,
    IMPORTANT,
    STANDARD,
    OPTIONAL,
    EXTRA,
    UNKNOWN,
}

impl Priority {
    /// The place of a priority in the order, `REQUIRED` highest and
    /// `UNKNOWN` lowest.
    pub open spec fn rank(self) -> int {
        match self {
            Priority::REQUIRED => 5,
            Priority::IMPORTANT => 4,
            Priority::STANDARD => 3,
            Priority::OPTIONAL => 2,
            Priority::EXTRA => 1,
            Priority::UNKNOWN => 0,
        }
    }

    /// The name of the variant, as `Display` writes it.
    pub open spec fn name_spec(self) -> Seq<char> {
        match self {
            Priority::REQUIRED => "REQUIRED"@,
            Priority::IMPORTANT => "IMPORTANT"@,
            Priority::STANDARD => "STANDARD"@,
            Priority::OPTIONAL => "OPTIONAL"@,
            Priority::EXTRA => "EXTRA"@,
            Priority::UNKNOWN => "UNKNOWN"@,
        }
    }

    /// The name of the variant.
    pub fn to_string(&self) -> (r: String)
        ensures
            r@ == self.name_spec(),
    {
        match self {
            Priority::REQUIRED => "REQUIRED".to_owned(),
            Priority::IMPORTANT => "IMPORTANT".to_owned(),
            Priority::STANDARD => "STANDARD".to_owned(),
            Priority::OPTIONAL => "OPTIONAL".to_owned(),
            Priority::EXTRA => "EXTRA".to_owned(),
            Priority::UNKNOWN => "UNKNOWN".to_owned(),
        }
    }
}

/// How two ranks compare.
pub open spec fn order_of_ranks(a: int, b: int) -> Ordering {
    if a < b {
        Ordering::Less
    } else if a == b {
        Ordering::Equal
    } else {
        Ordering::Greater
    }
}

impl PartialOrd for Priority {
    fn partial_cmp(&self, other: &Self) -> (r: Option<Ordering>) {
        match (self, other) {
            (Priority::REQUIRED, Priority::REQUIRED) => Some(Ordering::Equal),
            (Priority::REQUIRED, Priority::IMPORTANT) => Some(Ordering::Greater),
            (Priority::REQUIRED, Priority::STANDARD) => Some(Ordering::Greater),
            (Priority::REQUIRED, Priority::OPTIONAL) => Some(Ordering::Greater),
            (Priority::REQUIRED, Priority::EXTRA) => Some(Ordering::Greater),
            (Priority::REQUIRED, Priority::UNKNOWN) => Some(Ordering::Greater),
            (Priority::IMPORTANT, Priority::REQUIRED) => Some(Ordering::Less),
            (Priority::IMPORTANT, Priority::IMPORTANT) => Some(Ordering::Equal),
            (Priority::IMPORTANT, Priority::STANDARD) => Some(Ordering::Greater),
            (Priority::IMPORTANT, Priority::OPTIONAL) => Some(Ordering::Greater),
            (Priority::IMPORTANT, Priority::EXTRA) => Some(Ordering::Greater),
            (Priority::IMPORTANT, Priority::UNKNOWN) => Some(Ordering::Greater),
            (Priority::STANDARD, Priority::REQUIRED) => Some(Ordering::Less),
            (Priority::STANDARD, Priority::IMPORTANT) => Some(Ordering::Less),
            (Priority::STANDARD, Priority::STANDARD) => Some(Ordering::Equal),
            (Priority::STANDARD, Priority::OPTIONAL) => Some(Ordering::Greater),
            (Priority::STANDARD, Priority::EXTRA) => Some(Ordering::Greater),
            (Priority::STANDARD, Priority::UNKNOWN) => Some(Ordering::Greater),
            (Priority::OPTIONAL, Priority::REQUIRED) => Some(Ordering::Less),
            (Priority::OPTIONAL, Priority::IMPORTANT) => Some(Ordering::Less),
            (Priority::OPTIONAL, Priority::STANDARD) => Some(Ordering::Less),
            (Priority::OPTIONAL, Priority::OPTIONAL) => Some(Ordering::Equal),
            (Priority::OPTIONAL, Priority::EXTRA) => Some(Ordering::Greater),
            (Priority::OPTIONAL, Priority::UNKNOWN) => Some(Ordering::Greater),
            (Priority::EXTRA, Priority::REQUIRED) => Some(Ordering::Less),
            (Priority::EXTRA, Priority::IMPORTANT) => Some(Ordering::Less),
            (Priority::EXTRA, Priority::STANDARD) => Some(Ordering::Less),
            (Priority::EXTRA, Priority::OPTIONAL) => Some(Ordering::Less),
            (Priority::EXTRA, Priority::EXTRA) => Some(Ordering::Equal),
            (Priority::EXTRA, Priority::UNKNOWN) => Some(Ordering::Greater),
            (Priority::UNKNOWN, Priority::REQUIRED) => Some(Ordering::Less),
            (Priority::UNKNOWN, Priority::IMPORTANT) => Some(Ordering::Less),
            (Priority::UNKNOWN, Priority::STANDARD) => Some(Ordering::Less),
            (Priority::UNKNOWN, Priority::OPTIONAL) => Some(Ordering::Less),
            (Priority::UNKNOWN, Priority::EXTRA) => Some(Ordering::Less),
            (Priority::UNKNOWN, Priority::UNKNOWN) => Some(Ordering::Equal),
        }
    }
}

impl PartialOrdSpecImpl for Priority {
    open spec fn obeys_partial_cmp_spec() -> bool {
        true
    }

    open spec fn partial_cmp_spec(&self, other: &Self) -> Option<Ordering> {
        Some(order_of_ranks(self.rank(), other.rank()))
    }
}

impl Default for Priority {
    fn default() -> (r: Self)
        ensures
            r == Priority::UNKNOWN,
    {
        Priority::UNKNOWN
    }
}

/// Any two priorities are comparable, and they compare as equal exactly
/// when they are the same priority.
pub proof fn lemma_priority_total(a: Priority, b: Priority)
    ensures
        PartialOrdSpec::partial_cmp_spec(&a, &b) is Some,
        PartialOrdSpec::partial_cmp_spec(&a, &b) == Some(Ordering::Equal) <==> a == b,
{
}

/// Swapping the operands reverses the comparison.
pub proof fn lemma_priority_antisymmetric(a: Priority, b: Priority)
    ensures
        PartialOrdSpec::partial_cmp_spec(&a, &b) == Some(Ordering::Less) <==> PartialOrdSpec::partial_cmp_spec(&b, &a) == Some(
            Ordering::Greater,
        ),
        PartialOrdSpec::partial_cmp_spec(&a, &b) == Some(Ordering::Equal) <==> PartialOrdSpec::partial_cmp_spec(&b, &a) == Some(
            Ordering::Equal,
        ),
{
}

/// The order is transitive.
pub proof fn lemma_priority_transitive(a: Priority, b: Priority, c: Priority)
    requires
        PartialOrdSpec::partial_cmp_spec(&a, &b) == Some(Ordering::Less),
        PartialOrdSpec::partial_cmp_spec(&b, &c) == Some(Ordering::Less),
    ensures
        PartialOrdSpec::partial_cmp_spec(&a, &c) == Some(Ordering::Less),
{
}

/// `REQUIRED` is above every other priority and `UNKNOWN` below every other.
pub proof fn lemma_priority_extremes(a: Priority)
    ensures
        a != Priority::REQUIRED ==> PartialOrdSpec::partial_cmp_spec(&a, &Priority::REQUIRED) == Some(
            Ordering::Less,
        ),
        a != Priority::UNKNOWN ==> PartialOrdSpec::partial_cmp_spec(&a, &Priority::UNKNOWN) == Some(
            Ordering::Greater,
        ),
{
}


/// The order, from the top: `REQUIRED`, `IMPORTANT`, `STANDARD`,
/// `OPTIONAL`, `EXTRA`, `UNKNOWN`; each is above the next.
pub proof fn lemma_priority_chain()
    ensures
        PartialOrdSpec::partial_cmp_spec(&Priority::REQUIRED, &Priority::IMPORTANT) == Some(
            Ordering::Greater,
        ),
        PartialOrdSpec::partial_cmp_spec(&Priority::IMPORTANT, &Priority::STANDARD) == Some(
            Ordering::Greater,
        ),
        PartialOrdSpec::partial_cmp_spec(&Priority::STANDARD, &Priority::OPTIONAL) == Some(
            Ordering::Greater,
        ),
        PartialOrdSpec::partial_cmp_spec(&Priority::OPTIONAL, &Priority::EXTRA) == Some(
            Ordering::Greater,
        ),
        PartialOrdSpec::partial_cmp_spec(&Priority::EXTRA, &Priority::UNKNOWN) == Some(
            Ordering::Greater,
        ),
{
}

} // verus!

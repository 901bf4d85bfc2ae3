use vstd::prelude::*;

verus! {

/// A binary arithmetic operator.
///
/// Equality and ordering between operators compare precedence tiers only:
/// `Add == Deduct`, `Add < Multiply`, `Multiply < Power`, `Power == Power`.
#[derive(Debug, Clone, Copy)]
pub enum Operator {
    Add,
    Deduct,
    Multiply,
    Divide,
    Power,
}

/// The precedence tier of an operator: 1 for `+ -`, 2 for `* /`, 3 for `^`.
pub open spec fn tier_of(op: Operator) -> int {
    match op {
        Operator::Add | Operator::Deduct => 1,
        Operator::Multiply | Operator::Divide => 2,
        Operator::Power => 3,
    }
}

impl Operator {
    /// The precedence tier of this operator, looked up from a fixed table.
    pub fn tier(&self) -> (r: u8)
        ensures
            r as int == tier_of(*self),
    {
        match self {
            Operator::Add | Operator::Deduct => 1,
            Operator::Multiply | Operator::Divide => 2,
            Operator::Power => 3,
        }
    }
}

impl PartialEq for Operator {
    fn eq(&self, other: &Operator) -> (r: bool)
        ensures
            r == (tier_of(*self) == tier_of(*other)),
    {
        self.tier() == other.tier()
    }
}

impl vstd::std_specs::cmp::PartialEqSpecImpl for Operator {
    open spec fn obeys_eq_spec() -> bool {
        false
    }

    open spec fn eq_spec(&self, other: &Operator) -> bool {
        tier_of(*self) == tier_of(*other)
    }
}

impl PartialOrd for Operator {
    fn partial_cmp(&self, other: &Operator) -> (r: Option<core::cmp::Ordering>)
        ensures
            r == Some(tier_cmp(*self, *other)),
    {
        let a = self.tier();
        let b = other.tier();
        if a < b {
            Some(core::cmp::Ordering::Less)
        } else if a > b {
            Some(core::cmp::Ordering::Greater)
        } else {
            Some(core::cmp::Ordering::Equal)
        }
    }
}

/// How two operators compare by tier.
pub open spec fn tier_cmp(a: Operator, b: Operator) -> core::cmp::Ordering {
    if tier_of(a) < tier_of(b) {
        core::cmp::Ordering::Less
    } else if tier_of(a) > tier_of(b) {
        core::cmp::Ordering::Greater
    } else {
        core::cmp::Ordering::Equal
    }
}

impl vstd::std_specs::cmp::PartialOrdSpecImpl for Operator {
    open spec fn obeys_partial_cmp_spec() -> bool {
        false
    }

    open spec fn partial_cmp_spec(&self, other: &Operator) -> Option<core::cmp::Ordering> {
        Some(tier_cmp(*self, *other))
    }
}

} // verus!

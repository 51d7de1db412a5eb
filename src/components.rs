use vstd::prelude::*;
use crate::quantity::Fraction;

verus! {

/// Errors reported by the simulation core.
#[derive(Clone, Copy, Debug, PartialEq, Eq, Structural)]
pub enum SimError {
    /// A need entry is zero: consumption would divide by it.
    InvalidNeed,
    /// A seed vector does not have one entry per good of the good table.
    GoodCountMismatch,
    /// A seed quantity exceeds `MAX_QUANTITY`.
    QuantityTooLarge,
    /// A good index is outside a stockpile.
    UnknownGood,
    /// An activity needs more of a good than the agent holds.
    InsufficientResources,
    /// A trade names a relation that cannot exist (an agent with itself).
    InvalidRelation,
}

/// Current holdings, one quantity per good index.
#[derive(Clone, Debug)]
pub struct Stockpile {
    pub goods: Vec<u64>,
}

/// Satisfaction of each good's need in the last run tick.
#[derive(Clone, Debug)]
pub struct Fills {
    pub fills: Vec<Fraction>,
}

/// Quantities banked from past consumption, one per good index.
#[derive(Clone, Debug)]
pub struct Keeps {
    pub keeps: Vec<u64>,
}

/// Required quantity of each good per tick.
///
/// Every entry is positive; the schedule cannot change after creation.
#[derive(Debug)]
pub struct Needs {
    needs: Vec<u64>,
}

impl View for Needs {
    type V = Seq<u64>;

    closed spec fn view(&self) -> Seq<u64> {
        self.needs@
    }
}

/// Whether every entry of a need schedule is positive.
pub open spec fn all_positive(n: Seq<u64>) -> bool {
    forall|g: int| 0 <= g < n.len() ==> n[g] > 0
}

impl Needs {
    #[verifier::type_invariant]
    spec fn positive(&self) -> bool {
        all_positive(self.needs@)
    }

    /// Builds a need schedule; fails with `InvalidNeed` exactly when some
    /// entry is zero.
    pub fn new(needs: Vec<u64>) -> (r: Result<Needs, SimError>)
        ensures
            all_positive(needs@) <==> r.is_ok(),
            r.is_ok() ==> r.unwrap()@ == needs@,
            !all_positive(needs@) ==> r == Err::<Needs, SimError>(SimError::InvalidNeed),
    {
        let mut g: usize = 0;
        while g < needs.len()
            invariant
                g <= needs@.len(),
                forall|h: int| 0 <= h < g ==> needs@[h] > 0,
            decreases needs@.len() - g,
        {
            if needs[g] == 0 {
                return Err(SimError::InvalidNeed);
            }
            g = g + 1;
        }
        Ok(Needs { needs })
    }

    /// Number of goods in the schedule.
    pub fn len(&self) -> (r: usize)
        ensures
            r == self@.len(),
    {
        self.needs.len()
    }

    /// The need for good `g`.
    pub fn get(&self, g: usize) -> (r: u64)
        requires
            g < self@.len(),
        ensures
            r == self@[g as int],
            r > 0,
    {
        proof {
            use_type_invariant(self);
        }
        self.needs[g]
    }
}

/// The stockpile table seen as good vectors.
pub open spec fn stock_view(t: Seq<Option<Stockpile>>) -> Seq<Option<Seq<u64>>> {
    Seq::new(t.len(), |i: int| match t[i] {
        Some(s) => Some(s.goods@),
        None => None,
    })
}

/// The keeps table seen as good vectors.
pub open spec fn keeps_view(t: Seq<Option<Keeps>>) -> Seq<Option<Seq<u64>>> {
    Seq::new(t.len(), |i: int| match t[i] {
        Some(k) => Some(k.keeps@),
        None => None,
    })
}

/// The fills table seen as fraction vectors.
pub open spec fn fills_view(t: Seq<Option<Fills>>) -> Seq<Option<Seq<Fraction>>> {
    Seq::new(t.len(), |i: int| match t[i] {
        Some(f) => Some(f.fills@),
        None => None,
    })
}

/// The needs table seen as good vectors.
pub open spec fn needs_view(t: Seq<Option<Needs>>) -> Seq<Option<Seq<u64>>> {
    Seq::new(t.len(), |i: int| match t[i] {
        Some(n) => Some(n@),
        None => None,
    })
}

} // verus!

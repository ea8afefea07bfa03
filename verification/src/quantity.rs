use vstd::prelude::*;

verus! {

/// A non-negative amount of one asset.
///
/// Every operation that could leave the range of a `u64` is checked and
/// reports the failure instead of wrapping.
#[derive(Clone, Copy, Debug, PartialEq, Eq, Structural, PartialOrd, Ord, Hash)]
pub struct Quantity(u64);

impl View for Quantity {
    type V = nat;

    closed spec fn view(&self) -> nat {
        self.0 as nat
    }
}

/// A quantity never exceeds `u64::MAX`.
pub broadcast proof fn lemma_quantity_fits(q: Quantity)
    ensures
        #[trigger] q@ <= u64::MAX,
{
}

/// Two quantities with the same amount are the same value.
pub broadcast proof fn lemma_quantity_determined(p: Quantity, q: Quantity)
    ensures
        #![trigger p@, q@]
        p@ == q@ ==> p == q,
{
}

pub broadcast group group_quantity {
    lemma_quantity_fits,
    lemma_quantity_determined,
}

impl Quantity {
    /// The quantity `value`.
    pub fn new(value: u64) -> (q: Quantity)
        ensures
            q@ == value,
    {
        Quantity(value)
    }

    /// The empty quantity.
    pub fn zero() -> (q: Quantity)
        ensures
            q@ == 0,
    {
        Quantity(0)
    }

    /// The amount as a `u64`.
    pub fn get(self) -> (value: u64)
        ensures
            value == self@,
    {
        self.0
    }

    pub fn is_zero(self) -> (b: bool)
        ensures
            b == (self@ == 0),
    {
        self.0 == 0
    }

    /// `self + other`, or `None` where the sum exceeds `u64::MAX`.
    pub fn checked_add(self, other: Quantity) -> (r: Option<Quantity>)
        ensures
            match r {
                Some(q) => q@ == self@ + other@,
                None => self@ + other@ > u64::MAX,
            },
    {
        match self.0.checked_add(other.0) {
            Some(v) => Some(Quantity(v)),
            None => None,
        }
    }

    /// `self - other`, or `None` where `other` is larger.
    pub fn checked_sub(self, other: Quantity) -> (r: Option<Quantity>)
        ensures
            match r {
                Some(q) => q@ == self@ - other@,
                None => self@ < other@,
            },
    {
        match self.0.checked_sub(other.0) {
            Some(v) => Some(Quantity(v)),
            None => None,
        }
    }

    /// `self * other`, or `None` where the product exceeds `u64::MAX`.
    pub fn checked_mul(self, other: Quantity) -> (r: Option<Quantity>)
        ensures
            match r {
                Some(q) => q@ == self@ * other@,
                None => self@ * other@ > u64::MAX,
            },
    {
        match self.0.checked_mul(other.0) {
            Some(v) => Some(Quantity(v)),
            None => None,
        }
    }
}

impl Default for Quantity {
    fn default() -> (q: Quantity)
        ensures
            q@ == 0,
    {
        Quantity(0)
    }
}

} // verus!

use vstd::prelude::*;

verus! {

/// A positive value that fits in a `u32` and in a `usize` alike.
#[derive(Debug, Clone, Copy, PartialEq, Eq)]
pub struct U32AndUsize {
    value: u32,
}

impl U32AndUsize {
    #[verifier::type_invariant]
    spec fn positive(self) -> bool {
        self.value > 0
    }

    /// The value held.
    pub closed spec fn spec_value(self) -> u32 {
        self.value
    }

    /// `value`, if it is positive (every `u32` fits in a `usize`).
    pub fn try_from_u32(value: u32) -> (r: Option<Self>)
        ensures
            r is Some <==> value > 0,
            r matches Some(v) ==> v.spec_value() == value,
    {
        if value > 0 {
            Some(U32AndUsize { value })
        } else {
            None
        }
    }

    pub fn to_u32(&self) -> (r: u32)
        ensures
            r == self.spec_value(),
            r > 0,
    {
        proof {
            use_type_invariant(self);
        }
        self.value
    }

    pub fn to_usize(&self) -> (r: usize)
        ensures
            r == self.spec_value(),
            r > 0,
    {
        proof {
            use_type_invariant(self);
        }
        self.value as usize
    }

    pub fn to_u64(&self) -> (r: u64)
        ensures
            r == self.spec_value(),
            r > 0,
    {
        proof {
            use_type_invariant(self);
        }
        self.value as u64
    }
}

} // verus!

//! The 4-byte tags that identify contract entry points.

use vstd::prelude::*;

verus! {

/// A fixed 4-byte tag identifying a contract entry point. Two selectors are
/// equal exactly when all four bytes match.
#[derive(Clone, Copy, PartialEq, Eq, Structural, Debug, Hash)]
pub struct Selector {
    pub b0: u8,
    pub b1: u8,
    pub b2: u8,
    pub b3: u8,
}

impl Selector {
    /// The selector as the sequence of its four bytes, for specifications.
    pub open spec fn view(&self) -> Seq<u8> {
        seq![self.b0, self.b1, self.b2, self.b3]
    }

    pub fn of(b0: u8, b1: u8, b2: u8, b3: u8) -> (r: Selector)
        ensures
            r@ == seq![b0, b1, b2, b3],
            r == (Selector { b0, b1, b2, b3 }),
    {
        Selector { b0, b1, b2, b3 }
    }

    /// The four selector bytes, in order.
    pub fn to_bytes(&self) -> (r: Vec<u8>)
        ensures
            r@ == self@,
    {
        let mut v: Vec<u8> = Vec::new();
        v.push(self.b0);
        v.push(self.b1);
        v.push(self.b2);
        v.push(self.b3);
        proof {
            assert(v@ =~= self@);
        }
        v
    }
}

/// Whether a selector list contains a given selector.
pub fn selectors_contain(list: &Vec<Selector>, sel: &Selector) -> (r: bool)
    ensures
        r == list@.contains(*sel),
{
    let mut i: usize = 0;
    while i < list.len()
        invariant
            0 <= i <= list.len(),
            forall|j: int| 0 <= j < i ==> list@[j] != *sel,
        decreases list.len() - i,
    {
        if list[i] == *sel {
            return true;
        }
        i = i + 1;
    }
    false
}

} // verus!

//! The record of what a prover has committed to, from which challenges are
//! drawn without interaction.

use crate::curve::G1Point;
use crate::field::{le_bytes_value, modulus, Scalar};
use vstd::prelude::*;

verus! {

/// An accumulator of bytes: the encodings of the values and points that were
/// committed to, in the order in which they came. A challenge is a function of
/// all that was accumulated.
#[derive(Clone, Debug, PartialEq, Eq)]
pub struct Transcript {
    bytes: Vec<u8>,
}

impl View for Transcript {
    type V = Seq<u8>;

    closed spec fn view(&self) -> Seq<u8> {
        self.bytes@
    }
}

impl Transcript {
    /// The empty transcript.
    pub fn new() -> (r: Transcript)
        ensures
            r@ == Seq::<u8>::empty(),
    {
        Transcript { bytes: Vec::new() }
    }

    /// Adds bytes at the end.
    pub fn append(&mut self, bytes: &[u8])
        ensures
            final(self)@ == old(self)@ + bytes@,
    {
        let mut i: usize = 0;
        while i < bytes.len()
            invariant
                i <= bytes@.len(),
                self.bytes@ == old(self).bytes@ + bytes@.subrange(0, i as int),
            decreases bytes@.len() - i,
        {
            self.bytes.push(bytes[i]);
            i += 1;
            assert(self.bytes@ =~= old(self).bytes@ + bytes@.subrange(0, i as int));
        }
        assert(bytes@.subrange(0, i as int) =~= bytes@);
    }

    /// Adds the encoding of a point at the end.
    pub fn append_point(&mut self, point: &G1Point)
        ensures
            final(self)@ == old(self)@ + point@,
    {
        let bytes = point.to_bytes();
        self.append(bytes.as_slice());
    }

    /// The bytes accumulated so far.
    pub fn bytes(&self) -> (r: &Vec<u8>)
        ensures
            r@ == self@,
    {
        &self.bytes
    }

    /// The challenge for what was accumulated: the field element that the
    /// bytes denote, read little-endian and reduced modulo the field order.
    pub fn challenge(&self) -> (r: Scalar)
        ensures
            r@ == le_bytes_value(self@) % modulus(),
    {
        Scalar::from_le_bytes_mod_order(self.bytes.as_slice())
    }
}

} // verus!

//! Writing values out in wire format.

use crate::octets::{bytes_mut_content, bytes_mut_extend};
use bytes::BytesMut;
use vstd::prelude::*;

verus! {

/// A growing run of octets that wire data is written to.
pub trait ComposeTarget {
    /// The octets written so far.
    spec fn written(&self) -> Seq<u8>;

    /// Appends the octets of `slice`.
    fn append_slice(&mut self, slice: &[u8])
        requires
            old(self).written().len() + slice@.len() <= isize::MAX,
        ensures
            final(self).written() == old(self).written() + slice@,
    ;
}

impl ComposeTarget for Vec<u8> {
    open spec fn written(&self) -> Seq<u8> {
        self@
    }

    fn append_slice(&mut self, slice: &[u8]) {
        self.extend_from_slice(slice);
        assert(self@ =~= old(self)@ + slice@);
    }
}

impl ComposeTarget for BytesMut {
    open spec fn written(&self) -> Seq<u8> {
        bytes_mut_content(*self)
    }

    fn append_slice(&mut self, slice: &[u8]) {
        bytes_mut_extend(self, slice);
    }
}

/// A value that has a wire format.
pub trait Compose {
    /// Whether `out` is a wire format of the value. Most values have one
    /// wire format; a value that is written with random filling has many.
    spec fn is_composed(&self, out: Seq<u8>) -> bool;

    /// The length of the wire format.
    spec fn composed_len(&self) -> nat;

    /// Every wire format of the value has the length that was announced.
    proof fn lemma_composed_len(&self, out: Seq<u8>)
        requires
            self.is_composed(out),
        ensures
            out.len() == self.composed_len(),
    ;

    /// The number of octets that `compose` will write.
    fn compose_len(&self) -> (n: usize)
        requires
            self.composed_len() <= usize::MAX,
        ensures
            n == self.composed_len(),
    ;

    /// Appends the wire format of the value to `target`.
    fn compose<T: ComposeTarget>(&self, target: &mut T)
        requires
            old(target).written().len() + self.composed_len() <= isize::MAX,
        ensures
            final(target).written().len() == old(target).written().len() + self.composed_len(),
            final(target).written().subrange(0, old(target).written().len() as int) == old(
                target,
            ).written(),
            self.is_composed(
                final(target).written().subrange(
                    old(target).written().len() as int,
                    final(target).written().len() as int,
                ),
            ),
    ;
}

/// Appends one octet to `target`.
pub fn compose_u8<T: ComposeTarget>(target: &mut T, value: u8)
    requires
        old(target).written().len() + 1 <= isize::MAX,
    ensures
        final(target).written() == old(target).written().push(value),
{
    let octets: [u8; 1] = [value];
    let slice = vstd::array::array_as_slice(&octets);
    assert(slice@ =~= seq![value]);
    target.append_slice(slice);
    assert(target.written() =~= old(target).written().push(value));
}

/// The two octets of `value`, the high one first.
pub open spec fn u16_octets(value: u16) -> Seq<u8> {
    seq![(value / 256) as u8, (value % 256) as u8]
}

/// The number that two octets stand for, the high one first.
pub open spec fn u16_of(high: u8, low: u8) -> u16 {
    (high * 256 + low) as u16
}

/// Appends `value` to `target` in network byte order.
pub fn compose_u16<T: ComposeTarget>(target: &mut T, value: u16)
    requires
        old(target).written().len() + 2 <= isize::MAX,
    ensures
        final(target).written() == old(target).written() + u16_octets(value),
{
    let octets: [u8; 2] = [(value / 256) as u8, (value % 256) as u8];
    let slice = vstd::array::array_as_slice(&octets);
    assert(slice@ =~= u16_octets(value));
    target.append_slice(slice);
}

impl Compose for u8 {
    open spec fn is_composed(&self, out: Seq<u8>) -> bool {
        out == seq![*self]
    }

    open spec fn composed_len(&self) -> nat {
        1
    }

    proof fn lemma_composed_len(&self, out: Seq<u8>) {
    }

    fn compose_len(&self) -> (n: usize) {
        1
    }

    fn compose<T: ComposeTarget>(&self, target: &mut T) {
        compose_u8(target, *self);
        proof {
            let before = old(target).written();
            let after = target.written();
            assert(after.subrange(0, before.len() as int) =~= before);
            assert(after.subrange(before.len() as int, after.len() as int) =~= seq![*self]);
        }
    }
}

impl Compose for u16 {
    open spec fn is_composed(&self, out: Seq<u8>) -> bool {
        out == u16_octets(*self)
    }

    open spec fn composed_len(&self) -> nat {
        2
    }

    proof fn lemma_composed_len(&self, out: Seq<u8>) {
    }

    fn compose_len(&self) -> (n: usize) {
        2
    }

    fn compose<T: ComposeTarget>(&self, target: &mut T) {
        compose_u16(target, *self);
        proof {
            let before = old(target).written();
            let after = target.written();
            assert(after.subrange(0, before.len() as int) =~= before);
            assert(after.subrange(before.len() as int, after.len() as int) =~= u16_octets(*self));
        }
    }
}

} // verus!

//! The option of RFC 7830: padding.

use crate::compose::{compose_u8, u16_octets, Compose, ComposeTarget};
use crate::iana::OptionCode;
use crate::message_builder::OptBuilder;
use crate::octets::Octets;
use crate::opt::CodeOptData;
use crate::parse::{ParseAll, Parser, ShortBuf};
use bytes::Bytes;
use vstd::prelude::*;

verus! {

/// `rand::random` draws an octet from the random number generator of the
/// thread. Nothing is known of the octet.
#[verifier::external_body]
fn random_octet() -> (r: u8) {
    rand::random()
}

/// What the padding is made of.
#[derive(Clone, Copy, Debug, Eq, Hash, PartialEq, Structural)]
pub enum PaddingMode {
    /// Octets of zero.
    Zero,
    /// Octets drawn at random.
    Random,
}

/// Padding of a given length.
#[derive(Clone, Copy, Debug, Eq, Hash, PartialEq, Structural)]
pub struct Padding {
    len: u16,
    mode: PaddingMode,
}

impl View for Padding {
    type V = (u16, PaddingMode);

    closed spec fn view(&self) -> (u16, PaddingMode) {
        (self.len, self.mode)
    }
}

impl Padding {
    /// Padding of `len` octets made in the given way.
    pub fn new(len: u16, mode: PaddingMode) -> (r: Self)
        ensures
            r@ == (len, mode),
    {
        Padding { len, mode }
    }

    /// Adds padding of `len` octets to the options in `builder`, if there
    /// is room for it. Zero padding is octets of zero.
    pub fn push(builder: &mut OptBuilder, len: u16, mode: PaddingMode) -> (r: Result<(), ShortBuf>)
        ensures
            r is Ok <==> old(builder)@.len() + 4 + len <= 65535,
            r is Err ==> final(builder)@ == old(builder)@,
            r is Ok ==> {
                let start = old(builder)@.len() as int;
                &&& final(builder)@.len() == start + 4 + len
                &&& final(builder)@.subrange(0, start + 4) == old(builder)@ + u16_octets(12)
                    + u16_octets(len)
                &&& mode == PaddingMode::Zero ==> forall|i: int|
                    start + 4 <= i < start + 4 + len ==> final(builder)@[i] == 0
            },
    {
        let option = Self::new(len, mode);
        let r = builder.push::<Bytes, Padding>(&option);
        proof {
            if r is Ok {
                let start = old(builder)@.len() as int;
                let out = builder@;
                assert(out.subrange(0, start + 4) =~= out.subrange(0, start) + out.subrange(
                    start,
                    start + 2,
                ) + out.subrange(start + 2, start + 4));
                let tail = out.subrange(start + 4, out.len() as int);
                if mode == PaddingMode::Zero {
                    assert forall|i: int| start + 4 <= i < start + 4 + len implies out[i] == 0 by {
                        assert(out[i] == tail[i - start - 4]);
                    }
                }
            }
        }
        r
    }

    /// The number of octets of padding.
    pub fn len(self) -> (r: u16)
        ensures
            r == self@.0,
    {
        self.len
    }

    /// What the padding is made of.
    pub fn mode(self) -> (r: PaddingMode)
        ensures
            r == self@.1,
    {
        self.mode
    }
}

impl<O: Octets> ParseAll<O> for Padding {
    type Err = ShortBuf;

    open spec fn parsed_all(rest: Seq<u8>, len: usize, r: Result<Self, Self::Err>) -> bool {
        &&& r is Ok <==> len <= rest.len()
        &&& r matches Ok(value) ==> value@ == ((len % 65536) as u16, PaddingMode::Zero)
    }

    /// Reads over the padding. It is taken for zero padding whatever it
    /// is made of.
    fn parse_all(parser: &mut Parser<O>, len: usize) -> (r: Result<Self, Self::Err>) {
        match parser.advance(len) {
            Ok(()) => {},
            Err(e) => {
                return Err(e);
            },
        }
        Ok(Padding::new((len % 65536) as u16, PaddingMode::Zero))
    }
}

impl Compose for Padding {
    open spec fn is_composed(&self, out: Seq<u8>) -> bool {
        &&& out.len() == self@.0
        &&& self@.1 == PaddingMode::Zero ==> forall|i: int| 0 <= i < out.len() ==> out[i] == 0
    }

    open spec fn composed_len(&self) -> nat {
        self@.0 as nat
    }

    proof fn lemma_composed_len(&self, out: Seq<u8>) {
    }

    fn compose_len(&self) -> (n: usize) {
        self.len as usize
    }

    fn compose<T: ComposeTarget>(&self, target: &mut T) {
        let ghost before = target.written();
        let mut i: u16 = 0;
        match self.mode {
            PaddingMode::Zero => {
                while i < self.len
                    invariant
                        i <= self.len,
                        before.len() + self.len <= isize::MAX,
                        target.written().len() == before.len() + i,
                        target.written().subrange(0, before.len() as int) == before,
                        forall|k: int|
                            before.len() <= k < before.len() + i ==> target.written()[k] == 0,
                    decreases self.len - i,
                {
                    let ghost prev = target.written();
                    compose_u8(target, 0);
                    proof {
                        assert(target.written().subrange(0, before.len() as int) =~= prev.subrange(
                            0,
                            before.len() as int,
                        ));
                    }
                    i = i + 1;
                }
            },
            PaddingMode::Random => {
                while i < self.len
                    invariant
                        i <= self.len,
                        before.len() + self.len <= isize::MAX,
                        target.written().len() == before.len() + i,
                        target.written().subrange(0, before.len() as int) == before,
                    decreases self.len - i,
                {
                    let ghost prev = target.written();
                    compose_u8(target, random_octet());
                    proof {
                        assert(target.written().subrange(0, before.len() as int) =~= prev.subrange(
                            0,
                            before.len() as int,
                        ));
                    }
                    i = i + 1;
                }
            },
        }
    }
}

impl CodeOptData for Padding {
    const CODE: OptionCode = OptionCode::Padding;
}

} // verus!

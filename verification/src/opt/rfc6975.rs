//! The options of RFC 6975: which algorithms a validator understands.

use crate::compose::{Compose, ComposeTarget};
use crate::iana::{OptionCode, SecAlg};
use crate::octets::Octets;
use crate::opt::CodeOptData;
use crate::parse::{ParseAll, Parser, ShortBuf};
use vstd::prelude::*;
use vstd::slice::slice_subrange;

verus! {

/// The signing algorithms that a validator understands.
#[derive(Debug)]
pub struct Dau<O: Octets> {
    octets: O,
}

impl<O: Octets> View for Dau<O> {
    type V = Seq<u8>;

    closed spec fn view(&self) -> Seq<u8> {
        self.octets.content()
    }
}

impl<O: Octets> Dau<O> {
    /// The option whose data is `octets`: one algorithm number in each.
    pub fn from_octets(octets: O) -> (r: Self)
        ensures
            r@ == octets.content(),
    {
        Dau { octets }
    }

    /// A walk over the algorithms that the option lists.
    pub fn iter(&self) -> (r: SecAlgsIter<'_>)
        ensures
            r@ == self@,
    {
        SecAlgsIter::new(self.octets.as_slice())
    }
}

impl<O: Octets> ParseAll<O> for Dau<O> {
    type Err = ShortBuf;

    open spec fn parsed_all(rest: Seq<u8>, len: usize, r: Result<Self, Self::Err>) -> bool {
        &&& r is Ok <==> len <= rest.len()
        &&& r matches Ok(value) ==> value@ == rest.take(len as int)
    }

    fn parse_all(parser: &mut Parser<O>, len: usize) -> (r: Result<Self, Self::Err>) {
        match parser.parse_octets(len) {
            Ok(octets) => Ok(Self::from_octets(octets)),
            Err(e) => Err(e),
        }
    }
}

impl<O: Octets> Compose for Dau<O> {
    open spec fn is_composed(&self, out: Seq<u8>) -> bool {
        out == self@
    }

    open spec fn composed_len(&self) -> nat {
        self@.len()
    }

    proof fn lemma_composed_len(&self, out: Seq<u8>) {
    }

    fn compose_len(&self) -> (n: usize) {
        self.octets.len()
    }

    fn compose<T: ComposeTarget>(&self, target: &mut T) {
        target.append_slice(self.octets.as_slice());
        proof {
            let before = old(target).written();
            let after = target.written();
            assert(after.subrange(0, before.len() as int) =~= before);
            assert(after.subrange(before.len() as int, after.len() as int) =~= self@);
        }
    }
}

impl<O: Octets> CodeOptData for Dau<O> {
    const CODE: OptionCode = OptionCode::Dau;
}

/// The DS hash algorithms that a validator understands.
#[derive(Debug)]
pub struct Dhu<O: Octets> {
    octets: O,
}

impl<O: Octets> View for Dhu<O> {
    type V = Seq<u8>;

    closed spec fn view(&self) -> Seq<u8> {
        self.octets.content()
    }
}

impl<O: Octets> Dhu<O> {
    /// The option whose data is `octets`: one algorithm number in each.
    pub fn from_octets(octets: O) -> (r: Self)
        ensures
            r@ == octets.content(),
    {
        Dhu { octets }
    }

    /// A walk over the algorithms that the option lists.
    pub fn iter(&self) -> (r: SecAlgsIter<'_>)
        ensures
            r@ == self@,
    {
        SecAlgsIter::new(self.octets.as_slice())
    }
}

impl<O: Octets> ParseAll<O> for Dhu<O> {
    type Err = ShortBuf;

    open spec fn parsed_all(rest: Seq<u8>, len: usize, r: Result<Self, Self::Err>) -> bool {
        &&& r is Ok <==> len <= rest.len()
        &&& r matches Ok(value) ==> value@ == rest.take(len as int)
    }

    fn parse_all(parser: &mut Parser<O>, len: usize) -> (r: Result<Self, Self::Err>) {
        match parser.parse_octets(len) {
            Ok(octets) => Ok(Self::from_octets(octets)),
            Err(e) => Err(e),
        }
    }
}

impl<O: Octets> Compose for Dhu<O> {
    open spec fn is_composed(&self, out: Seq<u8>) -> bool {
        out == self@
    }

    open spec fn composed_len(&self) -> nat {
        self@.len()
    }

    proof fn lemma_composed_len(&self, out: Seq<u8>) {
    }

    fn compose_len(&self) -> (n: usize) {
        self.octets.len()
    }

    fn compose<T: ComposeTarget>(&self, target: &mut T) {
        target.append_slice(self.octets.as_slice());
        proof {
            let before = old(target).written();
            let after = target.written();
            assert(after.subrange(0, before.len() as int) =~= before);
            assert(after.subrange(before.len() as int, after.len() as int) =~= self@);
        }
    }
}

impl<O: Octets> CodeOptData for Dhu<O> {
    const CODE: OptionCode = OptionCode::Dhu;
}

/// The NSEC3 hash algorithms that a validator understands.
#[derive(Debug)]
pub struct N3u<O: Octets> {
    octets: O,
}

impl<O: Octets> View for N3u<O> {
    type V = Seq<u8>;

    closed spec fn view(&self) -> Seq<u8> {
        self.octets.content()
    }
}

impl<O: Octets> N3u<O> {
    /// The option whose data is `octets`: one algorithm number in each.
    pub fn from_octets(octets: O) -> (r: Self)
        ensures
            r@ == octets.content(),
    {
        N3u { octets }
    }

    /// A walk over the algorithms that the option lists.
    pub fn iter(&self) -> (r: SecAlgsIter<'_>)
        ensures
            r@ == self@,
    {
        SecAlgsIter::new(self.octets.as_slice())
    }
}

impl<O: Octets> ParseAll<O> for N3u<O> {
    type Err = ShortBuf;

    open spec fn parsed_all(rest: Seq<u8>, len: usize, r: Result<Self, Self::Err>) -> bool {
        &&& r is Ok <==> len <= rest.len()
        &&& r matches Ok(value) ==> value@ == rest.take(len as int)
    }

    fn parse_all(parser: &mut Parser<O>, len: usize) -> (r: Result<Self, Self::Err>) {
        match parser.parse_octets(len) {
            Ok(octets) => Ok(Self::from_octets(octets)),
            Err(e) => Err(e),
        }
    }
}

impl<O: Octets> Compose for N3u<O> {
    open spec fn is_composed(&self, out: Seq<u8>) -> bool {
        out == self@
    }

    open spec fn composed_len(&self) -> nat {
        self@.len()
    }

    proof fn lemma_composed_len(&self, out: Seq<u8>) {
    }

    fn compose_len(&self) -> (n: usize) {
        self.octets.len()
    }

    fn compose<T: ComposeTarget>(&self, target: &mut T) {
        target.append_slice(self.octets.as_slice());
        proof {
            let before = old(target).written();
            let after = target.written();
            assert(after.subrange(0, before.len() as int) =~= before);
            assert(after.subrange(before.len() as int, after.len() as int) =~= self@);
        }
    }
}

impl<O: Octets> CodeOptData for N3u<O> {
    const CODE: OptionCode = OptionCode::N3u;
}

/// A walk over algorithm numbers that lie one in each octet.
#[derive(Debug)]
pub struct SecAlgsIter<'a> {
    slice: &'a [u8],
}

impl<'a> View for SecAlgsIter<'a> {
    type V = Seq<u8>;

    closed spec fn view(&self) -> Seq<u8> {
        self.slice@
    }
}

impl<'a> SecAlgsIter<'a> {
    /// A walk over the algorithm numbers in `slice`.
    pub fn new(slice: &'a [u8]) -> (r: Self)
        ensures
            r@ == slice@,
    {
        SecAlgsIter { slice }
    }

    /// Hands out the next algorithm, if one is left.
    pub fn next(&mut self) -> (r: Option<SecAlg>)
        ensures
            r is Some <==> old(self)@.len() > 0,
            r is None ==> final(self)@ == old(self)@,
            r matches Some(alg) ==> alg == SecAlg::of_number(old(self)@[0]) && final(self)@ == old(
                self,
            )@.skip(1),
    {
        if self.slice.len() == 0 {
            None
        } else {
            let first = self.slice[0];
            self.slice = slice_subrange(self.slice, 1, self.slice.len());
            Some(SecAlg::from_int(first))
        }
    }
}

} // verus!

//! Record data from RFC 3596: the AAAA record.

use crate::compose::{Compose, ComposeTarget};
use crate::iana::Rtype;
use crate::octets::Octets;
use crate::parse::{Parse, ParseAll, ParseAllError, Parser, ShortBuf};
use crate::record::RtypeRecordData;
use vstd::array::array_as_slice;
use vstd::prelude::*;

verus! {

/// The data of an AAAA record: the sixteen octets of an IPv6 address.
#[derive(Clone, Copy, Debug, Eq, Hash, Ord, PartialEq, PartialOrd)]
pub struct Aaaa {
    addr: [u8; 16],
}

impl View for Aaaa {
    type V = Seq<u8>;

    closed spec fn view(&self) -> Seq<u8> {
        self.addr@
    }
}

impl Aaaa {
    /// The record data for an address.
    pub fn new(addr: [u8; 16]) -> (r: Aaaa)
        ensures
            r@ == addr@,
    {
        Aaaa { addr }
    }

    /// The address.
    pub fn addr(&self) -> (r: [u8; 16])
        ensures
            r@ == self@,
    {
        self.addr
    }

    /// Puts another address in the place of the address.
    pub fn set_addr(&mut self, addr: [u8; 16])
        ensures
            final(self)@ == addr@,
    {
        self.addr = addr
    }
}

impl<O: Octets> Parse<O> for Aaaa {
    type Err = ShortBuf;

    /// Reads the sixteen octets of an address.
    fn parse(parser: &mut Parser<O>) -> (r: Result<Self, Self::Err>)
        ensures
            r is Ok <==> old(parser).rest().len() >= 16,
            r matches Ok(value) ==> value@ == old(parser).rest().take(16) && final(parser).position()
                == old(parser).position() + 16,
            r is Err ==> final(parser).position() == old(parser).position(),
    {
        let mut addr = [0u8;16];
        match parser.parse_buf(&mut addr) {
            Ok(()) => Ok(Self::new(addr)),
            Err(e) => Err(e),
        }
    }

    /// Reads over the sixteen octets of an address.
    fn skip(parser: &mut Parser<O>) -> (r: Result<(), Self::Err>)
        ensures
            r is Ok <==> old(parser).rest().len() >= 16,
            r is Ok ==> final(parser).position() == old(parser).position() + 16,
            r is Err ==> final(parser).position() == old(parser).position(),
    {
        parser.advance(16)
    }
}

impl<O: Octets> ParseAll<O> for Aaaa {
    type Err = ParseAllError;

    open spec fn parsed_all(rest: Seq<u8>, len: usize, r: Result<Self, Self::Err>) -> bool {
        if len < 16 {
            r == Err::<Self, ParseAllError>(ParseAllError::ShortField)
        } else if len > 16 {
            r == Err::<Self, ParseAllError>(ParseAllError::TrailingData)
        } else if rest.len() < 16 {
            r == Err::<Self, ParseAllError>(ParseAllError::ShortBuf)
        } else {
            r matches Ok(value) && value@ == rest.take(16)
        }
    }

    fn parse_all(parser: &mut Parser<O>, len: usize) -> (r: Result<Self, Self::Err>) {
        match ParseAllError::check(16, len) {
            Ok(()) => {},
            Err(e) => {
                return Err(e);
            },
        }
        let mut addr = [0u8;16];
        match parser.parse_buf(&mut addr) {
            Ok(()) => Ok(Self::new(addr)),
            Err(_) => Err(ParseAllError::ShortBuf),
        }
    }
}

impl Compose for Aaaa {
    open spec fn is_composed(&self, out: Seq<u8>) -> bool {
        out == self@
    }

    open spec fn composed_len(&self) -> nat {
        16
    }

    proof fn lemma_composed_len(&self, out: Seq<u8>) {
    }

    fn compose_len(&self) -> (n: usize) {
        16
    }

    fn compose<T: ComposeTarget>(&self, target: &mut T) {
        target.append_slice(array_as_slice(&self.addr));
        proof {
            let before = old(target).written();
            let after = target.written();
            assert(after.subrange(0, before.len() as int) =~= before);
            assert(after.subrange(before.len() as int, after.len() as int) =~= self@);
        }
    }
}

impl RtypeRecordData for Aaaa {
    const RTYPE: Rtype = Rtype::Aaaa;
}

} // verus!

//! The option of RFC 7828: how long to keep a TCP connection.

use crate::compose::{compose_u16, u16_octets, u16_of, Compose, ComposeTarget};
use crate::iana::OptionCode;
use crate::message_builder::OptBuilder;
use crate::octets::Octets;
use crate::opt::CodeOptData;
use crate::parse::{ParseAll, ParseAllError, Parser, ShortBuf};
use bytes::Bytes;
use vstd::prelude::*;

verus! {

/// The time for which an idle TCP connection is kept, in units of 100
/// milliseconds.
#[derive(Clone, Copy, Debug, Eq, Hash, Ord, PartialEq, PartialOrd, Structural)]
pub struct TcpKeepalive(u16);

impl View for TcpKeepalive {
    type V = u16;

    closed spec fn view(&self) -> u16 {
        self.0
    }
}

impl TcpKeepalive {
    /// The option for the given time.
    pub fn new(timeout: u16) -> (r: Self)
        ensures
            r@ == timeout,
    {
        TcpKeepalive(timeout)
    }

    /// Adds the option for the given time to the options in `builder`,
    /// if there is room for its six octets.
    pub fn push(builder: &mut OptBuilder, timeout: u16) -> (r: Result<(), ShortBuf>)
        ensures
            r is Ok <==> old(builder)@.len() + 6 <= 65535,
            r is Err ==> final(builder)@ == old(builder)@,
            r is Ok ==> final(builder)@ == old(builder)@ + u16_octets(11) + u16_octets(2)
                + u16_octets(timeout),
    {
        let option = Self::new(timeout);
        let r = builder.push::<Bytes, TcpKeepalive>(&option);
        proof {
            if r is Ok {
                let start = old(builder)@.len() as int;
                let out = builder@;
                assert(out =~= out.subrange(0, start) + out.subrange(start, start + 2)
                    + out.subrange(start + 2, start + 4) + out.subrange(
                    start + 4,
                    out.len() as int,
                ));
            }
        }
        r
    }

    /// The time.
    pub fn timeout(self) -> (r: u16)
        ensures
            r == self@,
    {
        self.0
    }
}

impl<O: Octets> ParseAll<O> for TcpKeepalive {
    type Err = ParseAllError;

    open spec fn parsed_all(rest: Seq<u8>, len: usize, r: Result<Self, Self::Err>) -> bool {
        if len < 2 {
            r == Err::<Self, ParseAllError>(ParseAllError::ShortField)
        } else if len > 2 {
            r == Err::<Self, ParseAllError>(ParseAllError::TrailingData)
        } else if rest.len() < 2 {
            r == Err::<Self, ParseAllError>(ParseAllError::ShortBuf)
        } else {
            r matches Ok(value) && value@ == u16_of(rest[0], rest[1])
        }
    }

    fn parse_all(parser: &mut Parser<O>, len: usize) -> (r: Result<Self, Self::Err>) {
        match u16::parse_all(parser, len) {
            Ok(timeout) => Ok(Self::new(timeout)),
            Err(e) => Err(e),
        }
    }
}

impl Compose for TcpKeepalive {
    open spec fn is_composed(&self, out: Seq<u8>) -> bool {
        out == u16_octets(self@)
    }

    open spec fn composed_len(&self) -> nat {
        2
    }

    proof fn lemma_composed_len(&self, out: Seq<u8>) {
    }

    fn compose_len(&self) -> (n: usize) {
        2
    }

    fn compose<T: ComposeTarget>(&self, target: &mut T) {
        compose_u16(target, self.0);
        proof {
            let before = old(target).written();
            let after = target.written();
            assert(after.subrange(0, before.len() as int) =~= before);
            assert(after.subrange(before.len() as int, after.len() as int) =~= u16_octets(self@));
        }
    }
}

impl CodeOptData for TcpKeepalive {
    const CODE: OptionCode = OptionCode::TcpKeepalive;
}

} // verus!

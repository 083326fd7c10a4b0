//! The option of RFC 7873: cookies.

use crate::compose::{u16_octets, Compose, ComposeTarget};
use crate::iana::OptionCode;
use crate::message_builder::OptBuilder;
use crate::octets::Octets;
use crate::opt::CodeOptData;
use crate::parse::{ParseAll, ParseAllError, Parser, ShortBuf};
use bytes::Bytes;
use vstd::array::array_as_slice;
use vstd::prelude::*;

verus! {

/// A client cookie: eight octets.
#[derive(Clone, Copy, Debug, Eq, Hash, Ord, PartialEq, PartialOrd)]
pub struct Cookie([u8; 8]);

impl View for Cookie {
    type V = Seq<u8>;

    closed spec fn view(&self) -> Seq<u8> {
        self.0@
    }
}

impl Cookie {
    /// The option with the given cookie.
    pub fn new(cookie: [u8; 8]) -> (r: Self)
        ensures
            r@ == cookie@,
    {
        Cookie(cookie)
    }

    /// Adds the option with the given cookie to the options in `builder`,
    /// if there is room for its twelve octets.
    pub fn push(builder: &mut OptBuilder, cookie: [u8; 8]) -> (r: Result<(), ShortBuf>)
        ensures
            r is Ok <==> old(builder)@.len() + 12 <= 65535,
            r is Err ==> final(builder)@ == old(builder)@,
            r is Ok ==> final(builder)@ == old(builder)@ + u16_octets(10) + u16_octets(8)
                + cookie@,
    {
        let option = Self::new(cookie);
        let r = builder.push::<Bytes, Cookie>(&option);
        proof {
            if r is Ok {
                let start = old(builder)@.len() as int;
                let out = builder@;
                assert(out =~= out.subrange(0, start) + out.subrange(start, start + 2)
                    + out.subrange(start + 2, start + 4) + out.subrange(
                    start + 4,
                    out.len() as int,
                ));
            }
        }
        r
    }

    /// The cookie.
    pub fn cookie(&self) -> (r: &[u8; 8])
        ensures
            r@ == self@,
    {
        &self.0
    }
}

impl<O: Octets> ParseAll<O> for Cookie {
    type Err = ParseAllError;

    open spec fn parsed_all(rest: Seq<u8>, len: usize, r: Result<Self, Self::Err>) -> bool {
        if len < 8 {
            r == Err::<Self, ParseAllError>(ParseAllError::ShortField)
        } else if len > 8 {
            r == Err::<Self, ParseAllError>(ParseAllError::TrailingData)
        } else if rest.len() < 8 {
            r == Err::<Self, ParseAllError>(ParseAllError::ShortBuf)
        } else {
            r matches Ok(value) && value@ == rest.take(8)
        }
    }

    fn parse_all(parser: &mut Parser<O>, len: usize) -> (r: Result<Self, Self::Err>) {
        match ParseAllError::check(8, len) {
            Ok(()) => {},
            Err(e) => {
                return Err(e);
            },
        }
        let mut res = [0u8;8];
        match parser.parse_buf(&mut res) {
            Ok(()) => {},
            Err(_) => {
                return Err(ParseAllError::ShortBuf);
            },
        }
        Ok(Self::new(res))
    }
}

impl Compose for Cookie {
    open spec fn is_composed(&self, out: Seq<u8>) -> bool {
        out == self@
    }

    open spec fn composed_len(&self) -> nat {
        8
    }

    proof fn lemma_composed_len(&self, out: Seq<u8>) {
    }

    fn compose_len(&self) -> (n: usize) {
        8
    }

    fn compose<T: ComposeTarget>(&self, target: &mut T) {
        target.append_slice(array_as_slice(&self.0));
        proof {
            let before = old(target).written();
            let after = target.written();
            assert(after.subrange(0, before.len() as int) =~= before);
            assert(after.subrange(before.len() as int, after.len() as int) =~= self@);
        }
    }
}

impl CodeOptData for Cookie {
    const CODE: OptionCode = OptionCode::Cookie;
}

} // verus!

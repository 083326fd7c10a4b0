//! The option of RFC 7871: the subnet of the client.

use crate::compose::{compose_u16, compose_u8, u16_octets, u16_of, Compose, ComposeTarget};
use crate::iana::OptionCode;
use crate::message_builder::OptBuilder;
use crate::octets::Octets;
use crate::opt::CodeOptData;
use crate::parse::{ParseAll, Parser, ShortBuf};
use bytes::Bytes;
use vstd::array::array_as_slice;
use vstd::prelude::*;

verus! {

/// An address of one of the two families that the option knows.
#[derive(Clone, Copy, Debug, Eq, Hash, Ord, PartialEq, PartialOrd)]
pub enum SubnetAddr {
    /// An IPv4 address: family 1.
    V4([u8; 4]),
    /// An IPv6 address: family 2.
    V6([u8; 16]),
}

impl SubnetAddr {
    /// The octets of the address.
    pub open spec fn octets(self) -> Seq<u8> {
        match self {
            SubnetAddr::V4(a) => a@,
            SubnetAddr::V6(a) => a@,
        }
    }

    /// The number of the family of the address.
    pub open spec fn family(self) -> u16 {
        match self {
            SubnetAddr::V4(_) => 1,
            SubnetAddr::V6(_) => 2,
        }
    }
}

/// Why no client subnet could be read.
#[derive(Clone, Copy, Debug, Eq, PartialEq, Structural)]
pub enum OptionParseError {
    /// The address family is neither 1 nor 2.
    InvalidFamily(u16),
    /// The option holds an IPv4 address and is not eight octets long.
    InvalidV4Length(usize),
    /// The option holds an IPv6 address and is not twenty octets long.
    InvalidV6Length(usize),
    /// The data ended before the option did.
    ShortBuf,
}

impl From<ShortBuf> for OptionParseError {
    fn from(err: ShortBuf) -> (r: Self) {
        OptionParseError::ShortBuf
    }
}

impl vstd::std_specs::convert::FromSpecImpl<ShortBuf> for OptionParseError {
    open spec fn obeys_from_spec() -> bool {
        true
    }

    open spec fn from_spec(err: ShortBuf) -> Self {
        OptionParseError::ShortBuf
    }
}

/// The subnet that a query came from.
#[derive(Clone, Copy, Debug, Eq, Hash, Ord, PartialEq, PartialOrd)]
pub struct ClientSubnet {
    source_prefix_len: u8,
    scope_prefix_len: u8,
    addr: SubnetAddr,
}

impl View for ClientSubnet {
    type V = (u8, u8, SubnetAddr);

    closed spec fn view(&self) -> (u8, u8, SubnetAddr) {
        (self.source_prefix_len, self.scope_prefix_len, self.addr)
    }
}

/// The wire format of a client subnet: the family, the two prefix
/// lengths, and the address.
pub open spec fn subnet_octets(source: u8, scope: u8, addr: SubnetAddr) -> Seq<u8> {
    u16_octets(addr.family()) + seq![source, scope] + addr.octets()
}

impl ClientSubnet {
    /// The option for the given prefix lengths and address.
    pub fn new(source_prefix_len: u8, scope_prefix_len: u8, addr: SubnetAddr) -> (r: ClientSubnet)
        ensures
            r@ == (source_prefix_len, scope_prefix_len, addr),
    {
        ClientSubnet { source_prefix_len, scope_prefix_len, addr }
    }

    /// Adds the option for the given prefix lengths and address to the
    /// options in `builder`, if there is room for it.
    pub fn push(
        builder: &mut OptBuilder,
        source_prefix_len: u8,
        scope_prefix_len: u8,
        addr: SubnetAddr,
    ) -> (r: Result<(), ShortBuf>)
        ensures
            r is Ok <==> old(builder)@.len() + 8 + addr.octets().len() <= 65535,
            r is Err ==> final(builder)@ == old(builder)@,
            r is Ok ==> final(builder)@ == old(builder)@ + u16_octets(8) + u16_octets(
                (4 + addr.octets().len()) as u16,
            ) + subnet_octets(source_prefix_len, scope_prefix_len, addr),
    {
        let option = Self::new(source_prefix_len, scope_prefix_len, addr);
        let r = builder.push::<Bytes, ClientSubnet>(&option);
        proof {
            if r is Ok {
                let start = old(builder)@.len() as int;
                let out = builder@;
                assert(out =~= out.subrange(0, start) + out.subrange(start, start + 2)
                    + out.subrange(start + 2, start + 4) + out.subrange(
                    start + 4,
                    out.len() as int,
                ));
            }
        }
        r
    }

    /// The number of bits of the address that the client sent.
    pub fn source_prefix_len(&self) -> (r: u8)
        ensures
            r == self@.0,
    {
        self.source_prefix_len
    }

    /// The number of bits of the address that the answer holds for.
    pub fn scope_prefix_len(&self) -> (r: u8)
        ensures
            r == self@.1,
    {
        self.scope_prefix_len
    }

    /// The address.
    pub fn addr(&self) -> (r: SubnetAddr)
        ensures
            r == self@.2,
    {
        self.addr
    }
}

impl<O: Octets> ParseAll<O> for ClientSubnet {
    type Err = OptionParseError;

    open spec fn parsed_all(rest: Seq<u8>, len: usize, r: Result<Self, Self::Err>) -> bool {
        if rest.len() < 4 {
            r == Err::<Self, OptionParseError>(OptionParseError::ShortBuf)
        } else {
            let family = u16_of(rest[0], rest[1]);
            if family == 1 {
                if len != 8 {
                    r == Err::<Self, OptionParseError>(OptionParseError::InvalidV4Length(len))
                } else if rest.len() < 8 {
                    r == Err::<Self, OptionParseError>(OptionParseError::ShortBuf)
                } else {
                    &&& r matches Ok(value)
                    &&& value@.0 == rest[2]
                    &&& value@.1 == rest[3]
                    &&& value@.2 is V4
                    &&& value@.2.octets() == rest.subrange(4, 8)
                }
            } else if family == 2 {
                if len != 20 {
                    r == Err::<Self, OptionParseError>(OptionParseError::InvalidV6Length(len))
                } else if rest.len() < 20 {
                    r == Err::<Self, OptionParseError>(OptionParseError::ShortBuf)
                } else {
                    &&& r matches Ok(value)
                    &&& value@.0 == rest[2]
                    &&& value@.1 == rest[3]
                    &&& value@.2 is V6
                    &&& value@.2.octets() == rest.subrange(4, 20)
                }
            } else {
                r == Err::<Self, OptionParseError>(OptionParseError::InvalidFamily(family))
            }
        }
    }

    fn parse_all(parser: &mut Parser<O>, len: usize) -> (r: Result<Self, Self::Err>) {
        let ghost rest = parser.rest();
        let left = parser.remaining();
        let family = match parser.parse_u16() {
            Ok(family) => family,
            Err(e) => {
                return Err(OptionParseError::from(e));
            },
        };
        proof {
            assert(parser.rest() =~= rest.skip(2));
        }
        let source_prefix_len = match parser.parse_u8() {
            Ok(value) => value,
            Err(e) => {
                return Err(OptionParseError::from(e));
            },
        };
        proof {
            assert(parser.rest() =~= rest.skip(3));
        }
        let scope_prefix_len = match parser.parse_u8() {
            Ok(value) => value,
            Err(e) => {
                return Err(OptionParseError::from(e));
            },
        };
        proof {
            assert(parser.rest() =~= rest.skip(4));
        }
        let addr = match family {
            1 => {
                if len != 8 {
                    return Err(OptionParseError::InvalidV4Length(len));
                }
                let mut bytes = [0u8;4];
                match parser.parse_buf(&mut bytes) {
                    Ok(()) => {},
                    Err(e) => {
                        return Err(OptionParseError::from(e));
                    },
                }
                proof {
                    assert(bytes@ =~= rest.subrange(4, 8));
                }
                SubnetAddr::V4(bytes)
            },
            2 => {
                if len != 20 {
                    return Err(OptionParseError::InvalidV6Length(len));
                }
                let mut bytes = [0u8;16];
                match parser.parse_buf(&mut bytes) {
                    Ok(()) => {},
                    Err(e) => {
                        return Err(OptionParseError::from(e));
                    },
                }
                proof {
                    assert(bytes@ =~= rest.subrange(4, 20));
                }
                SubnetAddr::V6(bytes)
            },
            _ => {
                return Err(OptionParseError::InvalidFamily(family));
            },
        };
        Ok(ClientSubnet::new(source_prefix_len, scope_prefix_len, addr))
    }
}

impl Compose for ClientSubnet {
    open spec fn is_composed(&self, out: Seq<u8>) -> bool {
        out == subnet_octets(self@.0, self@.1, self@.2)
    }

    open spec fn composed_len(&self) -> nat {
        4 + self@.2.octets().len()
    }

    proof fn lemma_composed_len(&self, out: Seq<u8>) {
    }

    fn compose_len(&self) -> (n: usize) {
        match self.addr {
            SubnetAddr::V4(_) => 8,
            SubnetAddr::V6(_) => 20,
        }
    }

    fn compose<T: ComposeTarget>(&self, target: &mut T) {
        match self.addr {
            SubnetAddr::V4(addr) => {
                compose_u16(target, 1);
                compose_u8(target, self.source_prefix_len);
                compose_u8(target, self.scope_prefix_len);
                target.append_slice(array_as_slice(&addr));
            },
            SubnetAddr::V6(addr) => {
                compose_u16(target, 2);
                compose_u8(target, self.source_prefix_len);
                compose_u8(target, self.scope_prefix_len);
                target.append_slice(array_as_slice(&addr));
            },
        }
        proof {
            let before = old(target).written();
            let after = target.written();
            assert(after.subrange(0, before.len() as int) =~= before);
            assert(after.subrange(before.len() as int, after.len() as int) =~= subnet_octets(
                self@.0,
                self@.1,
                self@.2,
            ));
        }
    }
}

impl CodeOptData for ClientSubnet {
    const CODE: OptionCode = OptionCode::ClientSubnet;
}

} // verus!

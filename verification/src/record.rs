//! Resource records.

use crate::compose::u16_of;
use crate::dname::{leading_name, Dname, DnameError};
use crate::iana::{Class, Rtype};
use crate::octets::Octets;
use crate::parse::{Parse, ParseAll, Parser, ShortBuf};
use vstd::prelude::*;

verus! {

/// A resource record: the name that owns it, its class, how long it may
/// be kept, and its data.
#[derive(Debug)]
pub struct Record<N, D> {
    owner: N,
    class: Class,
    ttl: u32,
    data: D,
}

impl<N, D> Record<N, D> {
    /// The name that owns the record, as a value of its own.
    pub closed spec fn owner_spec(&self) -> N {
        self.owner
    }

    /// The class of the record, as a value of its own.
    pub closed spec fn class_spec(&self) -> Class {
        self.class
    }

    /// The time to live of the record, as a value of its own.
    pub closed spec fn ttl_spec(&self) -> u32 {
        self.ttl
    }

    /// The data of the record, as a value of its own.
    pub closed spec fn data_spec(&self) -> D {
        self.data
    }

    /// Makes a record of its parts.
    pub fn new(owner: N, class: Class, ttl: u32, data: D) -> (r: Self)
        ensures
            r.owner_spec() == owner,
            r.class_spec() == class,
            r.ttl_spec() == ttl,
            r.data_spec() == data,
    {
        Record { owner, class, ttl, data }
    }

    /// The name that owns the record.
    pub fn owner(&self) -> (r: &N)
        ensures
            *r == self.owner_spec(),
    {
        &self.owner
    }

    /// The class of the record.
    pub fn class(&self) -> (r: Class)
        ensures
            r == self.class_spec(),
    {
        self.class
    }

    /// The time to live of the record.
    pub fn ttl(&self) -> (r: u32)
        ensures
            r == self.ttl_spec(),
    {
        self.ttl
    }

    /// The data of the record.
    pub fn data(&self) -> (r: &D)
        ensures
            *r == self.data_spec(),
    {
        &self.data
    }

    /// Gives up the record for its data.
    pub fn into_data(self) -> (r: D)
        ensures
            r == self.data_spec(),
    {
        self.data
    }
}

/// Record data of one record type.
pub trait RtypeRecordData {
    /// The type of the records that hold such data.
    const RTYPE: Rtype;
}

/// Why no record could be read.
#[derive(Clone, Copy, Debug, PartialEq, Eq, Structural)]
pub enum RecordError {
    /// The name that owns the record is no absolute name.
    Name(DnameError),
    /// The data ended before the record did.
    ShortBuf,
}

/// The number that four octets stand for in network byte order.
pub open spec fn u32_of(a: u8, b: u8, c: u8, d: u8) -> u32 {
    (a * 16777216 + b * 65536 + c * 256 + d) as u32
}

/// A record that was read from wire data, with its data still unread.
#[derive(Debug)]
pub struct ParsedRecord<O: Octets> {
    owner: Dname<O>,
    rtype: Rtype,
    class: Class,
    ttl: u32,
    data: O,
}

impl<O: Octets> ParsedRecord<O> {
    /// The name that owns the record, as a value of its own.
    pub closed spec fn owner_spec(&self) -> Dname<O> {
        self.owner
    }

    /// The number of the type of the record.
    pub closed spec fn rtype_number(&self) -> u16 {
        self.rtype.number()
    }

    /// The number of the class of the record.
    pub closed spec fn class_number(&self) -> u16 {
        self.class.number()
    }

    /// The time to live of the record, as a value of its own.
    pub closed spec fn ttl_spec(&self) -> u32 {
        self.ttl
    }

    /// The octets of the data of the record.
    pub closed spec fn data_octets(&self) -> Seq<u8> {
        self.data.content()
    }

    /// Reads one record from where the parser stands: an absolute name,
    /// then type, class, time to live and the length of the data in ten
    /// octets, then the data.
    pub fn parse(parser: &mut Parser<O>) -> (r: Result<Self, RecordError>)
        ensures
            final(parser).content() == old(parser).content(),
            match leading_name(old(parser).rest()) {
                Err(e) => r == Err::<Self, RecordError>(RecordError::Name(e)),
                Ok(n) => {
                    let fixed = old(parser).rest().skip(n);
                    if fixed.len() < 10 || fixed.len() < 10 + u16_of(fixed[8], fixed[9]) {
                        r == Err::<Self, RecordError>(RecordError::ShortBuf)
                    } else {
                        &&& r matches Ok(record)
                        &&& record.owner_spec()@ == old(parser).rest().take(n)
                        &&& record.rtype_number() == u16_of(fixed[0], fixed[1])
                        &&& record.class_number() == u16_of(fixed[2], fixed[3])
                        &&& record.ttl_spec() == u32_of(fixed[4], fixed[5], fixed[6], fixed[7])
                        &&& record.data_octets() == fixed.subrange(
                            10,
                            10 + u16_of(fixed[8], fixed[9]),
                        )
                        &&& final(parser).position() == old(parser).position() + n + 10 + u16_of(
                            fixed[8],
                            fixed[9],
                        )
                    }
                },
            },
    {
        let before = parser.remaining();
        let owner = match Dname::parse(parser) {
            Ok(owner) => owner,
            Err(e) => {
                return Err(RecordError::Name(e));
            },
        };
        let ghost fixed = parser.rest();
        let left = parser.remaining();
        proof {
            assert(fixed =~= old(parser).rest().skip(owner@.len() as int));
        }
        if left < 10 {
            return Err(RecordError::ShortBuf);
        }
        let head = parser.peek_all();
        let len = head[8] as usize * 256 + head[9] as usize;
        if parser.remaining() < 10 + len {
            return Err(RecordError::ShortBuf);
        }
        let rtype = Rtype::from_int(parser.parse_u16().unwrap());
        let class = Class::from_int(parser.parse_u16().unwrap());
        let high = parser.parse_u16().unwrap();
        let low = parser.parse_u16().unwrap();
        let ttl: u32 = high as u32 * 65536 + low as u32;
        let rdlen = parser.parse_u16().unwrap();
        let data = parser.parse_octets(rdlen as usize).unwrap();
        proof {
            assert(data.content() =~= fixed.subrange(10, 10 + u16_of(fixed[8], fixed[9])));
        }
        Ok(ParsedRecord { owner, rtype, class, ttl, data })
    }

    /// The type of the record.
    pub fn rtype(&self) -> (r: Rtype)
        ensures
            r.number() == self.rtype_number(),
    {
        self.rtype
    }

    /// Reads the data of the record as data of type `D`, if the record is
    /// of the type that holds such data.
    pub fn into_record<D: RtypeRecordData + ParseAll<O>>(self) -> (r: Result<
        Option<Record<Dname<O>, D>>,
        D::Err,
    >)
        ensures
            self.rtype_number() != D::RTYPE.number() ==> r matches Ok(None),
            self.rtype_number() == D::RTYPE.number() ==> match r {
                Ok(Some(record)) => {
                    &&& record.owner_spec() == self.owner_spec()
                    &&& record.class_spec().number() == self.class_number()
                    &&& record.ttl_spec() == self.ttl_spec()
                    &&& D::parsed_all(
                        self.data_octets(),
                        self.data_octets().len() as usize,
                        Ok(record.data_spec()),
                    )
                },
                Ok(None) => false,
                Err(e) => D::parsed_all(
                    self.data_octets(),
                    self.data_octets().len() as usize,
                    Err(e),
                ),
            },
    {
        if self.rtype != D::RTYPE {
            return Ok(None);
        }
        let len = self.data.len();
        let mut parser = Parser::from_octets(self.data);
        proof {
            assert(parser.rest() =~= self.data_octets());
        }
        match D::parse_all(&mut parser, len) {
            Ok(data) => Ok(Some(Record::new(self.owner, self.class, self.ttl, data))),
            Err(e) => Err(e),
        }
    }
}

} // verus!

//! Record data for OPT records.
//!
//! An OPT record carries a sequence of options in its data. Each option
//! is a code of two octets, the length of its data in two octets, and the
//! data. The record's class and time to live carry other things than
//! their names say.

use crate::compose::{compose_u16, u16_octets, u16_of, Compose, ComposeTarget};
use crate::header::Header;
use crate::iana::{OptRcode, OptionCode, Rtype};
use crate::octets::Octets;
use crate::parse::{Parse, ParseAll, Parser, ShortBuf};
use crate::record::{Record, RtypeRecordData};
use crate::traits::ToDname;
use core::marker::PhantomData;
use vstd::array::array_as_slice;
use vstd::prelude::*;
use vstd::std_specs::cmp::PartialEqSpecImpl;

pub mod rfc6975;
pub mod rfc7828;
pub mod rfc7830;
pub mod rfc7871;
pub mod rfc7873;

verus! {

/// The code of the option that `s` starts with.
pub open spec fn option_code(s: Seq<u8>) -> u16 {
    u16_of(s[0], s[1])
}

/// The length of the data of the option that `s` starts with.
pub open spec fn option_len(s: Seq<u8>) -> int {
    u16_of(s[2], s[3]) as int
}

/// Whether `s` starts with a complete option.
pub open spec fn has_option(s: Seq<u8>) -> bool {
    s.len() >= 4 && 4 + option_len(s) <= s.len()
}

/// The data of the option that `s` starts with.
pub open spec fn option_data(s: Seq<u8>) -> Seq<u8> {
    s.subrange(4, 4 + option_len(s))
}

/// What follows the option that `s` starts with.
pub open spec fn option_rest(s: Seq<u8>) -> Seq<u8> {
    s.skip(4 + option_len(s))
}

/// Whether `s` is a sequence of complete options.
pub open spec fn is_option_seq(s: Seq<u8>) -> bool
    decreases s.len(),
{
    s.len() == 0 || (has_option(s) && is_option_seq(option_rest(s)))
}

/// The number of options in `s`.
pub open spec fn option_count(s: Seq<u8>) -> nat
    decreases s.len(),
{
    if has_option(s) {
        1 + option_count(option_rest(s))
    } else {
        0
    }
}

/// A sequence of options with one more option behind it is a sequence of
/// options.
pub proof fn lemma_option_seq_push(s: Seq<u8>, code: u16, data: Seq<u8>)
    requires
        is_option_seq(s),
        data.len() <= 65535,
    ensures
        is_option_seq(s + u16_octets(code) + u16_octets(data.len() as u16) + data),
    decreases s.len(),
{
    let one = u16_octets(code) + u16_octets(data.len() as u16) + data;
    let all = s + u16_octets(code) + u16_octets(data.len() as u16) + data;
    assert(all =~= s + one);
    if s.len() == 0 {
        assert(all =~= one);
        assert(one[2] == u16_octets(data.len() as u16)[0]);
        assert(one[3] == u16_octets(data.len() as u16)[1]);
        assert(option_len(one) == data.len());
        assert(has_option(one));
        assert(option_rest(one) =~= Seq::<u8>::empty());
        assert(is_option_seq(option_rest(one)));
    } else {
        lemma_option_seq_push(option_rest(s), code, data);
        assert(all[2] == s[2] && all[3] == s[3]);
        assert(option_len(all) == option_len(s));
        assert(has_option(all));
        assert(option_rest(all) =~= option_rest(s) + u16_octets(code) + u16_octets(
            data.len() as u16,
        ) + data);
    }
}

/// Whether two slices hold the same octets.
pub fn same_octets(a: &[u8], b: &[u8]) -> (r: bool)
    ensures
        r <==> a@ == b@,
{
    if a.len() != b.len() {
        return false;
    }
    let mut i: usize = 0;
    while i < a.len()
        invariant
            i <= a@.len(),
            a@.len() == b@.len(),
            forall|k: int| 0 <= k < i ==> a@[k] == b@[k],
        decreases a@.len() - i,
    {
        if a[i] != b[i] {
            return false;
        }
        i = i + 1;
    }
    assert(a@ =~= b@);
    true
}

/// The data of an OPT record: a sequence of options.
#[derive(Debug)]
pub struct Opt<O: Octets> {
    octets: O,
}

impl<O: Octets> View for Opt<O> {
    type V = Seq<u8>;

    closed spec fn view(&self) -> Seq<u8> {
        self.octets.content()
    }
}

impl<O: Octets> Opt<O> {
    /// Whether the octets held are a sequence of complete options. In
    /// every value that exists while the program runs they are.
    pub open spec fn wf(&self) -> bool {
        is_option_seq(self@)
    }

    #[verifier::type_invariant]
    spec fn inv(&self) -> bool {
        self.wf()
    }

    /// Makes record data of octets, if they are a sequence of complete
    /// options. What the options hold is not looked at.
    pub fn from_octets(octets: O) -> (r: Result<Self, ShortBuf>)
        ensures
            r is Ok <==> is_option_seq(octets.content()),
            r matches Ok(opt) ==> opt@ == octets.content(),
    {
        let mut parser = Parser::from_octets(octets);
        proof {
            assert(parser.rest() =~= octets.content());
        }
        while parser.remaining() > 0
            invariant
                parser.content() == octets.content(),
                parser.wf(),
                is_option_seq(octets.content()) <==> is_option_seq(parser.rest()),
            decreases parser.rest().len(),
        {
            let ghost rest = parser.rest();
            match parser.advance(2) {
                Ok(()) => {},
                Err(e) => {
                    return Err(e);
                },
            }
            let len = match parser.parse_u16() {
                Ok(len) => len,
                Err(e) => {
                    return Err(e);
                },
            };
            match parser.advance(len as usize) {
                Ok(()) => {},
                Err(e) => {
                    return Err(e);
                },
            }
            proof {
                assert(parser.rest() =~= option_rest(rest));
            }
        }
        let octets = parser.into_octets();
        Ok(Opt { octets })
    }

    /// The octets of the options.
    pub fn as_slice(&self) -> (r: &[u8])
        ensures
            r@ == self@,
            is_option_seq(self@),
    {
        proof {
            use_type_invariant(self);
        }
        self.octets.as_slice()
    }

    /// A walk over the options that data of type `D` can be read from.
    /// The other options are passed over.
    pub fn iter<D: OptData<O>>(&self) -> (r: OptIter<O, D>)
        ensures
            r.rest() == self@,
    {
        proof {
            use_type_invariant(self);
        }
        let octets = self.octets.duplicate();
        OptIter::new(octets)
    }
}

impl<O: Octets> Clone for Opt<O> {
    fn clone(&self) -> (r: Self)
        ensures
            r@ == self@,
    {
        proof {
            use_type_invariant(self);
        }
        let octets = self.octets.duplicate();
        Opt { octets }
    }
}

impl<O: Octets, Other: Octets> PartialEq<Opt<Other>> for Opt<O> {
    fn eq(&self, other: &Opt<Other>) -> (r: bool) {
        same_octets(self.octets.as_slice(), other.octets.as_slice())
    }
}

impl<O: Octets, Other: Octets> PartialEqSpecImpl<Opt<Other>> for Opt<O> {
    open spec fn obeys_eq_spec() -> bool {
        true
    }

    open spec fn eq_spec(&self, other: &Opt<Other>) -> bool {
        self@ == other@
    }
}

impl<O: Octets> Eq for Opt<O> {

}

impl<O: Octets> ParseAll<O> for Opt<O> {
    type Err = ShortBuf;

    open spec fn parsed_all(rest: Seq<u8>, len: usize, r: Result<Self, Self::Err>) -> bool {
        &&& r is Ok <==> len <= rest.len() && is_option_seq(rest.take(len as int))
        &&& r matches Ok(opt) ==> opt@ == rest.take(len as int)
    }

    fn parse_all(parser: &mut Parser<O>, len: usize) -> (r: Result<Self, Self::Err>) {
        match parser.parse_octets(len) {
            Ok(octets) => Self::from_octets(octets),
            Err(e) => Err(e),
        }
    }
}

impl<O: Octets> Compose for Opt<O> {
    open spec fn is_composed(&self, out: Seq<u8>) -> bool {
        out == self@
    }

    open spec fn composed_len(&self) -> nat {
        self@.len()
    }

    proof fn lemma_composed_len(&self, out: Seq<u8>) {
    }

    fn compose_len(&self) -> (n: usize) {
        self.octets.len()
    }

    fn compose<T: ComposeTarget>(&self, target: &mut T) {
        target.append_slice(self.octets.as_slice());
        proof {
            let before = old(target).written();
            let after = target.written();
            assert(after.subrange(0, before.len() as int) =~= before);
            assert(after.subrange(before.len() as int, after.len() as int) =~= self@);
        }
    }
}

impl<O: Octets> RtypeRecordData for Opt<O> {
    const RTYPE: Rtype = Rtype::Opt;
}

/// The header of an OPT record: all of a record's header but the length
/// of its data.
///
/// The first octet is the name of the root, the next two are the record
/// type, the next two are the largest UDP payload that the sender takes,
/// then come the upper eight bits of the response code, the EDNS version
/// and two octets of flags.
#[derive(Clone, Copy, Debug)]
pub struct OptHeader {
    inner: [u8; 9],
}

impl View for OptHeader {
    type V = Seq<u8>;

    closed spec fn view(&self) -> Seq<u8> {
        self.inner@
    }
}

impl OptHeader {
    /// The header that the first nine octets of `slice` are.
    pub fn for_record_slice(slice: &[u8]) -> (r: OptHeader)
        requires
            slice@.len() >= 9,
        ensures
            r@ == slice@.take(9),
    {
        let r = OptHeader {
            inner: [
                slice[0],
                slice[1],
                slice[2],
                slice[3],
                slice[4],
                slice[5],
                slice[6],
                slice[7],
                slice[8],
            ],
        };
        assert(r@ =~= slice@.take(9));
        r
    }

    /// The nine octets of the header.
    pub fn as_slice(&self) -> (r: &[u8])
        ensures
            r@ == self@,
            r@.len() == 9,
    {
        array_as_slice(&self.inner)
    }

    /// The largest UDP payload that the sender takes.
    pub fn udp_payload_size(&self) -> (r: u16)
        ensures
            r == u16_of(self@[3], self@[4]),
    {
        self.inner[3] as u16 * 256 + self.inner[4] as u16
    }

    /// Sets the largest UDP payload that the sender takes.
    pub fn set_udp_payload_size(&mut self, value: u16)
        ensures
            final(self)@ == old(self)@.update(3, u16_octets(value)[0]).update(
                4,
                u16_octets(value)[1],
            ),
    {
        self.inner[3] = (value / 256) as u8;
        self.inner[4] = (value % 256) as u8;
    }

    /// The response code: its lower four bits come from the message
    /// header, its upper eight bits from this header.
    pub fn rcode(&self, header: Header) -> (r: OptRcode)
        ensures
            r == OptRcode::of_parts(header.rcode_spec(), self@[5]),
    {
        OptRcode::from_parts(header.rcode(), self.inner[5])
    }

    /// Sets the upper eight bits of the response code.
    pub fn set_rcode(&mut self, rcode: OptRcode)
        ensures
            final(self)@ == old(self)@.update(5, ((rcode.number() / 16) % 256) as u8),
    {
        self.inner[5] = rcode.ext()
    }

    /// The EDNS version.
    pub fn version(&self) -> (r: u8)
        ensures
            r == self@[6],
    {
        self.inner[6]
    }

    /// Sets the EDNS version.
    pub fn set_version(&mut self, version: u8)
        ensures
            final(self)@ == old(self)@.update(6, version),
    {
        self.inner[6] = version
    }

    /// Whether the sender takes DNSSEC records: the first bit of the
    /// flags.
    pub fn dnssec_ok(&self) -> (r: bool)
        ensures
            r <==> self@[7] >= 128,
    {
        let flags = self.inner[7];
        assert(flags & 0x80 != 0 <==> flags >= 128) by (bit_vector);
        flags & 0x80 != 0
    }

    /// Sets or clears the first bit of the flags and keeps the others.
    pub fn set_dnssec_ok(&mut self, value: bool)
        ensures
            final(self)@ == old(self)@.update(
                7,
                if value {
                    (old(self)@[7] % 128 + 128) as u8
                } else {
                    old(self)@[7] % 128
                },
            ),
    {
        let flags = self.inner[7];
        assert(flags | 0x80 == (flags % 128 + 128) as u8) by (bit_vector);
        assert(flags & 0x7F == flags % 128) by (bit_vector);
        if value {
            self.inner[7] = flags | 0x80
        } else {
            self.inner[7] = flags & 0x7F
        }
    }
}

impl Default for OptHeader {
    fn default() -> (r: Self)
        ensures
            r@ == seq![0u8, 0, 41, 0, 0, 0, 0, 0, 0],
    {
        let r = OptHeader { inner: [0, 0, 41, 0, 0, 0, 0, 0, 0] };
        assert(r@ =~= seq![0u8, 0, 41, 0, 0, 0, 0, 0, 0]);
        r
    }
}

impl Compose for OptHeader {
    open spec fn is_composed(&self, out: Seq<u8>) -> bool {
        out == self@
    }

    open spec fn composed_len(&self) -> nat {
        9
    }

    proof fn lemma_composed_len(&self, out: Seq<u8>) {
    }

    fn compose_len(&self) -> (n: usize) {
        9
    }

    fn compose<T: ComposeTarget>(&self, target: &mut T) {
        target.append_slice(array_as_slice(&self.inner));
        proof {
            let before = old(target).written();
            let after = target.written();
            assert(after.subrange(0, before.len() as int) =~= before);
            assert(after.subrange(before.len() as int, after.len() as int) =~= self@);
        }
    }
}

/// An entire OPT record: what its header says, and its options.
#[derive(Debug)]
pub struct OptRecord<O: Octets> {
    udp_payload_size: u16,
    ext_rcode: u8,
    version: u8,
    flags: u16,
    data: Opt<O>,
}

impl<O: Octets> OptRecord<O> {
    /// The options of the record, as a value of their own.
    pub closed spec fn opt(&self) -> Opt<O> {
        self.data
    }

    /// The time to live that a record with these values carries.
    pub closed spec fn ttl_bits(&self) -> int {
        self.ext_rcode * 16777216 + self.version * 65536 + self.flags
    }

    /// The largest UDP payload that the record announces, as a value of
    /// its own.
    pub closed spec fn payload_size(&self) -> u16 {
        self.udp_payload_size
    }

    /// Reads an OPT record out of a record with option data: the class
    /// is the largest UDP payload, and the time to live holds the upper
    /// eight bits of the response code, the version, and the flags.
    pub fn from_record<N: ToDname>(record: Record<N, Opt<O>>) -> (r: Self)
        ensures
            r.payload_size() == record.class_spec().number(),
            r.ttl_bits() == record.ttl_spec(),
            r.opt() == record.data_spec(),
    {
        let ttl = record.ttl();
        OptRecord {
            udp_payload_size: record.class().to_int(),
            ext_rcode: (ttl / 16777216) as u8,
            version: ((ttl / 65536) % 256) as u8,
            flags: (ttl % 65536) as u16,
            data: record.into_data(),
        }
    }

    /// The largest UDP payload that the sender takes.
    pub fn udp_payload_size(&self) -> (r: u16)
        ensures
            r == self.payload_size(),
    {
        self.udp_payload_size
    }

    /// The upper eight bits of the response code.
    pub fn ext_rcode(&self) -> (r: u8)
        ensures
            r == self.ttl_bits() / 16777216,
    {
        self.ext_rcode
    }

    /// The response code: its lower four bits come from the message
    /// header, its upper eight bits from this record.
    pub fn rcode(&self, header: Header) -> (r: OptRcode)
        ensures
            r == OptRcode::of_parts(header.rcode_spec(), (self.ttl_bits() / 16777216) as u8),
    {
        OptRcode::from_parts(header.rcode(), self.ext_rcode)
    }

    /// The EDNS version.
    pub fn version(&self) -> (r: u8)
        ensures
            r == (self.ttl_bits() / 65536) % 256,
    {
        self.version
    }

    /// Whether the sender takes DNSSEC records: the first bit of the
    /// flags.
    pub fn dnssec_ok(&self) -> (r: bool)
        ensures
            r <==> self.ttl_bits() % 65536 >= 32768,
    {
        let flags = self.flags;
        assert(flags & 0x8000 != 0 <==> flags >= 32768) by (bit_vector);
        flags & 0x8000 != 0
    }

    /// The options of the record.
    pub fn as_opt(&self) -> (r: &Opt<O>)
        ensures
            *r == self.opt(),
    {
        &self.data
    }
}

/// The first four octets of an option: its code and the length of its
/// data.
#[derive(Clone, Copy, Debug, PartialEq, Eq, Structural)]
pub struct OptionHeader {
    code: u16,
    len: u16,
}

impl View for OptionHeader {
    type V = (u16, u16);

    closed spec fn view(&self) -> (u16, u16) {
        (self.code, self.len)
    }
}

impl OptionHeader {
    /// The header of an option with the given code and length of data.
    pub fn new(code: u16, len: u16) -> (r: Self)
        ensures
            r@ == (code, len),
    {
        OptionHeader { code, len }
    }

    /// The code of the option.
    pub fn code(&self) -> (r: u16)
        ensures
            r == self@.0,
    {
        self.code
    }

    /// The length of the data of the option.
    pub fn len(&self) -> (r: u16)
        ensures
            r == self@.1,
    {
        self.len
    }
}

impl<O: Octets> Parse<O> for OptionHeader {
    type Err = ShortBuf;

    /// Reads the four octets of an option header.
    fn parse(parser: &mut Parser<O>) -> (r: Result<Self, Self::Err>)
        ensures
            r is Ok <==> old(parser).rest().len() >= 4,
            r matches Ok(header) ==> header@ == (
                option_code(old(parser).rest()),
                u16_of(old(parser).rest()[2], old(parser).rest()[3]),
            ) && final(parser).position() == old(parser).position() + 4,
            r is Err ==> final(parser).position() == old(parser).position(),
    {
        let ghost rest = parser.rest();
        if parser.remaining() < 4 {
            return Err(ShortBuf);
        }
        let code = parser.parse_u16().unwrap();
        proof {
            assert(parser.rest() =~= rest.skip(2));
        }
        let len = parser.parse_u16().unwrap();
        Ok(OptionHeader::new(code, len))
    }

    /// Reads over the four octets of an option header.
    fn skip(parser: &mut Parser<O>) -> (r: Result<(), Self::Err>)
        ensures
            r is Ok <==> old(parser).rest().len() >= 4,
            r is Ok ==> final(parser).position() == old(parser).position() + 4,
            r is Err ==> final(parser).position() == old(parser).position(),
    {
        parser.advance(4)
    }
}

impl Compose for OptionHeader {
    open spec fn is_composed(&self, out: Seq<u8>) -> bool {
        out == u16_octets(self@.0) + u16_octets(self@.1)
    }

    open spec fn composed_len(&self) -> nat {
        4
    }

    proof fn lemma_composed_len(&self, out: Seq<u8>) {
    }

    fn compose_len(&self) -> (n: usize) {
        4
    }

    fn compose<T: ComposeTarget>(&self, target: &mut T) {
        compose_u16(target, self.code);
        compose_u16(target, self.len);
        proof {
            let before = old(target).written();
            let after = target.written();
            assert(after.subrange(0, before.len() as int) =~= before);
            assert(after.subrange(before.len() as int, after.len() as int) =~= u16_octets(
                self@.0,
            ) + u16_octets(self@.1));
        }
    }
}

/// The data of one kind of option.
pub trait OptData<O: Octets>: Compose + Sized {
    /// Why reading the data can fail.
    type ParseErr;

    /// Whether reading the option with the given code and data can end
    /// with `r`: with data of this type, with nothing where the option is
    /// of another kind, or with an error.
    spec fn parses(code: OptionCode, data: Seq<u8>, r: Result<Option<Self>, Self::ParseErr>) -> bool;

    /// The code of the option that holds the data, as a value of its own.
    spec fn code_of(&self) -> OptionCode;

    /// The code of the option that holds the data.
    fn code(&self) -> (r: OptionCode)
        ensures
            r.number() == self.code_of().number(),
    ;

    /// Reads the data of an option with the given code from the next `len`
    /// octets, if the option is of this kind.
    fn parse_option(code: OptionCode, parser: &mut Parser<O>, len: usize) -> (r: Result<
        Option<Self>,
        Self::ParseErr,
    >)
        ensures
            final(parser).content() == old(parser).content(),
            final(parser).position() >= old(parser).position(),
            len == old(parser).rest().len() ==> Self::parses(code, old(parser).rest(), r),
    ;
}

/// Option data that belongs to one option code.
pub trait CodeOptData {
    /// The code of the option that holds such data.
    const CODE: OptionCode;
}

impl<O: Octets, T: CodeOptData + ParseAll<O> + Compose + Sized> OptData<O> for T {
    type ParseErr = <Self as ParseAll<O>>::Err;

    open spec fn parses(
        code: OptionCode,
        data: Seq<u8>,
        r: Result<Option<Self>, Self::ParseErr>,
    ) -> bool {
        if code.number() == Self::CODE.number() {
            match r {
                Ok(Some(value)) => Self::parsed_all(data, data.len() as usize, Ok(value)),
                Ok(None) => false,
                Err(e) => Self::parsed_all(data, data.len() as usize, Err(e)),
            }
        } else {
            r matches Ok(None)
        }
    }

    open spec fn code_of(&self) -> OptionCode {
        Self::CODE
    }

    fn code(&self) -> (r: OptionCode) {
        Self::CODE
    }

    fn parse_option(code: OptionCode, parser: &mut Parser<O>, len: usize) -> (r: Result<
        Option<Self>,
        Self::ParseErr,
    >) {
        if code == Self::CODE {
            match Self::parse_all(parser, len) {
                Ok(value) => Ok(Some(value)),
                Err(e) => Err(e),
            }
        } else {
            Ok(None)
        }
    }
}

/// Whether a walk over the options in `s` that reads data of type `D` can
/// hand out `r` next and leave `after` unread.
pub open spec fn yields<O: Octets, D: OptData<O>>(
    s: Seq<u8>,
    r: Option<Result<D, D::ParseErr>>,
    after: Seq<u8>,
) -> bool
    decreases s.len(),
{
    if s.len() == 0 {
        r is None && after == s
    } else if !has_option(s) {
        false
    } else {
        ||| D::parses(OptionCode::of_number(option_code(s)), option_data(s), Ok(None)) && yields::<
            O,
            D,
        >(option_rest(s), r, after)
        ||| r matches Some(Ok(value)) && after == option_rest(s) && D::parses(
            OptionCode::of_number(option_code(s)),
            option_data(s),
            Ok(Some(value)),
        )
        ||| r matches Some(Err(e)) && after == option_rest(s) && D::parses(
            OptionCode::of_number(option_code(s)),
            option_data(s),
            Err(e),
        )
    }
}

/// A walk over the options of an OPT record that hands out those that
/// data of type `D` can be read from.
#[derive(Debug)]
pub struct OptIter<O: Octets, D: OptData<O>> {
    parser: Parser<O>,
    marker: PhantomData<D>,
}

impl<O: Octets, D: OptData<O>> OptIter<O, D> {
    /// The octets of the options that the walk has not come to yet.
    pub closed spec fn rest(&self) -> Seq<u8> {
        self.parser.rest()
    }

    #[verifier::type_invariant]
    spec fn inv(&self) -> bool {
        self.parser.wf() && is_option_seq(self.parser.rest())
    }

    /// A walk over the options in `octets`.
    pub(crate) fn new(octets: O) -> (r: Self)
        requires
            is_option_seq(octets.content()),
        ensures
            r.rest() == octets.content(),
    {
        let parser = Parser::from_octets(octets);
        proof {
            assert(parser.rest() =~= octets.content());
        }
        OptIter { parser, marker: PhantomData }
    }

    /// Hands out the next option that data of type `D` can be read from,
    /// or the error that reading it gave.
    pub fn next(&mut self) -> (r: Option<Result<D, D::ParseErr>>)
        ensures
            is_option_seq(old(self).rest()),
            yields::<O, D>(old(self).rest(), r, final(self).rest()),
    {
        proof {
            use_type_invariant(&*self);
        }
        let mut parser = Parser::from_octets(O::from_static(array_as_slice(&NO_OCTETS)));
        proof {
            assert(parser.rest() =~= Seq::<u8>::empty());
        }
        core::mem::swap(&mut self.parser, &mut parser);
        let mut r: Option<Result<D, D::ParseErr>> = None;
        while parser.remaining() > 0
            invariant_except_break
                r is None,
                forall|res: Option<Result<D, D::ParseErr>>, after: Seq<u8>|
                    yields::<O, D>(parser.rest(), res, after) ==> #[trigger] yields::<O, D>(
                        old(self).rest(),
                        res,
                        after,
                    ),
            invariant
                parser.wf(),
                is_option_seq(parser.rest()),
            ensures
                parser.wf(),
                is_option_seq(parser.rest()),
                yields::<O, D>(old(self).rest(), r, parser.rest()),
            decreases parser.rest().len(),
        {
            let ghost before = parser.rest();
            match Self::next_step(&mut parser) {
                Ok(Some(res)) => {
                    r = Some(Ok(res));
                    proof {
                        assert(yields::<O, D>(before, r, parser.rest()));
                    }
                    break ;
                },
                Ok(None) => {
                    assert forall|res: Option<Result<D, D::ParseErr>>, after: Seq<u8>|
                        yields::<O, D>(parser.rest(), res, after) implies #[trigger] yields::<O, D>(
                        old(self).rest(),
                        res,
                        after,
                    ) by {
                        assert(yields::<O, D>(before, res, after));
                    }
                },
                Err(err) => {
                    r = Some(Err(err));
                    proof {
                        assert(yields::<O, D>(before, r, parser.rest()));
                    }
                    break ;
                },
            }
        }
        self.parser = parser;
        r
    }

    /// Reads the option that the parser stands at and moves the parser
    /// behind it.
    fn next_step(parser: &mut Parser<O>) -> (r: Result<Option<D>, D::ParseErr>)
        requires
            old(parser).wf(),
            old(parser).rest().len() > 0,
            is_option_seq(old(parser).rest()),
        ensures
            final(parser).wf(),
            final(parser).content() == old(parser).content(),
            final(parser).rest() == option_rest(old(parser).rest()),
            D::parses(
                OptionCode::of_number(option_code(old(parser).rest())),
                option_data(old(parser).rest()),
                r,
            ),
    {
        let ghost rest = parser.rest();
        let code = OptionCode::from_int(parser.parse_u16().unwrap());
        proof {
            assert(parser.rest() =~= rest.skip(2));
        }
        let len = parser.parse_u16().unwrap() as usize;
        proof {
            assert(parser.rest() =~= rest.skip(4));
        }
        let data = parser.parse_octets(len).unwrap();
        proof {
            assert(data.content() =~= option_data(rest));
            assert(parser.rest() =~= option_rest(rest));
        }
        let left = parser.remaining();
        let mut inner = Parser::from_octets(data);
        proof {
            assert(inner.rest() =~= option_data(rest));
        }
        D::parse_option(code, &mut inner, len)
    }
}

const NO_OCTETS: [u8; 0] = [];

/// The data of an option of whatever kind, unread.
#[derive(Debug)]
pub struct UnknownOptData<O: Octets> {
    code: OptionCode,
    data: O,
}

impl<O: Octets> UnknownOptData<O> {
    /// The code of the option, as a value of its own.
    pub closed spec fn code_spec(&self) -> OptionCode {
        self.code
    }

    /// The octets of the data.
    pub closed spec fn octets(&self) -> Seq<u8> {
        self.data.content()
    }

    /// The data of an option from its code and its octets.
    pub fn from_octets(code: OptionCode, data: O) -> (r: Self)
        ensures
            r.code_spec() == code,
            r.octets() == data.content(),
    {
        UnknownOptData { code, data }
    }

    /// The code of the option.
    pub fn code(&self) -> (r: OptionCode)
        ensures
            r == self.code_spec(),
    {
        self.code
    }

    /// The octets of the data.
    pub fn data(&self) -> (r: &O)
        ensures
            r.content() == self.octets(),
    {
        &self.data
    }
}

impl<O: Octets> Compose for UnknownOptData<O> {
    open spec fn is_composed(&self, out: Seq<u8>) -> bool {
        out == self.octets()
    }

    open spec fn composed_len(&self) -> nat {
        self.octets().len()
    }

    proof fn lemma_composed_len(&self, out: Seq<u8>) {
    }

    fn compose_len(&self) -> (n: usize) {
        self.data.len()
    }

    fn compose<T: ComposeTarget>(&self, target: &mut T) {
        target.append_slice(self.data.as_slice());
        proof {
            let before = old(target).written();
            let after = target.written();
            assert(after.subrange(0, before.len() as int) =~= before);
            assert(after.subrange(before.len() as int, after.len() as int) =~= self.octets());
        }
    }
}

impl<O: Octets> OptData<O> for UnknownOptData<O> {
    type ParseErr = ShortBuf;

    open spec fn parses(
        code: OptionCode,
        data: Seq<u8>,
        r: Result<Option<Self>, Self::ParseErr>,
    ) -> bool {
        r matches Ok(Some(value)) && value.code_spec() == code && value.octets() == data
    }

    open spec fn code_of(&self) -> OptionCode {
        self.code_spec()
    }

    fn code(&self) -> (r: OptionCode)
        ensures
            r == self.code_spec(),
    {
        self.code
    }

    fn parse_option(code: OptionCode, parser: &mut Parser<O>, len: usize) -> (r: Result<
        Option<Self>,
        Self::ParseErr,
    >)
        ensures
            r is Ok <==> len <= old(parser).rest().len(),
            r matches Ok(found) ==> found matches Some(value) && value.code_spec() == code
                && value.octets() == old(parser).rest().take(len as int),
    {
        let ghost rest = parser.rest();
        let left = parser.remaining();
        match parser.parse_octets(len) {
            Ok(data) => {
                proof {
                    if len == rest.len() {
                        assert(rest.take(len as int) =~= rest);
                    }
                }
                Ok(Some(Self::from_octets(code, data)))
            },
            Err(e) => Err(e),
        }
    }
}

} // verus!

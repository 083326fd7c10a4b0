//! Reading wire data from the front of a buffer.

use crate::compose::u16_of;
use crate::octets::Octets;
use vstd::prelude::*;
use vstd::slice::slice_subrange;

verus! {

/// The data ended before what was to be read.
#[derive(Clone, Copy, Debug, PartialEq, Eq, Structural)]
pub struct ShortBuf;

/// Why a value that should take up a given number of octets could not be
/// read.
#[derive(Clone, Copy, Debug, PartialEq, Eq, Structural)]
pub enum ParseAllError {
    /// The value is shorter than the octets it was given.
    TrailingData,
    /// The value is longer than the octets it was given.
    ShortField,
    /// The data ended before what was to be read.
    ShortBuf,
}

impl ParseAllError {
    /// What comes of reading a value of `expected` octets from a field of
    /// `got` octets.
    pub open spec fn check_spec(expected: usize, got: usize) -> Result<(), ParseAllError> {
        if expected < got {
            Err(ParseAllError::TrailingData)
        } else if expected > got {
            Err(ParseAllError::ShortField)
        } else {
            Ok(())
        }
    }

    /// Holds the length of a field against the length of the value that
    /// it is to hold.
    pub fn check(expected: usize, got: usize) -> (r: Result<(), ParseAllError>)
        ensures
            r == Self::check_spec(expected, got),
    {
        if expected < got {
            Err(ParseAllError::TrailingData)
        } else if expected > got {
            Err(ParseAllError::ShortField)
        } else {
            Ok(())
        }
    }
}

impl From<ShortBuf> for ParseAllError {
    fn from(err: ShortBuf) -> (r: Self) {
        ParseAllError::ShortBuf
    }
}

impl vstd::std_specs::convert::FromSpecImpl<ShortBuf> for ParseAllError {
    open spec fn obeys_from_spec() -> bool {
        true
    }

    open spec fn from_spec(err: ShortBuf) -> Self {
        ParseAllError::ShortBuf
    }
}

/// A buffer and a position in it up to which it has been read.
#[derive(Debug)]
pub struct Parser<O: Octets> {
    octets: O,
    pos: usize,
}

impl<O: Octets> Parser<O> {
    /// All the octets of the buffer.
    pub closed spec fn content(&self) -> Seq<u8> {
        self.octets.content()
    }

    /// The number of octets read so far.
    pub closed spec fn position(&self) -> int {
        self.pos as int
    }

    /// The octets not read yet.
    pub open spec fn rest(&self) -> Seq<u8> {
        self.content().skip(self.position())
    }

    /// Whether the position lies in the buffer. In every value that
    /// exists while the program runs it does.
    pub open spec fn wf(&self) -> bool {
        0 <= self.position() <= self.content().len()
    }

    #[verifier::type_invariant]
    spec fn inv(&self) -> bool {
        self.wf()
    }

    /// A parser at the start of `octets`.
    pub fn from_octets(octets: O) -> (r: Self)
        ensures
            r.content() == octets.content(),
            r.position() == 0,
    {
        Parser { octets, pos: 0 }
    }

    /// Gives up the parser for its buffer.
    pub fn into_octets(self) -> (r: O)
        ensures
            r.content() == self.content(),
    {
        self.octets
    }

    /// The number of octets read so far.
    pub fn pos(&self) -> (r: usize)
        ensures
            r == self.position(),
            self.wf(),
    {
        proof {
            use_type_invariant(self);
        }
        self.pos
    }

    /// The number of octets not read yet.
    pub fn remaining(&self) -> (r: usize)
        ensures
            r == self.rest().len(),
            self.wf(),
    {
        proof {
            use_type_invariant(self);
        }
        self.octets.len() - self.pos
    }

    /// The octets not read yet.
    pub fn peek_all(&self) -> (r: &[u8])
        ensures
            r@ == self.rest(),
            self.wf(),
    {
        proof {
            use_type_invariant(self);
        }
        let slice = self.octets.as_slice();
        slice_subrange(slice, self.pos, slice.len())
    }

    /// The next `len` octets, without reading them.
    pub fn peek(&self, len: usize) -> (r: Result<&[u8], ShortBuf>)
        ensures
            r is Ok <==> len <= self.rest().len(),
            r matches Ok(slice) ==> slice@ == self.rest().take(len as int),
    {
        proof {
            use_type_invariant(self);
        }
        let slice = self.octets.as_slice();
        if len > slice.len() - self.pos {
            Err(ShortBuf)
        } else {
            let r = slice_subrange(slice, self.pos, self.pos + len);
            assert(r@ =~= self.rest().take(len as int));
            Ok(r)
        }
    }

    /// Whether `len` more octets can be read.
    pub fn check_len(&self, len: usize) -> (r: Result<(), ShortBuf>)
        ensures
            r is Ok <==> len <= self.rest().len(),
    {
        proof {
            use_type_invariant(self);
        }
        if len > self.octets.len() - self.pos {
            Err(ShortBuf)
        } else {
            Ok(())
        }
    }

    /// Reads over `len` octets.
    pub fn advance(&mut self, len: usize) -> (r: Result<(), ShortBuf>)
        ensures
            final(self).content() == old(self).content(),
            r is Ok <==> len <= old(self).rest().len(),
            r is Ok ==> final(self).position() == old(self).position() + len,
            r is Err ==> final(self).position() == old(self).position(),
    {
        proof {
            use_type_invariant(&*self);
        }
        if len > self.octets.len() - self.pos {
            Err(ShortBuf)
        } else {
            self.pos = self.pos + len;
            Ok(())
        }
    }

    /// Moves to position `pos` of the buffer.
    pub fn seek(&mut self, pos: usize) -> (r: Result<(), ShortBuf>)
        ensures
            final(self).content() == old(self).content(),
            r is Ok <==> pos <= old(self).content().len(),
            r is Ok ==> final(self).position() == pos,
            r is Err ==> final(self).position() == old(self).position(),
    {
        proof {
            use_type_invariant(&*self);
        }
        if pos > self.octets.len() {
            Err(ShortBuf)
        } else {
            self.pos = pos;
            Ok(())
        }
    }

    /// Reads `len` octets and hands them out as a buffer of their own.
    pub fn parse_octets(&mut self, len: usize) -> (r: Result<O, ShortBuf>)
        ensures
            final(self).content() == old(self).content(),
            r is Ok <==> len <= old(self).rest().len(),
            r is Err ==> final(self).position() == old(self).position(),
            r matches Ok(part) ==> part.content() == old(self).rest().take(len as int)
                && final(self).position() == old(self).position() + len,
    {
        proof {
            use_type_invariant(&*self);
        }
        if len > self.octets.len() - self.pos {
            Err(ShortBuf)
        } else {
            let part = self.octets.range(self.pos, self.pos + len);
            assert(part.content() =~= self.rest().take(len as int));
            self.pos = self.pos + len;
            Ok(part)
        }
    }

    /// Reads as many octets as `buf` holds and puts them there.
    pub fn parse_buf(&mut self, buf: &mut [u8]) -> (r: Result<(), ShortBuf>)
        ensures
            final(self).content() == old(self).content(),
            final(buf)@.len() == old(buf)@.len(),
            r is Ok <==> old(buf)@.len() <= old(self).rest().len(),
            r is Ok ==> final(buf)@ == old(self).rest().take(old(buf)@.len() as int)
                && final(self).position() == old(self).position() + old(buf)@.len(),
            r is Err ==> final(buf)@ == old(buf)@ && final(self).position() == old(
                self,
            ).position(),
    {
        proof {
            use_type_invariant(&*self);
        }
        let len = buf.len();
        let slice = self.octets.as_slice();
        if len > slice.len() - self.pos {
            return Err(ShortBuf);
        }
        let start = self.pos;
        let mut i: usize = 0;
        while i < len
            invariant
                i <= len,
                len == buf@.len(),
                start + len <= slice@.len() <= usize::MAX,
                forall|k: int| 0 <= k < i ==> buf@[k] == slice@[start + k],
            decreases len - i,
        {
            buf[i] = slice[start + i];
            i = i + 1;
        }
        assert(buf@ =~= old(self).rest().take(len as int));
        self.pos = start + len;
        Ok(())
    }

    /// Reads one octet.
    pub fn parse_u8(&mut self) -> (r: Result<u8, ShortBuf>)
        ensures
            final(self).content() == old(self).content(),
            r is Ok <==> 1 <= old(self).rest().len(),
            r is Err ==> final(self).position() == old(self).position(),
            r matches Ok(value) ==> value == old(self).rest()[0] && final(self).position() == old(
                self,
            ).position() + 1,
    {
        proof {
            use_type_invariant(&*self);
        }
        let slice = self.octets.as_slice();
        if slice.len() - self.pos < 1 {
            Err(ShortBuf)
        } else {
            let value = slice[self.pos];
            self.pos = self.pos + 1;
            Ok(value)
        }
    }

    /// Reads a number of two octets in network byte order.
    pub fn parse_u16(&mut self) -> (r: Result<u16, ShortBuf>)
        ensures
            final(self).content() == old(self).content(),
            r is Ok <==> 2 <= old(self).rest().len(),
            r is Err ==> final(self).position() == old(self).position(),
            r matches Ok(value) ==> value == u16_of(old(self).rest()[0], old(self).rest()[1])
                && final(self).position() == old(self).position() + 2,
    {
        proof {
            use_type_invariant(&*self);
        }
        let slice = self.octets.as_slice();
        if slice.len() - self.pos < 2 {
            Err(ShortBuf)
        } else {
            let high = slice[self.pos];
            let low = slice[self.pos + 1];
            self.pos = self.pos + 2;
            Ok(high as u16 * 256 + low as u16)
        }
    }
}

/// A value that can be read from the front of wire data.
pub trait Parse<O: Octets>: Sized {
    /// Why reading can fail.
    type Err;

    /// Reads one value from where the parser stands.
    fn parse(parser: &mut Parser<O>) -> (r: Result<Self, Self::Err>)
        ensures
            final(parser).content() == old(parser).content(),
            final(parser).position() >= old(parser).position(),
    ;

    /// Reads over one value from where the parser stands.
    fn skip(parser: &mut Parser<O>) -> (r: Result<(), Self::Err>)
        ensures
            final(parser).content() == old(parser).content(),
            final(parser).position() >= old(parser).position(),
    ;
}

/// A value that can be read from a field of wire data of known length.
pub trait ParseAll<O: Octets>: Sized {
    /// Why reading can fail.
    type Err;

    /// Whether reading a value from the first `len` octets of `rest` can
    /// end with `r`.
    spec fn parsed_all(rest: Seq<u8>, len: usize, r: Result<Self, Self::Err>) -> bool;

    /// Reads one value from the next `len` octets. Where that works, all
    /// of them have been read.
    fn parse_all(parser: &mut Parser<O>, len: usize) -> (r: Result<Self, Self::Err>)
        ensures
            final(parser).content() == old(parser).content(),
            final(parser).position() >= old(parser).position(),
            r is Ok ==> final(parser).position() == old(parser).position() + len,
            Self::parsed_all(old(parser).rest(), len, r),
    ;
}

impl<O: Octets> ParseAll<O> for u16 {
    type Err = ParseAllError;

    open spec fn parsed_all(rest: Seq<u8>, len: usize, r: Result<Self, Self::Err>) -> bool {
        if len < 2 {
            r == Err::<u16, ParseAllError>(ParseAllError::ShortField)
        } else if len > 2 {
            r == Err::<u16, ParseAllError>(ParseAllError::TrailingData)
        } else if rest.len() < 2 {
            r == Err::<u16, ParseAllError>(ParseAllError::ShortBuf)
        } else {
            r == Ok::<u16, ParseAllError>(u16_of(rest[0], rest[1]))
        }
    }

    fn parse_all(parser: &mut Parser<O>, len: usize) -> (r: Result<Self, Self::Err>)
        ensures
            r is Err ==> final(parser).position() == old(parser).position(),
    {
        if len < 2 {
            Err(ParseAllError::ShortField)
        } else if len > 2 {
            Err(ParseAllError::TrailingData)
        } else {
            match parser.parse_u16() {
                Ok(value) => Ok(value),
                Err(_) => Err(ParseAllError::ShortBuf),
            }
        }
    }
}

} // verus!

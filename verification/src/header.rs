//! The first octets of a message header.

use crate::compose::u16_of;
use crate::iana::Rcode;
use vstd::prelude::*;

verus! {

/// The identifier and the flags of a message: its first four octets.
#[derive(Clone, Copy, Debug)]
pub struct Header {
    inner: [u8; 4],
}

impl View for Header {
    type V = Seq<u8>;

    closed spec fn view(&self) -> Seq<u8> {
        self.inner@
    }
}

impl Header {
    /// The response code that the header carries.
    pub open spec fn rcode_spec(&self) -> Rcode {
        Rcode::of_number(self@[3] % 16)
    }

    /// A header with the identifier 0 and no flag set.
    pub fn new() -> (r: Self)
        ensures
            r@ == seq![0u8, 0, 0, 0],
    {
        let r = Header { inner: [0, 0, 0, 0] };
        assert(r@ =~= seq![0u8, 0, 0, 0]);
        r
    }

    /// The header that the four octets are.
    pub fn from_octets(inner: [u8; 4]) -> (r: Self)
        ensures
            r@ == inner@,
    {
        Header { inner }
    }

    /// The four octets of the header.
    pub fn as_slice(&self) -> (r: &[u8])
        ensures
            r@ == self@,
            r@.len() == 4,
    {
        vstd::array::array_as_slice(&self.inner)
    }

    /// The identifier of the message.
    pub fn id(&self) -> (r: u16)
        ensures
            r == u16_of(self@[0], self@[1]),
    {
        self.inner[0] as u16 * 256 + self.inner[1] as u16
    }

    /// Sets the identifier of the message.
    pub fn set_id(&mut self, value: u16)
        ensures
            final(self)@ == old(self)@.update(0, (value / 256) as u8).update(
                1,
                (value % 256) as u8,
            ),
    {
        self.inner[0] = (value / 256) as u8;
        self.inner[1] = (value % 256) as u8;
    }

    /// The response code: the lower four bits of the last octet.
    pub fn rcode(&self) -> (r: Rcode)
        ensures
            r == self.rcode_spec(),
    {
        Rcode::from_int(self.inner[3] % 16)
    }

    /// Sets the response code and keeps the other bits of the last octet.
    pub fn set_rcode(&mut self, rcode: Rcode)
        ensures
            final(self)@ == old(self)@.update(
                3,
                (old(self)@[3] / 16 * 16 + rcode.number() % 16) as u8,
            ),
    {
        let high: u8 = self.inner[3] / 16 * 16;
        self.inner[3] = high + rcode.to_int() % 16;
    }
}

} // verus!

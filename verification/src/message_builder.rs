//! Building the data of an OPT record.

use crate::compose::{compose_u16, u16_octets, Compose, ComposeTarget};
use crate::octets::Octets;
use crate::opt::{is_option_seq, lemma_option_seq_push, Opt, OptData};
use crate::parse::ShortBuf;
use bytes::Bytes;
use vstd::prelude::*;

verus! {

/// The options of an OPT record in the making.
///
/// Options are added one behind the other. The data of a record is at
/// most 65535 octets long, and the builder takes no option that would
/// make it longer.
#[derive(Debug)]
pub struct OptBuilder {
    data: Vec<u8>,
}

impl View for OptBuilder {
    type V = Seq<u8>;

    closed spec fn view(&self) -> Seq<u8> {
        self.data@
    }
}

impl OptBuilder {
    /// Whether the octets built so far are a sequence of options that
    /// fits into a record. In every value that exists while the program
    /// runs they are.
    pub open spec fn wf(&self) -> bool {
        is_option_seq(self@) && self@.len() <= 65535
    }

    #[verifier::type_invariant]
    spec fn inv(&self) -> bool {
        self.wf()
    }

    /// A builder without any option.
    pub fn new() -> (r: Self)
        ensures
            r@ == Seq::<u8>::empty(),
    {
        OptBuilder { data: Vec::new() }
    }

    /// The octets of the options added so far.
    pub fn as_slice(&self) -> (r: &[u8])
        ensures
            r@ == self@,
            self.wf(),
    {
        proof {
            use_type_invariant(self);
        }
        self.data.as_slice()
    }

    /// Adds an option with the data `option`: its code, the length of its
    /// data, and its data. Nothing is added where the options would no
    /// longer fit into a record.
    pub fn push<O: Octets, D: OptData<O>>(&mut self, option: &D) -> (r: Result<(), ShortBuf>)
        requires
            option.composed_len() <= usize::MAX,
        ensures
            r is Ok <==> old(self)@.len() + 4 + option.composed_len() <= 65535,
            r is Err ==> final(self)@ == old(self)@,
            r is Ok ==> {
                let start = old(self)@.len() as int;
                &&& final(self)@.len() == start + 4 + option.composed_len()
                &&& final(self)@.subrange(0, start) == old(self)@
                &&& final(self)@.subrange(start, start + 2) == u16_octets(option.code_of().number())
                &&& final(self)@.subrange(start + 2, start + 4) == u16_octets(
                    option.composed_len() as u16,
                )
                &&& option.is_composed(final(self)@.subrange(start + 4, final(self)@.len() as int))
            },
    {
        proof {
            use_type_invariant(&*self);
        }
        let len = option.compose_len();
        if len > 65535 || self.data.len() + 4 + len > 65535 {
            return Err(ShortBuf);
        }
        let code = option.code().to_int();
        let mut data: Vec<u8> = Vec::new();
        core::mem::swap(&mut self.data, &mut data);
        let ghost start = data@.len() as int;
        compose_u16(&mut data, code);
        compose_u16(&mut data, len as u16);
        let ghost mid = data@;
        option.compose(&mut data);
        proof {
            let tail = data@.subrange(start + 4, data@.len() as int);
            option.lemma_composed_len(tail);
            lemma_option_seq_push(old(self)@, code, tail);
            assert(data@ =~= old(self)@ + u16_octets(code) + u16_octets(len as u16) + tail) by {
                assert(data@.subrange(0, start + 4) == mid);
                assert(data@ =~= data@.subrange(0, start + 4) + tail);
            }
            assert(data@.subrange(0, start) =~= old(self)@);
            assert(data@.subrange(start, start + 2) =~= u16_octets(code));
            assert(data@.subrange(start + 2, start + 4) =~= u16_octets(len as u16));
        }
        self.data = data;
        Ok(())
    }

    /// Ends the building and gives the options as record data.
    pub fn finish(self) -> (r: Opt<Bytes>)
        ensures
            r@ == self@,
    {
        proof {
            use_type_invariant(&self);
        }
        let octets = self.data.as_slice().to_bytes();
        Opt::from_octets(octets).unwrap()
    }
}

} // verus!

//! Building a name label by label.

use crate::chain::lemma_concat_absolute;
use crate::compose::{compose_u8, Compose, ComposeTarget};
use crate::dname::Dname;
use crate::octets::{
    bytes_mut_as_slice, bytes_mut_content, bytes_mut_freeze, bytes_mut_len, bytes_mut_new, Octets,
};
use crate::relative::RelativeDname;
use crate::traits::{ToDname, ToLabelIter, ToRelativeDname};
use crate::wire::{
    encode_label, has_label, is_label_run, is_relative, lemma_absolute_from_relative,
    lemma_run_is_seq, lemma_seq_concat, tail,
};
use bytes::{Bytes, BytesMut};
use vstd::prelude::*;

verus! {

/// Why a label could not be added to a name.
#[derive(Clone, Copy, Debug, PartialEq, Eq, Structural)]
pub enum PushError {
    /// The label is longer than 63 octets.
    LongLabel,
    /// The name would become longer than 254 octets.
    LongName,
}

/// A name could not be added to because it would become too long.
#[derive(Clone, Copy, Debug, PartialEq, Eq, Structural)]
pub struct PushNameError;

/// The encoding of one label of 1 to 63 octets is a run of labels without
/// root label.
pub proof fn lemma_encode_label_run(payload: Seq<u8>)
    requires
        1 <= payload.len() <= 63,
    ensures
        is_label_run(encode_label(payload)),
        encode_label(payload).len() == payload.len() + 1,
{
    let s = encode_label(payload);
    assert(has_label(s));
    assert(tail(s) =~= Seq::<u8>::empty());
    assert(is_label_run(tail(s)));
}

/// The name `name` with a label of the payload `label` added at its end,
/// or why the label cannot be added. An empty payload adds nothing.
pub open spec fn with_label(name: Seq<u8>, label: Seq<u8>) -> Result<Seq<u8>, PushError> {
    if label.len() > 63 {
        Err(PushError::LongLabel)
    } else if label.len() == 0 {
        Ok(name)
    } else if name.len() + 1 + label.len() > 254 {
        Err(PushError::LongName)
    } else {
        Ok(name + encode_label(label))
    }
}

/// A relative name that grows at its end.
///
/// The builder holds the wire format of a relative name in a buffer of
/// its own. Labels and names are added at the end, and in the end the
/// buffer becomes a relative or an absolute name without being copied.
#[derive(Debug)]
pub struct DnameBuilder {
    bytes: BytesMut,
}

impl View for DnameBuilder {
    type V = Seq<u8>;

    closed spec fn view(&self) -> Seq<u8> {
        bytes_mut_content(self.bytes)
    }
}

impl DnameBuilder {
    /// Whether the octets built so far are a relative name. Every value
    /// that exists while the program runs is.
    pub open spec fn wf(&self) -> bool {
        is_relative(self@)
    }

    #[verifier::type_invariant]
    spec fn inv(&self) -> bool {
        self.wf()
    }

    /// A builder that continues the relative name in `bytes`.
    pub(crate) fn from_bytes(bytes: BytesMut) -> (r: Self)
        requires
            is_relative(bytes_mut_content(bytes)),
        ensures
            r.wf(),
            r@ == bytes_mut_content(bytes),
    {
        DnameBuilder { bytes }
    }

    /// A builder that starts from the empty name.
    pub fn new() -> (r: Self)
        ensures
            r.wf(),
            r@ == Seq::<u8>::empty(),
    {
        DnameBuilder { bytes: bytes_mut_new() }
    }

    /// The length of the name built so far.
    pub fn len(&self) -> (r: usize)
        ensures
            r == self@.len(),
            r <= 254,
    {
        proof {
            use_type_invariant(self);
        }
        bytes_mut_len(&self.bytes)
    }

    /// Whether no label was added yet.
    pub fn is_empty(&self) -> (r: bool)
        ensures
            r <==> self@.len() == 0,
    {
        bytes_mut_len(&self.bytes) == 0
    }

    /// The octets built so far.
    pub fn as_slice(&self) -> (r: &[u8])
        ensures
            r@ == self@,
            is_relative(self@),
    {
        proof {
            use_type_invariant(self);
        }
        bytes_mut_as_slice(&self.bytes)
    }

    /// Adds a label with the payload `label` at the end of the name. An
    /// empty payload adds nothing. Nothing is added either where the
    /// payload is longer than 63 octets or the name would become longer
    /// than 254 octets.
    pub fn append_label(&mut self, label: &[u8]) -> (r: Result<(), PushError>)
        ensures
            final(self).wf(),
            match with_label(old(self)@, label@) {
                Ok(name) => r is Ok && final(self)@ == name,
                Err(e) => r == Err::<(), PushError>(e) && final(self)@ == old(self)@,
            },
    {
        proof {
            use_type_invariant(&*self);
        }
        let len = label.len();
        if len > 63 {
            return Err(PushError::LongLabel);
        }
        if len == 0 {
            return Ok(());
        }
        if bytes_mut_len(&self.bytes) + 1 + len > 254 {
            return Err(PushError::LongName);
        }
        let mut encoded: Vec<u8> = Vec::new();
        encoded.push(len as u8);
        encoded.append_slice(label);
        proof {
            assert(encoded@ =~= encode_label(label@));
            lemma_encode_label_run(label@);
            lemma_run_is_seq(self@);
            lemma_run_is_seq(encode_label(label@));
            lemma_seq_concat(self@, encode_label(label@));
        }
        let mut bytes = bytes_mut_new();
        core::mem::swap(&mut self.bytes, &mut bytes);
        bytes.append_slice(encoded.as_slice());
        self.bytes = bytes;
        Ok(())
    }

    /// Adds the labels of `name` at the end of the name, unless the name
    /// would become longer than 254 octets.
    pub fn append_name<N: ToRelativeDname>(&mut self, name: &N) -> (r: Result<(), PushNameError>)
        ensures
            final(self).wf(),
            r is Ok <==> old(self)@.len() + name.wire().len() <= 254,
            r is Ok ==> final(self)@ == old(self)@ + name.wire(),
            r is Err ==> final(self)@ == old(self)@,
    {
        proof {
            use_type_invariant(&*self);
        }
        let add = name.wire_len();
        proof {
            name.lemma_name();
            name.lemma_relative();
        }
        if bytes_mut_len(&self.bytes) + add > 254 {
            return Err(PushNameError);
        }
        proof {
            lemma_run_is_seq(self@);
            lemma_seq_concat(self@, name.wire());
            assert forall|out: Seq<u8>|
                out.len() == self@.len() + name.wire().len() && out.subrange(0, self@.len() as int)
                    == self@ && #[trigger] out.subrange(self@.len() as int, out.len() as int)
                    == name.wire() implies out == self@ + name.wire() by {
                assert(out =~= out.subrange(0, self@.len() as int) + out.subrange(
                    self@.len() as int,
                    out.len() as int,
                ));
            }
        }
        let mut bytes = bytes_mut_new();
        core::mem::swap(&mut self.bytes, &mut bytes);
        name.compose(&mut bytes);
        self.bytes = bytes;
        Ok(())
    }

    /// Ends the building and gives the relative name built.
    pub fn finish(self) -> (r: RelativeDname<Bytes>)
        ensures
            r.wf(),
            r@ == self@,
    {
        proof {
            use_type_invariant(&self);
        }
        RelativeDname::from_octets_unchecked(bytes_mut_freeze(self.bytes))
    }

    /// Ends the building with the root label and gives the absolute name
    /// built, unless it would be longer than 255 octets.
    pub fn into_dname(self) -> (r: Result<Dname<Bytes>, PushNameError>)
        ensures
            r is Ok <==> self@.len() + 1 <= 255,
            r matches Ok(name) ==> name.wf() && name@ == self@.push(0u8),
    {
        proof {
            use_type_invariant(&self);
        }
        if bytes_mut_len(&self.bytes) >= 255 {
            return Err(PushNameError);
        }
        let mut bytes = self.bytes;
        compose_u8(&mut bytes, 0);
        proof {
            lemma_absolute_from_relative(self@);
        }
        Ok(Dname::from_octets_unchecked(bytes_mut_freeze(bytes)))
    }

    /// Ends the building with the labels of the absolute name `origin`
    /// and gives the absolute name built, unless it would be longer than
    /// 255 octets.
    pub fn append_origin<N: ToDname>(self, origin: &N) -> (r: Result<Dname<Bytes>, PushNameError>)
        ensures
            r is Ok <==> self@.len() + origin.wire().len() <= 255,
            r matches Ok(name) ==> name.wf() && name@ == self@ + origin.wire(),
    {
        proof {
            use_type_invariant(&self);
        }
        let add = origin.wire_len();
        proof {
            origin.lemma_name();
            origin.lemma_absolute();
        }
        if bytes_mut_len(&self.bytes) + add > 255 {
            return Err(PushNameError);
        }
        let mut bytes = self.bytes;
        origin.compose(&mut bytes);
        proof {
            lemma_concat_absolute(self@, origin.wire());
            let out = bytes_mut_content(bytes);
            assert(out =~= out.subrange(0, self@.len() as int) + out.subrange(
                self@.len() as int,
                out.len() as int,
            ));
            assert(out =~= self@ + origin.wire());
        }
        Ok(Dname::from_octets_unchecked(bytes_mut_freeze(bytes)))
    }
}

} // verus!

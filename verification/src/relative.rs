//! Uncompressed, relative domain names.
//!
//! A relative name is a run of labels that does not end with the root
//! label. It is at most 254 octets long, so that the root label can
//! always be added to make it an absolute name.

use crate::canonical::{dotted, is_prefix, is_suffix, name_order, names_eq};
use crate::compose::{Compose, ComposeTarget};
use crate::label::{fold, fold_octet, folded, split_error, Label, LabelTypeError, SplitLabelError};
use crate::builder::DnameBuilder;
use crate::chain::{Chain, LongChainError};
use crate::dname::Dname;
use crate::octets::{bytes_mut_from_slice, bytes_try_mut, Octets};
use crate::parse::{ParseAll, Parser};
use crate::sort::{ordering_of, to_ordering};
use crate::scan::{count_labels, is_label_start, label_at, label_start_before};
use crate::traits::{
    name_ends_with, name_eq, name_order_of, name_starts_with, name_to_text, suffix_start,
    ToLabelIter, ToRelativeDname,
};
use crate::wire::{
    has_label, head, head_len, is_boundary, is_label_run, is_label_seq, is_relative, labels,
    lemma_end_is_boundary, lemma_labels_len, lemma_range_between_boundaries, lemma_run_is_seq,
    lemma_split_at_boundary, lemma_step, lemma_step_back, tail,
};
use bytes::Bytes;
use core::cmp::Ordering;
use std::collections::hash_map::DefaultHasher;
use std::hash::Hasher;
use vstd::array::array_as_slice;
use vstd::prelude::*;

verus! {

/// Why some octets are not a relative name.
#[derive(Clone, Copy, Debug, PartialEq, Eq, Structural)]
pub enum RelativeDnameError {
    /// A label of a type other than the plain label was met.
    BadLabel(LabelTypeError),
    /// A compression pointer was met.
    CompressedName,
    /// The octets end before a label does.
    ShortData,
    /// The octets are more than 254.
    LongName,
    /// The root label was met.
    AbsoluteName,
}

impl From<LabelTypeError> for RelativeDnameError {
    fn from(err: LabelTypeError) -> (r: Self) {
        RelativeDnameError::BadLabel(err)
    }
}

impl vstd::std_specs::convert::FromSpecImpl<LabelTypeError> for RelativeDnameError {
    open spec fn obeys_from_spec() -> bool {
        true
    }

    open spec fn from_spec(err: LabelTypeError) -> Self {
        RelativeDnameError::BadLabel(err)
    }
}

impl From<SplitLabelError> for RelativeDnameError {
    fn from(err: SplitLabelError) -> (r: Self) {
        match err {
            SplitLabelError::Pointer(_) => RelativeDnameError::CompressedName,
            SplitLabelError::BadType(t) => RelativeDnameError::BadLabel(t),
            SplitLabelError::ShortBuf => RelativeDnameError::ShortData,
        }
    }
}

impl vstd::std_specs::convert::FromSpecImpl<SplitLabelError> for RelativeDnameError {
    open spec fn obeys_from_spec() -> bool {
        true
    }

    open spec fn from_spec(err: SplitLabelError) -> Self {
        match err {
            SplitLabelError::Pointer(_) => RelativeDnameError::CompressedName,
            SplitLabelError::BadType(t) => RelativeDnameError::BadLabel(t),
            SplitLabelError::ShortBuf => RelativeDnameError::ShortData,
        }
    }
}

/// A name was to lose a suffix that it does not end with.
#[derive(Clone, Copy, Debug, PartialEq, Eq, Structural)]
pub struct StripSuffixError;

/// What stands in the way of reading `s` as a run of labels other than the
/// root label: the first label that is not complete, or a root label.
pub open spec fn run_error(s: Seq<u8>) -> Option<RelativeDnameError>
    decreases s.len(),
{
    if s.len() == 0 {
        None
    } else if !has_label(s) {
        Some(
            match split_error(s) {
                SplitLabelError::Pointer(_) => RelativeDnameError::CompressedName,
                SplitLabelError::BadType(t) => RelativeDnameError::BadLabel(t),
                SplitLabelError::ShortBuf => RelativeDnameError::ShortData,
            },
        )
    } else if s[0] == 0 {
        Some(RelativeDnameError::AbsoluteName)
    } else {
        run_error(tail(s))
    }
}

/// What stands in the way of reading `s` as a relative name. The length
/// is looked at before any label is.
pub open spec fn relative_error(s: Seq<u8>) -> Option<RelativeDnameError> {
    if s.len() > 254 {
        Some(RelativeDnameError::LongName)
    } else {
        run_error(s)
    }
}

/// Octets are a relative name exactly when nothing stands in the way.
pub proof fn lemma_relative_error(s: Seq<u8>)
    ensures
        run_error(s) is None <==> is_label_run(s),
        relative_error(s) is None <==> is_relative(s),
    decreases s.len(),
{
    if s.len() != 0 && has_label(s) && s[0] != 0 {
        lemma_relative_error(tail(s));
    }
}

const NO_OCTETS: [u8; 0] = [];

const WILDCARD: [u8; 2] = [1, 42];

/// An uncompressed, relative domain name in some octet buffer.
#[derive(Debug)]
pub struct RelativeDname<O: Octets = Bytes> {
    octets: O,
}

impl<O: Octets> View for RelativeDname<O> {
    type V = Seq<u8>;

    closed spec fn view(&self) -> Seq<u8> {
        self.octets.content()
    }
}

impl<O: Octets> RelativeDname<O> {
    /// Whether the octets held are a relative name. Every value that
    /// exists while the program runs is.
    pub open spec fn wf(&self) -> bool {
        is_relative(self@)
    }

    #[verifier::type_invariant]
    spec fn inv(&self) -> bool {
        self.wf()
    }

    /// The labels of the name, first to last.
    pub open spec fn labels(&self) -> Seq<Seq<u8>> {
        labels(self@)
    }

    /// Makes a name of octets that are known to be a relative name.
    pub(crate) fn from_octets_unchecked(octets: O) -> (r: Self)
        requires
            is_relative(octets.content()),
        ensures
            r.wf(),
            r@ == octets.content(),
    {
        RelativeDname { octets }
    }

    /// The name without any label.
    pub fn empty() -> (r: Self)
        ensures
            r.wf(),
            r@ == Seq::<u8>::empty(),
    {
        let octets = O::from_static(array_as_slice(&NO_OCTETS));
        assert(octets.content() =~= Seq::<u8>::empty());
        RelativeDname { octets }
    }

    /// The name of one label, the wildcard label.
    pub fn wildcard() -> (r: Self)
        ensures
            r.wf(),
            r@ == seq![1u8, 42u8],
    {
        let octets = O::from_static(array_as_slice(&WILDCARD));
        proof {
            let s = octets.content();
            assert(s =~= seq![1u8, 42u8]);
            assert(tail(s) =~= Seq::<u8>::empty());
            assert(is_label_run(tail(s)));
        }
        RelativeDname { octets }
    }

    /// Makes a name of octets, if they are a relative name.
    pub fn from_octets(octets: O) -> (r: Result<Self, RelativeDnameError>)
        ensures
            r is Ok <==> is_relative(octets.content()),
            r matches Ok(name) ==> name@ == octets.content(),
            r matches Err(e) ==> relative_error(octets.content()) == Some(e),
    {
        proof {
            lemma_relative_error(octets.content());
        }
        if octets.len() > 254 {
            return Err(RelativeDnameError::LongName);
        }
        {
            let whole = octets.as_slice();
            let mut tmp = whole;
            while tmp.len() > 0
                invariant
                    whole@ == octets.content(),
                    whole@.len() <= 254,
                    run_error(whole@) is None <==> is_label_run(whole@),
                    run_error(whole@) == run_error(tmp@),
                decreases tmp@.len(),
            {
                match Label::split_from(tmp) {
                    Ok((label, rest)) => {
                        if label.is_root() {
                            return Err(RelativeDnameError::AbsoluteName);
                        }
                        tmp = rest;
                    },
                    Err(e) => {
                        return Err(RelativeDnameError::from(e));
                    },
                }
            }
        }
        Ok(RelativeDname { octets })
    }

    /// The buffer that holds the name.
    pub fn as_octets(&self) -> (r: &O)
        ensures
            r.content() == self@,
    {
        &self.octets
    }

    /// The wire format of the name.
    pub fn as_slice(&self) -> (r: &[u8])
        ensures
            r@ == self@,
            is_relative(self@),
    {
        proof {
            use_type_invariant(self);
        }
        self.octets.as_slice()
    }

    /// Gives up the name for the buffer that holds it.
    pub fn unwrap(self) -> (r: O)
        ensures
            r.content() == self@,
    {
        self.octets
    }

    /// The same name in a reference-counted buffer.
    pub fn to_name(&self) -> (r: RelativeDname<Bytes>)
        ensures
            r.wf(),
            r@ == self@,
    {
        proof {
            use_type_invariant(self);
        }
        RelativeDname { octets: self.octets.to_bytes() }
    }

    /// The wire format of the name, which lies in one piece.
    pub fn as_flat_slice(&self) -> (r: Option<&[u8]>)
        ensures
            r matches Some(slice) && slice@ == self@,
    {
        Some(self.octets.as_slice())
    }

    /// Chains `other` to the name, if the two are together at most 255
    /// octets long. Both are lost if they are not.
    pub fn chain<N: ToLabelIter>(self, other: N) -> (r: Result<Chain<Self, N>, LongChainError>)
        ensures
            r is Ok <==> self@.len() + other.wire().len() <= 255,
            r matches Ok(chain) ==> chain.parts() == (self, other),
    {
        Chain::new(self, other)
    }

    /// Chains the name of the root to the name, which makes it read as an
    /// absolute name.
    pub fn chain_root(self) -> (r: Chain<Self, Dname<&'static [u8]>>)
        ensures
            r.wire() == self@.push(0u8),
    {
        proof {
            use_type_invariant(&self);
        }
        let root = Dname::<&'static [u8]>::root();
        proof {
            assert(self@ + seq![0u8] =~= self@.push(0u8));
        }
        Chain::new(self, root).unwrap()
    }

    /// Where the name stands to `other` in the canonical order of names.
    pub fn cmp(&self, other: &Self) -> (r: Ordering)
        ensures
            r == ordering_of(name_order(self.labels(), other.labels())),
    {
        to_ordering(name_order_of(self, other))
    }

    /// The length of the wire format.
    pub fn len(&self) -> (r: usize)
        ensures
            r == self@.len(),
            r <= 254,
    {
        proof {
            use_type_invariant(self);
        }
        self.octets.len()
    }

    /// Whether the name has no label.
    pub fn is_empty(&self) -> (r: bool)
        ensures
            r <==> self@.len() == 0,
    {
        self.octets.len() == 0
    }

    /// A walk over the labels of the name.
    pub fn iter(&self) -> (r: DnameIter<'_>)
        ensures
            r@ == self@,
    {
        proof {
            use_type_invariant(self);
            lemma_run_is_seq(self@);
        }
        DnameIter::new(self.octets.as_slice())
    }

    /// The number of labels.
    pub fn label_count(&self) -> (r: usize)
        ensures
            r == self.labels().len(),
    {
        proof {
            use_type_invariant(self);
            lemma_run_is_seq(self@);
        }
        count_labels(self.octets.as_slice())
    }

    /// The first label, if there is one.
    pub fn first(&self) -> (r: Option<Label<'_>>)
        ensures
            r is Some <==> self@.len() > 0,
            r matches Some(label) ==> label.wf() && self.labels().len() > 0 && label@
                == self.labels()[0],
    {
        proof {
            use_type_invariant(self);
            lemma_run_is_seq(self@);
            assert(self@.skip(0) =~= self@);
        }
        let slice = self.octets.as_slice();
        if slice.len() == 0 {
            None
        } else {
            Some(label_at(slice, 0))
        }
    }

    /// The last label, if there is one.
    pub fn last(&self) -> (r: Option<Label<'_>>)
        ensures
            r is Some <==> self@.len() > 0,
            r matches Some(label) ==> label.wf() && self.labels().len() > 0 && label@
                == self.labels().last(),
    {
        proof {
            use_type_invariant(self);
            lemma_run_is_seq(self@);
            lemma_end_is_boundary(self@);
        }
        let slice = self.octets.as_slice();
        if slice.len() == 0 {
            None
        } else {
            let start = label_start_before(slice, slice.len());
            proof {
                lemma_step_back(self@, start as int);
                assert(self@.take(self@.len() as int) =~= self@);
            }
            Some(label_at(slice, start))
        }
    }

    /// The number of dots in the usual way of writing the name: one less
    /// than the number of labels, and none for the empty name.
    pub fn ndots(&self) -> (r: usize)
        ensures
            r == if self.labels().len() == 0 {
                0
            } else {
                self.labels().len() - 1
            },
    {
        proof {
            use_type_invariant(self);
            lemma_run_is_seq(self@);
            lemma_labels_len(self@);
        }
        if self.is_empty() {
            0
        } else {
            self.label_count() - 1
        }
    }

    /// The name in the way it is written in text: its labels with dots
    /// between them.
    pub fn to_text(&self) -> (r: Vec<u8>)
        ensures
            r@ == dotted(self.labels()),
    {
        name_to_text(self)
    }

    /// Whether the labels of `base` are the first labels of the name.
    pub fn starts_with<N: ToLabelIter>(&self, base: &N) -> (r: bool)
        ensures
            r == is_prefix(labels(base.wire()), self.labels()),
    {
        name_starts_with(self, base)
    }

    /// Whether the labels of `base` are the last labels of the name.
    pub fn ends_with<N: ToLabelIter>(&self, base: &N) -> (r: bool)
        ensures
            r == is_suffix(labels(base.wire()), self.labels()),
    {
        name_ends_with(self, base)
    }

    /// Whether `index` is where a label of the name begins, or is the
    /// end of the name.
    pub fn is_label_start(&self, index: usize) -> (r: bool)
        ensures
            r <==> is_boundary(self@, index as int),
    {
        proof {
            use_type_invariant(self);
            lemma_run_is_seq(self@);
        }
        is_label_start(self.octets.as_slice(), index)
    }

    /// The part of the name from offset `start` up to offset `end`. Both
    /// must be where a label begins or the name ends.
    pub fn range(&self, start: usize, end: usize) -> (r: Self)
        requires
            is_boundary(self@, start as int),
            is_boundary(self@, end as int),
            start <= end,
        ensures
            r.wf(),
            r@ == self@.subrange(start as int, end as int),
    {
        proof {
            use_type_invariant(self);
            lemma_run_is_seq(self@);
            lemma_range_between_boundaries(self@, start as int, end as int);
        }
        RelativeDname { octets: self.octets.range(start, end) }
    }

    /// The part of the name from offset `start` up to offset `end`.
    pub fn slice(&self, start: usize, end: usize) -> (r: Self)
        requires
            is_boundary(self@, start as int),
            is_boundary(self@, end as int),
            start <= end,
        ensures
            r.wf(),
            r@ == self@.subrange(start as int, end as int),
    {
        self.range(start, end)
    }

    /// The part of the name from offset `start` on, which must be where
    /// a label begins or the name ends.
    pub fn range_from(&self, start: usize) -> (r: Self)
        requires
            is_boundary(self@, start as int),
        ensures
            r.wf(),
            r@ == self@.subrange(start as int, self@.len() as int),
    {
        proof {
            use_type_invariant(self);
            lemma_run_is_seq(self@);
            lemma_split_at_boundary(self@, start as int);
        }
        RelativeDname { octets: self.octets.range_from(start) }
    }

    /// The part of the name from offset `start` on.
    pub fn slice_from(&self, start: usize) -> (r: Self)
        requires
            is_boundary(self@, start as int),
        ensures
            r.wf(),
            r@ == self@.subrange(start as int, self@.len() as int),
    {
        self.range_from(start)
    }

    /// The part of the name before offset `end`, which must be where a
    /// label begins or the name ends.
    pub fn range_to(&self, end: usize) -> (r: Self)
        requires
            is_boundary(self@, end as int),
        ensures
            r.wf(),
            r@ == self@.subrange(0, end as int),
    {
        proof {
            use_type_invariant(self);
            lemma_run_is_seq(self@);
            lemma_split_at_boundary(self@, end as int);
        }
        RelativeDname { octets: self.octets.range_to(end) }
    }

    /// The part of the name before offset `end`.
    pub fn slice_to(&self, end: usize) -> (r: Self)
        requires
            is_boundary(self@, end as int),
        ensures
            r.wf(),
            r@ == self@.subrange(0, end as int),
    {
        self.range_to(end)
    }

    /// The two parts of the name before and from offset `mid`, which must
    /// be where a label begins or the name ends.
    pub fn split_at(self, mid: usize) -> (r: (Self, Self))
        requires
            is_boundary(self@, mid as int),
        ensures
            r.0.wf(),
            r.1.wf(),
            r.0@ == self@.subrange(0, mid as int),
            r.1@ == self@.subrange(mid as int, self@.len() as int),
    {
        proof {
            use_type_invariant(&self);
            lemma_run_is_seq(self@);
            lemma_split_at_boundary(self@, mid as int);
        }
        let left = RelativeDname { octets: self.octets.range_to(mid) };
        let right = RelativeDname { octets: self.octets.range_from(mid) };
        (left, right)
    }

    /// Cuts the name at offset `mid`, which must be where a label begins
    /// or the name ends: the name keeps what lies before, and what lies
    /// after is returned.
    pub fn split_off(&mut self, mid: usize) -> (r: Self)
        requires
            is_boundary(old(self)@, mid as int),
        ensures
            final(self).wf(),
            r.wf(),
            final(self)@ == old(self)@.subrange(0, mid as int),
            r@ == old(self)@.subrange(mid as int, old(self)@.len() as int),
    {
        proof {
            use_type_invariant(&*self);
            lemma_run_is_seq(self@);
            lemma_split_at_boundary(self@, mid as int);
        }
        let right = self.octets.range_from(mid);
        self.octets = self.octets.range_to(mid);
        RelativeDname { octets: right }
    }

    /// Cuts the name at offset `mid`, which must be where a label begins
    /// or the name ends: the name keeps what lies after, and what lies
    /// before is returned.
    pub fn split_to(&mut self, mid: usize) -> (r: Self)
        requires
            is_boundary(old(self)@, mid as int),
        ensures
            final(self).wf(),
            r.wf(),
            final(self)@ == old(self)@.subrange(mid as int, old(self)@.len() as int),
            r@ == old(self)@.subrange(0, mid as int),
    {
        proof {
            use_type_invariant(&*self);
            lemma_run_is_seq(self@);
            lemma_split_at_boundary(self@, mid as int);
        }
        let left = self.octets.range_to(mid);
        self.octets = self.octets.range_from(mid);
        RelativeDname { octets: left }
    }

    /// Shortens the name to `len` octets. `len` must be where a label
    /// begins or the name ends.
    pub fn truncate(&mut self, len: usize)
        requires
            is_boundary(old(self)@, len as int),
        ensures
            final(self).wf(),
            final(self)@ == old(self)@.subrange(0, len as int),
    {
        proof {
            use_type_invariant(&*self);
            lemma_run_is_seq(self@);
            lemma_split_at_boundary(self@, len as int);
        }
        self.octets = self.octets.range_to(len);
    }

    /// Takes the first label off the name and returns it as a name of
    /// its own. The empty name stays as it is.
    pub fn split_first(&mut self) -> (r: Option<Self>)
        ensures
            final(self).wf(),
            r matches Some(part) ==> part.wf(),
            r is Some <==> old(self)@.len() > 0,
            r is None ==> final(self)@ == old(self)@,
            r matches Some(first) ==> {
                &&& first@ == old(self)@.subrange(0, head_len(old(self)@))
                &&& final(self)@ == tail(old(self)@)
                &&& first.labels() == seq![old(self).labels()[0]]
                &&& final(self).labels() == old(self).labels().skip(1)
            },
    {
        proof {
            use_type_invariant(&*self);
            lemma_run_is_seq(self@);
            assert(self@.skip(0) =~= self@);
        }
        if self.is_empty() {
            return None;
        }
        let first_end = match self.first() {
            Some(label) => label.len() + 1,
            None => {
                return None;
            },
        };
        proof {
            let s = self@;
            lemma_step(s, 0);
            lemma_split_at_boundary(s, first_end as int);
            assert(s.skip(first_end as int) =~= tail(s));
            assert(labels(s).skip(1) =~= labels(tail(s)));
            let one = s.subrange(0, first_end as int);
            assert(head(one) =~= head(s));
            assert(tail(one) =~= Seq::<u8>::empty());
            assert(labels(tail(one)) =~= Seq::<Seq<u8>>::empty());
            assert(labels(one) =~= seq![labels(s)[0]]);
        }
        Some(self.split_to(first_end))
    }

    /// Takes the first label off the name, and says whether there was one.
    pub fn parent(&mut self) -> (r: bool)
        ensures
            final(self).wf(),
            r <==> old(self)@.len() > 0,
            !r ==> final(self)@ == old(self)@,
            r ==> final(self)@ == tail(old(self)@) && final(self).labels() == old(
                self,
            ).labels().skip(1),
    {
        self.split_first().is_some()
    }

    /// Takes the labels of `base` off the end of the name, if the name
    /// ends with them. It stays as it is if not.
    pub fn strip_suffix<N: ToRelativeDname>(&mut self, base: &N) -> (r: Result<
        (),
        StripSuffixError,
    >)
        ensures
            r is Ok <==> is_suffix(labels(base.wire()), old(self).labels()),
            r is Ok ==> base.wire().len() <= old(self)@.len() && final(self)@ == old(self)@.subrange(
                0,
                old(self)@.len() - base.wire().len(),
            ),
            r is Err ==> final(self)@ == old(self)@,
    {
        match suffix_start(&*self, base) {
            Some(idx) => {
                self.truncate(idx);
                Ok(())
            },
            None => Err(StripSuffixError),
        }
    }

    /// Writes the name, folded to lower case, into `state`. Names that
    /// are the same name write the same octets.
    pub fn hash(&self, state: &mut DefaultHasher)
        ensures
            final(state)@ == old(state)@.push(folded(self@)),
    {
        let slice = self.octets.as_slice();
        let mut low: Vec<u8> = Vec::new();
        let mut i: usize = 0;
        while i < slice.len()
            invariant
                i <= slice@.len(),
                low@.len() == i,
                forall|k: int| 0 <= k < i ==> low@[k] == fold(#[trigger] slice@[k]),
            decreases slice@.len() - i,
        {
            low.push(fold_octet(slice[i]));
            i = i + 1;
        }
        assert(low@ =~= folded(self@));
        state.write(low.as_slice());
    }
}

impl<O: Octets> Clone for RelativeDname<O> {
    fn clone(&self) -> (r: Self)
        ensures
            r.wf(),
            r@ == self@,
    {
        proof {
            use_type_invariant(self);
        }
        let octets = self.octets.duplicate();
        RelativeDname { octets }
    }
}

impl<O: Octets, N: ToRelativeDname> PartialEq<N> for RelativeDname<O> {
    fn eq(&self, other: &N) -> (r: bool) {
        name_eq(self, other)
    }
}

impl<O: Octets, N: ToRelativeDname> vstd::std_specs::cmp::PartialEqSpecImpl<N> for RelativeDname<O> {
    open spec fn obeys_eq_spec() -> bool {
        true
    }

    open spec fn eq_spec(&self, other: &N) -> bool {
        names_eq(labels(self@), labels(other.wire()))
    }
}

impl<O: Octets> Eq for RelativeDname<O> {

}

impl<O: Octets, N: ToRelativeDname> PartialOrd<N> for RelativeDname<O> {
    fn partial_cmp(&self, other: &N) -> (r: Option<Ordering>) {
        Some(to_ordering(name_order_of(self, other)))
    }
}

impl<O: Octets, N: ToRelativeDname> vstd::std_specs::cmp::PartialOrdSpecImpl<N> for RelativeDname<O> {
    open spec fn obeys_partial_cmp_spec() -> bool {
        true
    }

    open spec fn partial_cmp_spec(&self, other: &N) -> Option<Ordering> {
        Some(ordering_of(name_order(labels(self@), labels(other.wire()))))
    }
}

impl<O: Octets> Compose for RelativeDname<O> {
    open spec fn is_composed(&self, out: Seq<u8>) -> bool {
        out == self@
    }

    open spec fn composed_len(&self) -> nat {
        self@.len()
    }

    proof fn lemma_composed_len(&self, out: Seq<u8>) {
    }

    fn compose_len(&self) -> (n: usize) {
        self.octets.len()
    }

    /// Appends the octets of the name to `target`.
    fn compose<T: ComposeTarget>(&self, target: &mut T)
        ensures
            final(target).written() == old(target).written() + self@,
    {
        target.append_slice(self.octets.as_slice());
        proof {
            let before = old(target).written();
            let after = target.written();
            assert(after.subrange(0, before.len() as int) =~= before);
            assert(after.subrange(before.len() as int, after.len() as int) =~= self@);
        }
    }
}

impl<O: Octets> ToLabelIter for RelativeDname<O> {
    open spec fn wire(&self) -> Seq<u8> {
        self@
    }

    open spec fn is_name(&self) -> bool {
        is_relative(self@)
    }

    proof fn lemma_name(&self) {
        lemma_run_is_seq(self@);
    }

    fn wire_len(&self) -> (n: usize) {
        proof {
            use_type_invariant(self);
        }
        self.octets.len()
    }

    fn label_at(&self, pos: usize) -> (r: Label<'_>) {
        proof {
            use_type_invariant(self);
            lemma_run_is_seq(self@);
        }
        label_at(self.octets.as_slice(), pos)
    }

    fn label_start_before(&self, end: usize) -> (r: usize) {
        proof {
            use_type_invariant(self);
            lemma_run_is_seq(self@);
        }
        label_start_before(self.octets.as_slice(), end)
    }
}

impl<O: Octets> ParseAll<O> for RelativeDname<O> {
    type Err = RelativeDnameError;

    open spec fn parsed_all(rest: Seq<u8>, len: usize, r: Result<Self, Self::Err>) -> bool {
        if len > rest.len() {
            r == Err::<Self, RelativeDnameError>(RelativeDnameError::ShortData)
        } else {
            match r {
                Ok(name) => is_relative(rest.take(len as int)) && name@ == rest.take(len as int),
                Err(e) => relative_error(rest.take(len as int)) == Some(e),
            }
        }
    }

    /// Reads the relative name that the next `len` octets are.
    fn parse_all(parser: &mut Parser<O>, len: usize) -> (r: Result<Self, Self::Err>) {
        match parser.parse_octets(len) {
            Ok(octets) => Self::from_octets(octets),
            Err(_) => Err(RelativeDnameError::ShortData),
        }
    }
}

impl<O: Octets> ToRelativeDname for RelativeDname<O> {
    proof fn lemma_relative(&self) {
    }
}

impl RelativeDname<Bytes> {
    /// Makes a name of a reference-counted buffer, if its octets are a
    /// relative name.
    pub fn from_bytes(bytes: Bytes) -> (r: Result<Self, RelativeDnameError>)
        ensures
            r is Ok <==> is_relative(bytes.content()),
            r matches Ok(name) ==> name@ == bytes.content(),
            r matches Err(e) ==> relative_error(bytes.content()) == Some(e),
    {
        Self::from_octets(bytes)
    }

    /// The buffer that holds the name.
    pub fn as_bytes(&self) -> (r: &Bytes)
        ensures
            r.content() == self@,
    {
        &self.octets
    }

    /// Gives up the name for the buffer that holds it.
    pub fn into_bytes(self) -> (r: Bytes)
        ensures
            r.content() == self@,
    {
        self.octets
    }

    /// Turns the name into a builder that goes on from it. The buffer is
    /// used as it is where no other value shares it, and copied where one
    /// does.
    pub fn into_builder(self) -> (r: DnameBuilder)
        ensures
            r.wf(),
            r@ == self@,
    {
        proof {
            use_type_invariant(&self);
        }
        let bytes = match bytes_try_mut(self.octets) {
            Ok(bytes) => bytes,
            Err(bytes) => bytes_mut_from_slice(bytes.as_slice()),
        };
        DnameBuilder::from_bytes(bytes)
    }

    /// Adds the root label to the name, which makes it an absolute name.
    pub fn into_absolute(self) -> (r: Dname<Bytes>)
        ensures
            r.wf(),
            r@ == self@.push(0u8),
    {
        proof {
            use_type_invariant(&self);
        }
        self.into_builder().into_dname().unwrap()
    }
}

impl<'a> RelativeDname<&'a [u8]> {
    /// Makes a name of a slice, if its octets are a relative name.
    pub fn from_slice(slice: &'a [u8]) -> (r: Result<Self, RelativeDnameError>)
        ensures
            r is Ok <==> is_relative(slice@),
            r matches Ok(name) ==> name@ == slice@,
            r matches Err(e) ==> relative_error(slice@) == Some(e),
    {
        Self::from_octets(slice)
    }
}

impl RelativeDname<&'static [u8]> {
    /// The name without any label, over octets that live for the whole
    /// run of the program.
    pub fn static_empty() -> (r: Self)
        ensures
            r.wf(),
            r@ == Seq::<u8>::empty(),
    {
        Self::empty()
    }

    /// The wildcard name, over octets that live for the whole run of the
    /// program.
    pub fn static_wildcard() -> (r: Self)
        ensures
            r.wf(),
            r@ == seq![1u8, 42u8],
    {
        Self::wildcard()
    }
}

/// A walk over the labels of a name that lies in one slice, from either
/// end.
#[derive(Debug)]
pub struct DnameIter<'a> {
    slice: &'a [u8],
}

impl<'a> View for DnameIter<'a> {
    type V = Seq<u8>;

    closed spec fn view(&self) -> Seq<u8> {
        self.slice@
    }
}

impl<'a> Clone for DnameIter<'a> {
    fn clone(&self) -> (r: Self)
        ensures
            r.wf(),
            r@ == self@,
    {
        proof {
            use_type_invariant(self);
        }
        DnameIter { slice: self.slice }
    }
}

impl<'a> DnameIter<'a> {
    /// Whether the octets left are a run of labels. In every value that
    /// exists while the program runs they are.
    pub open spec fn wf(&self) -> bool {
        is_label_seq(self@)
    }

    #[verifier::type_invariant]
    spec fn inv(&self) -> bool {
        self.wf()
    }

    /// The labels that the walk has not handed out yet.
    pub open spec fn remaining(&self) -> Seq<Seq<u8>> {
        labels(self@)
    }

    /// A walk over the labels that `slice` encodes.
    pub fn new(slice: &'a [u8]) -> (r: Self)
        requires
            is_label_seq(slice@),
        ensures
            r.wf(),
            r@ == slice@,
    {
        DnameIter { slice }
    }

    /// Hands out the next label from the front.
    pub fn next(&mut self) -> (r: Option<Label<'a>>)
        ensures
            final(self).wf(),
            is_label_seq(old(self)@),
            r is Some <==> old(self)@.len() > 0,
            r is None ==> final(self)@ == old(self)@,
            r matches Some(label) ==> {
                &&& label.wf()
                &&& label@ == old(self).remaining()[0]
                &&& final(self)@ == tail(old(self)@)
                &&& final(self).remaining() == old(self).remaining().skip(1)
            },
    {
        proof {
            use_type_invariant(&*self);
        }
        let (label, rest) = match Label::split_from(self.slice) {
            Ok(res) => res,
            Err(_) => {
                return None;
            },
        };
        proof {
            assert(labels(self@).skip(1) =~= labels(tail(self@)));
        }
        self.slice = rest;
        Some(label)
    }

    /// Hands out the next label from the back.
    pub fn next_back(&mut self) -> (r: Option<Label<'a>>)
        ensures
            final(self).wf(),
            is_label_seq(old(self)@),
            r is Some <==> old(self)@.len() > 0,
            r is None ==> final(self)@ == old(self)@,
            r matches Some(label) ==> {
                &&& label.wf()
                &&& label@ == old(self).remaining().last()
                &&& final(self)@ == old(self)@.subrange(0, old(self)@.len() - label@.len() - 1)
                &&& final(self).remaining() == old(self).remaining().drop_last()
            },
    {
        proof {
            use_type_invariant(&*self);
            lemma_end_is_boundary(self@);
        }
        if self.slice.len() == 0 {
            return None;
        }
        let whole = self.slice;
        let start = label_start_before(whole, whole.len());
        let label = label_at(whole, start);
        proof {
            lemma_step_back(whole@, start as int);
            lemma_split_at_boundary(whole@, start as int);
            assert(whole@.take(whole@.len() as int) =~= whole@);
            assert(whole@.take(start as int) =~= whole@.subrange(0, start as int));
            assert(labels(whole@).drop_last() =~= labels(whole@.take(start as int)));
        }
        self.slice = vstd::slice::slice_subrange(whole, 0, start);
        Some(label)
    }
}

} // verus!

//! Uncompressed, absolute domain names.
//!
//! An absolute name is a relative name followed by the root label. It is
//! at most 255 octets long.

use crate::canonical::{dotted, is_prefix, is_suffix, name_order, names_eq};
use crate::sort::{ordering_of, to_ordering};
use crate::compose::{Compose, ComposeTarget};
use crate::label::{fold, fold_octet, folded, split_error, Label, LabelTypeError, SplitLabelError};
use crate::octets::Octets;
use crate::parse::{Parse, ParseAll, Parser, ShortBuf};
use crate::relative::{DnameIter, RelativeDname, StripSuffixError};
use crate::scan::{count_labels, is_label_start, label_at, label_start_before};
use crate::traits::{
    name_ends_with, name_eq, name_order_of, name_starts_with, name_to_text, suffix_start, ToDname,
    ToLabelIter,
};
use crate::wire::{
    has_label, head_len, is_absolute, is_label_offset, is_label_run, labels,
    lemma_absolute_boundary, lemma_absolute_parts, lemma_range_between_boundaries, lemma_run_is_seq,
    lemma_split_at_boundary, lemma_step, tail,
};
use bytes::Bytes;
use core::cmp::Ordering;
use std::collections::hash_map::DefaultHasher;
use std::hash::Hasher;
use vstd::array::array_as_slice;
use vstd::prelude::*;

verus! {

/// Why some octets are not an absolute name.
#[derive(Clone, Copy, Debug, PartialEq, Eq, Structural)]
pub enum DnameError {
    /// A label of a type other than the plain label was met.
    BadLabel(LabelTypeError),
    /// A compression pointer was met.
    CompressedName,
    /// The octets end before a label does.
    ShortData,
    /// The octets are more than 255.
    LongName,
    /// The root label was met before the last octet.
    TrailingData,
    /// The octets end without the root label.
    RelativeName,
}

impl From<SplitLabelError> for DnameError {
    fn from(err: SplitLabelError) -> (r: Self) {
        match err {
            SplitLabelError::Pointer(_) => DnameError::CompressedName,
            SplitLabelError::BadType(t) => DnameError::BadLabel(t),
            SplitLabelError::ShortBuf => DnameError::ShortData,
        }
    }
}

impl vstd::std_specs::convert::FromSpecImpl<SplitLabelError> for DnameError {
    open spec fn obeys_from_spec() -> bool {
        true
    }

    open spec fn from_spec(err: SplitLabelError) -> Self {
        match err {
            SplitLabelError::Pointer(_) => DnameError::CompressedName,
            SplitLabelError::BadType(t) => DnameError::BadLabel(t),
            SplitLabelError::ShortBuf => DnameError::ShortData,
        }
    }
}

impl From<ShortBuf> for DnameError {
    fn from(err: ShortBuf) -> (r: Self) {
        DnameError::ShortData
    }
}

impl vstd::std_specs::convert::FromSpecImpl<ShortBuf> for DnameError {
    open spec fn obeys_from_spec() -> bool {
        true
    }

    open spec fn from_spec(err: ShortBuf) -> Self {
        DnameError::ShortData
    }
}

/// What stands in the way of reading `s` as labels other than the root
/// label followed by the root label and nothing more.
pub open spec fn rooted_error(s: Seq<u8>) -> Option<DnameError>
    decreases s.len(),
{
    if !has_label(s) {
        Some(
            match split_error(s) {
                SplitLabelError::Pointer(_) => DnameError::CompressedName,
                SplitLabelError::BadType(t) => DnameError::BadLabel(t),
                SplitLabelError::ShortBuf => DnameError::ShortData,
            },
        )
    } else if s[0] == 0 {
        if s.len() == 1 {
            None
        } else {
            Some(DnameError::TrailingData)
        }
    } else if tail(s).len() == 0 {
        Some(DnameError::RelativeName)
    } else {
        rooted_error(tail(s))
    }
}

/// What stands in the way of reading `s` as an absolute name. The length
/// is looked at before any label is.
pub open spec fn absolute_error(s: Seq<u8>) -> Option<DnameError> {
    if s.len() > 255 {
        Some(DnameError::LongName)
    } else {
        rooted_error(s)
    }
}

/// Octets are an absolute name exactly when nothing stands in the way.
pub proof fn lemma_absolute_error(s: Seq<u8>)
    ensures
        rooted_error(s) is None <==> s.len() >= 1 && s.last() == 0 && is_label_run(s.drop_last()),
        absolute_error(s) is None <==> is_absolute(s),
    decreases s.len(),
{
    let front = s.drop_last();
    if !has_label(s) {
        if s.len() >= 1 && is_label_run(front) {
            if front.len() > 0 {
                assert(has_label(front));
                assert(front[0] == s[0]);
            }
        }
    } else if s[0] == 0 {
        if s.len() > 1 {
            assert(front[0] == 0);
        }
    } else if tail(s).len() == 0 {
        assert(front[0] == s[0]);
        assert(!has_label(front));
    } else {
        lemma_absolute_error(tail(s));
        assert(front[0] == s[0]);
        assert(has_label(front));
        assert(tail(front) =~= tail(s).drop_last());
        assert(s.last() == tail(s).last());
    }
}

/// Where the first root label of `s` ends, or the error that the labels
/// before it give.
pub open spec fn name_end(s: Seq<u8>) -> Result<int, DnameError>
    decreases s.len(),
{
    if !has_label(s) {
        Err(
            match split_error(s) {
                SplitLabelError::Pointer(_) => DnameError::CompressedName,
                SplitLabelError::BadType(t) => DnameError::BadLabel(t),
                SplitLabelError::ShortBuf => DnameError::ShortData,
            },
        )
    } else if s[0] == 0 {
        Ok(1)
    } else {
        match name_end(tail(s)) {
            Ok(n) => Ok(n + head_len(s)),
            Err(e) => Err(e),
        }
    }
}

/// The length of the absolute name that `s` starts with, or why it does
/// not start with one. The length is looked at when the root label has
/// been found.
pub open spec fn leading_name(s: Seq<u8>) -> Result<int, DnameError> {
    match name_end(s) {
        Ok(n) => if n > 255 {
            Err(DnameError::LongName)
        } else {
            Ok(n)
        },
        Err(e) => Err(e),
    }
}

/// What ends at the first root label is labels other than the root label
/// and then the root label.
pub proof fn lemma_name_end(s: Seq<u8>)
    ensures
        name_end(s) matches Ok(n) ==> 1 <= n <= s.len() && s[n - 1] == 0 && is_label_run(
            s.subrange(0, n - 1),
        ),
        leading_name(s) matches Ok(n) ==> 1 <= n <= s.len() && is_absolute(s.subrange(0, n)),
    decreases s.len(),
{
    if has_label(s) {
        if s[0] == 0 {
            assert(s.subrange(0, 0) =~= Seq::<u8>::empty());
        } else {
            lemma_name_end(tail(s));
            if let Ok(m) = name_end(tail(s)) {
                let n = m + head_len(s);
                let front = s.subrange(0, n - 1);
                assert(has_label(front));
                assert(tail(front) =~= tail(s).subrange(0, m - 1));
            }
        }
    }
    if let Ok(n) = leading_name(s) {
        assert(s.subrange(0, n).drop_last() =~= s.subrange(0, n - 1));
    }
}

/// The length of the absolute name at the front of `slice`.
fn name_len(slice: &[u8]) -> (r: Result<usize, DnameError>)
    ensures
        r is Ok <==> leading_name(slice@) is Ok,
        r matches Ok(n) ==> leading_name(slice@) == Ok::<int, DnameError>(n as int),
        r matches Err(e) ==> leading_name(slice@) == Err::<int, DnameError>(e),
{
    let mut tmp = slice;
    let mut done: usize = 0;
    let total = slice.len();
    proof {
        assert(slice@.skip(0) =~= slice@);
    }
    loop
        invariant_except_break
            done <= slice@.len() <= usize::MAX,
            tmp@ == slice@.skip(done as int),
            name_end(slice@) == match name_end(tmp@) {
                Ok(n) => Ok::<int, DnameError>(n + done),
                Err(e) => Err(e),
            },
        ensures
            done <= slice@.len(),
            name_end(slice@) == Ok::<int, DnameError>(done as int),
        decreases tmp@.len(),
    {
        match Label::split_from(tmp) {
            Ok((label, rest)) => {
                proof {
                    assert(rest@ =~= slice@.skip(done + 1 + label@.len()));
                }
                done = done + 1 + label.len();
                tmp = rest;
                if label.is_root() {
                    break ;
                }
            },
            Err(e) => {
                return Err(DnameError::from(e));
            },
        }
    }
    if done > 255 {
        Err(DnameError::LongName)
    } else {
        Ok(done)
    }
}

impl<O: Octets> Parse<O> for Dname<O> {
    type Err = DnameError;

    /// Reads the absolute name that the rest of the data starts with.
    fn parse(parser: &mut Parser<O>) -> (r: Result<Self, Self::Err>)
        ensures
            r is Ok <==> leading_name(old(parser).rest()) is Ok,
            r matches Ok(name) ==> leading_name(old(parser).rest()) == Ok::<int, DnameError>(
                name@.len() as int,
            ) && name@ == old(parser).rest().take(name@.len() as int) && final(parser).position()
                == old(parser).position() + name@.len(),
            r matches Err(e) ==> leading_name(old(parser).rest()) == Err::<int, DnameError>(e)
                && final(parser).position() == old(parser).position(),
    {
        proof {
            lemma_name_end(parser.rest());
        }
        let len = match name_len(parser.peek_all()) {
            Ok(len) => len,
            Err(e) => {
                return Err(e);
            },
        };
        match parser.parse_octets(len) {
            Ok(octets) => {
                proof {
                    assert(old(parser).rest().take(len as int) =~= old(parser).rest().subrange(
                        0,
                        len as int,
                    ));
                }
                Ok(Dname { octets })
            },
            Err(_) => Err(DnameError::ShortData),
        }
    }

    /// Reads over the absolute name that the rest of the data starts with.
    fn skip(parser: &mut Parser<O>) -> (r: Result<(), Self::Err>)
        ensures
            r is Ok <==> leading_name(old(parser).rest()) is Ok,
            r is Ok ==> leading_name(old(parser).rest()) == Ok::<int, DnameError>(
                final(parser).position() - old(parser).position(),
            ),
            r matches Err(e) ==> leading_name(old(parser).rest()) == Err::<int, DnameError>(e)
                && final(parser).position() == old(parser).position(),
    {
        proof {
            lemma_name_end(parser.rest());
        }
        let len = match name_len(parser.peek_all()) {
            Ok(len) => len,
            Err(e) => {
                return Err(e);
            },
        };
        match parser.advance(len) {
            Ok(()) => Ok(()),
            Err(_) => Err(DnameError::ShortData),
        }
    }
}

const ROOT: [u8; 1] = [0];

/// An uncompressed, absolute domain name in some octet buffer.
#[derive(Debug)]
pub struct Dname<O: Octets = Bytes> {
    octets: O,
}

impl<O: Octets> View for Dname<O> {
    type V = Seq<u8>;

    closed spec fn view(&self) -> Seq<u8> {
        self.octets.content()
    }
}

impl<O: Octets> Dname<O> {
    /// Whether the octets held are an absolute name. Every value that
    /// exists while the program runs is.
    pub open spec fn wf(&self) -> bool {
        is_absolute(self@)
    }

    #[verifier::type_invariant]
    spec fn inv(&self) -> bool {
        self.wf()
    }

    /// The labels of the name, first to last. The last is the root label.
    pub open spec fn labels(&self) -> Seq<Seq<u8>> {
        labels(self@)
    }

    /// Makes a name of octets that are known to be an absolute name.
    pub(crate) fn from_octets_unchecked(octets: O) -> (r: Self)
        requires
            is_absolute(octets.content()),
        ensures
            r.wf(),
            r@ == octets.content(),
    {
        Dname { octets }
    }

    /// The name of the root: the root label alone.
    pub fn root() -> (r: Self)
        ensures
            r.wf(),
            r@ == seq![0u8],
    {
        let octets = O::from_static(array_as_slice(&ROOT));
        proof {
            let s = octets.content();
            assert(s =~= seq![0u8]);
            assert(s.drop_last() =~= Seq::<u8>::empty());
        }
        Dname { octets }
    }

    /// Makes a name of octets, if they are an absolute name.
    pub fn from_octets(octets: O) -> (r: Result<Self, DnameError>)
        ensures
            r is Ok <==> is_absolute(octets.content()),
            r matches Ok(name) ==> name@ == octets.content(),
            r matches Err(e) ==> absolute_error(octets.content()) == Some(e),
    {
        proof {
            lemma_absolute_error(octets.content());
        }
        if octets.len() > 255 {
            return Err(DnameError::LongName);
        }
        {
            let whole = octets.as_slice();
            let mut tmp = whole;
            loop
                invariant_except_break
                    whole@ == octets.content(),
                    whole@.len() <= 255,
                    rooted_error(whole@) is None <==> is_absolute(whole@),
                    rooted_error(whole@) == rooted_error(tmp@),
                ensures
                    is_absolute(octets.content()),
                decreases tmp@.len(),
            {
                match Label::split_from(tmp) {
                    Ok((label, rest)) => {
                        if label.is_root() {
                            if rest.len() == 0 {
                                break ;
                            } else {
                                return Err(DnameError::TrailingData);
                            }
                        }
                        if rest.len() == 0 {
                            return Err(DnameError::RelativeName);
                        }
                        tmp = rest;
                    },
                    Err(e) => {
                        return Err(DnameError::from(e));
                    },
                }
            }
        }
        Ok(Dname { octets })
    }

    /// The buffer that holds the name.
    pub fn as_octets(&self) -> (r: &O)
        ensures
            r.content() == self@,
    {
        &self.octets
    }

    /// The wire format of the name.
    pub fn as_slice(&self) -> (r: &[u8])
        ensures
            r@ == self@,
            is_absolute(self@),
    {
        proof {
            use_type_invariant(self);
        }
        self.octets.as_slice()
    }

    /// Gives up the name for the buffer that holds it.
    pub fn unwrap(self) -> (r: O)
        ensures
            r.content() == self@,
    {
        self.octets
    }

    /// The same name in a reference-counted buffer.
    pub fn to_name(&self) -> (r: Dname<Bytes>)
        ensures
            r.wf(),
            r@ == self@,
    {
        proof {
            use_type_invariant(self);
        }
        Dname { octets: self.octets.to_bytes() }
    }

    /// The wire format of the name, which lies in one piece.
    pub fn as_flat_slice(&self) -> (r: Option<&[u8]>)
        ensures
            r matches Some(slice) && slice@ == self@,
    {
        Some(self.octets.as_slice())
    }

    /// Where the name stands to `other` in the canonical order of names.
    pub fn cmp(&self, other: &Self) -> (r: Ordering)
        ensures
            r == ordering_of(name_order(self.labels(), other.labels())),
    {
        to_ordering(name_order_of(self, other))
    }

    /// The length of the wire format.
    pub fn len(&self) -> (r: usize)
        ensures
            r == self@.len(),
            1 <= r <= 255,
    {
        proof {
            use_type_invariant(self);
        }
        self.octets.len()
    }

    /// Whether the name is the name of the root.
    pub fn is_root(&self) -> (r: bool)
        ensures
            r <==> self@.len() == 1,
    {
        self.octets.len() == 1
    }

    /// A walk over the labels of the name.
    pub fn iter(&self) -> (r: DnameIter<'_>)
        ensures
            r@ == self@,
    {
        proof {
            use_type_invariant(self);
            lemma_absolute_parts(self@);
        }
        DnameIter::new(self.octets.as_slice())
    }

    /// The number of labels, the root label counted.
    pub fn label_count(&self) -> (r: usize)
        ensures
            r == self.labels().len(),
    {
        proof {
            use_type_invariant(self);
            lemma_absolute_parts(self@);
        }
        count_labels(self.octets.as_slice())
    }

    /// The first label. In the name of the root it is the root label.
    pub fn first(&self) -> (r: Label<'_>)
        ensures
            r.wf(),
            self.labels().len() > 0,
            r@ == self.labels()[0],
    {
        proof {
            use_type_invariant(self);
            lemma_absolute_parts(self@);
            assert(self@.skip(0) =~= self@);
        }
        label_at(self.octets.as_slice(), 0)
    }

    /// The last label, which is the root label.
    pub fn last(&self) -> (r: Label<'static>)
        ensures
            r.wf(),
            r@.len() == 0,
            r@ == self.labels().last(),
    {
        proof {
            use_type_invariant(self);
            lemma_absolute_parts(self@);
        }
        let r = Label::root();
        assert(r@ =~= Seq::<u8>::empty());
        r
    }

    /// The name in the way it is written in text: its labels with dots
    /// between them.
    pub fn to_text(&self) -> (r: Vec<u8>)
        ensures
            r@ == dotted(self.labels()),
    {
        name_to_text(self)
    }

    /// Whether the labels of `base` are the first labels of the name.
    pub fn starts_with<N: ToLabelIter>(&self, base: &N) -> (r: bool)
        ensures
            r == is_prefix(labels(base.wire()), self.labels()),
    {
        name_starts_with(self, base)
    }

    /// Whether the labels of `base` are the last labels of the name.
    pub fn ends_with<N: ToLabelIter>(&self, base: &N) -> (r: bool)
        ensures
            r == is_suffix(labels(base.wire()), self.labels()),
    {
        name_ends_with(self, base)
    }

    /// Whether `index` is where a label of the name begins.
    pub fn is_label_start(&self, index: usize) -> (r: bool)
        ensures
            r <==> is_label_offset(self@, index as int),
    {
        proof {
            use_type_invariant(self);
            lemma_absolute_parts(self@);
        }
        let slice = self.octets.as_slice();
        index < slice.len() && is_label_start(slice, index)
    }

    /// The part of the name from offset `start` on, which must be where
    /// a label begins.
    pub fn range_from(&self, start: usize) -> (r: Self)
        requires
            is_label_offset(self@, start as int),
        ensures
            r.wf(),
            r@ == self@.subrange(start as int, self@.len() as int),
    {
        proof {
            use_type_invariant(self);
            let s = self@;
            let run = s.drop_last();
            lemma_absolute_parts(s);
            lemma_absolute_boundary(s, start as int);
            lemma_run_is_seq(run);
            lemma_split_at_boundary(run, start as int);
            let part = s.subrange(start as int, s.len() as int);
            assert(part.drop_last() =~= run.subrange(start as int, run.len() as int));
        }
        Dname { octets: self.octets.range_from(start) }
    }

    /// The part of the name before offset `end`, which must be where a
    /// label begins. It is a relative name.
    pub fn range_to(&self, end: usize) -> (r: RelativeDname<O>)
        requires
            is_label_offset(self@, end as int),
        ensures
            r.wf(),
            r@ == self@.subrange(0, end as int),
    {
        proof {
            use_type_invariant(self);
            let s = self@;
            let run = s.drop_last();
            lemma_absolute_parts(s);
            lemma_absolute_boundary(s, end as int);
            lemma_run_is_seq(run);
            lemma_split_at_boundary(run, end as int);
            assert(s.subrange(0, end as int) =~= run.subrange(0, end as int));
        }
        RelativeDname::from_octets_unchecked(self.octets.range_to(end))
    }

    /// The part of the name from offset `start` up to offset `end`. Both
    /// must be where a label begins. It is a relative name.
    pub fn range(&self, start: usize, end: usize) -> (r: RelativeDname<O>)
        requires
            is_label_offset(self@, start as int),
            is_label_offset(self@, end as int),
            start <= end,
        ensures
            r.wf(),
            r@ == self@.subrange(start as int, end as int),
    {
        proof {
            use_type_invariant(self);
            let s = self@;
            let run = s.drop_last();
            lemma_absolute_parts(s);
            lemma_absolute_boundary(s, start as int);
            lemma_absolute_boundary(s, end as int);
            lemma_run_is_seq(run);
            lemma_range_between_boundaries(run, start as int, end as int);
            assert(s.subrange(start as int, end as int) =~= run.subrange(start as int, end as int));
        }
        RelativeDname::from_octets_unchecked(self.octets.range(start, end))
    }

    /// The name without its root label: a relative name.
    pub fn into_relative(self) -> (r: RelativeDname<O>)
        ensures
            r.wf(),
            r@ == self@.drop_last(),
    {
        proof {
            use_type_invariant(&self);
            lemma_absolute_parts(self@);
            assert(self@.drop_last() =~= self@.subrange(0, self@.len() - 1));
        }
        let end = self.octets.len() - 1;
        RelativeDname::from_octets_unchecked(self.octets.range_to(end))
    }

    /// Takes the first label off the name and returns it as a relative
    /// name. The name of the root stays as it is.
    pub fn split_first(&mut self) -> (r: Option<RelativeDname<O>>)
        ensures
            final(self).wf(),
            r matches Some(part) ==> part.wf(),
            r is Some <==> old(self)@.len() > 1,
            r is None ==> final(self)@ == old(self)@,
            r matches Some(first) ==> {
                &&& first@ == old(self)@.subrange(0, head_len(old(self)@))
                &&& final(self)@ == tail(old(self)@)
                &&& final(self).labels() == old(self).labels().skip(1)
            },
    {
        proof {
            use_type_invariant(&*self);
        }
        if self.octets.len() == 1 {
            return None;
        }
        let end = self.first().len() + 1;
        proof {
            let s = self@;
            let run = s.drop_last();
            lemma_absolute_parts(s);
            lemma_run_is_seq(run);
            assert(run.skip(0) =~= run);
            assert(run[0] == s[0]);
            lemma_step(run, 0);
            lemma_absolute_boundary(s, end as int);
            assert(s.skip(0) =~= s);
            lemma_step(s, 0);
            assert(s.skip(end as int) =~= tail(s));
            assert(labels(s).skip(1) =~= labels(tail(s)));
        }
        let first = self.range_to(end);
        let rest = self.range_from(end);
        proof {
            use_type_invariant(&rest);
        }
        self.octets = rest.unwrap();
        Some(first)
    }

    /// Takes the first label off the name, and says whether there was one
    /// other than the root label.
    pub fn parent(&mut self) -> (r: bool)
        ensures
            final(self).wf(),
            r <==> old(self)@.len() > 1,
            !r ==> final(self)@ == old(self)@,
            r ==> final(self)@ == tail(old(self)@) && final(self).labels() == old(
                self,
            ).labels().skip(1),
    {
        self.split_first().is_some()
    }

    /// Takes the labels of `base` off the end of the name, if the name
    /// ends with them, and returns what is left: a relative name.
    pub fn strip_suffix<N: ToDname>(self, base: &N) -> (r: Result<RelativeDname<O>, StripSuffixError>)
        ensures
            r matches Ok(part) ==> part.wf(),
            r is Ok <==> is_suffix(labels(base.wire()), self.labels()),
            r matches Ok(rest) ==> base.wire().len() <= self@.len() && rest@ == self@.subrange(
                0,
                self@.len() - base.wire().len(),
            ),
    {
        proof {
            use_type_invariant(&self);
        }
        match suffix_start(&self, base) {
            Some(idx) => {
                proof {
                    base.lemma_name();
                    base.lemma_absolute();
                }
                Ok(self.range_to(idx))
            },
            None => Err(StripSuffixError),
        }
    }

    /// Writes the name, folded to lower case, into `state`. Names that
    /// are the same name write the same octets.
    pub fn hash(&self, state: &mut DefaultHasher)
        ensures
            final(state)@ == old(state)@.push(folded(self@)),
    {
        let slice = self.octets.as_slice();
        let mut low: Vec<u8> = Vec::new();
        let mut i: usize = 0;
        while i < slice.len()
            invariant
                i <= slice@.len(),
                low@.len() == i,
                forall|k: int| 0 <= k < i ==> low@[k] == fold(#[trigger] slice@[k]),
            decreases slice@.len() - i,
        {
            low.push(fold_octet(slice[i]));
            i = i + 1;
        }
        assert(low@ =~= folded(self@));
        state.write(low.as_slice());
    }
}

impl<O: Octets> Clone for Dname<O> {
    fn clone(&self) -> (r: Self)
        ensures
            r.wf(),
            r@ == self@,
    {
        proof {
            use_type_invariant(self);
        }
        let octets = self.octets.duplicate();
        Dname { octets }
    }
}

impl<O: Octets, N: ToDname> PartialEq<N> for Dname<O> {
    fn eq(&self, other: &N) -> (r: bool) {
        name_eq(self, other)
    }
}

impl<O: Octets, N: ToDname> vstd::std_specs::cmp::PartialEqSpecImpl<N> for Dname<O> {
    open spec fn obeys_eq_spec() -> bool {
        true
    }

    open spec fn eq_spec(&self, other: &N) -> bool {
        names_eq(labels(self@), labels(other.wire()))
    }
}

impl<O: Octets> Eq for Dname<O> {

}

impl<O: Octets, N: ToDname> PartialOrd<N> for Dname<O> {
    fn partial_cmp(&self, other: &N) -> (r: Option<Ordering>) {
        Some(to_ordering(name_order_of(self, other)))
    }
}

impl<O: Octets, N: ToDname> vstd::std_specs::cmp::PartialOrdSpecImpl<N> for Dname<O> {
    open spec fn obeys_partial_cmp_spec() -> bool {
        true
    }

    open spec fn partial_cmp_spec(&self, other: &N) -> Option<Ordering> {
        Some(ordering_of(name_order(labels(self@), labels(other.wire()))))
    }
}

impl<O: Octets> Compose for Dname<O> {
    open spec fn is_composed(&self, out: Seq<u8>) -> bool {
        out == self@
    }

    open spec fn composed_len(&self) -> nat {
        self@.len()
    }

    proof fn lemma_composed_len(&self, out: Seq<u8>) {
    }

    fn compose_len(&self) -> (n: usize) {
        self.octets.len()
    }

    /// Appends the octets of the name to `target`.
    fn compose<T: ComposeTarget>(&self, target: &mut T)
        ensures
            final(target).written() == old(target).written() + self@,
    {
        target.append_slice(self.octets.as_slice());
        proof {
            let before = old(target).written();
            let after = target.written();
            assert(after.subrange(0, before.len() as int) =~= before);
            assert(after.subrange(before.len() as int, after.len() as int) =~= self@);
        }
    }
}

impl<O: Octets> ToLabelIter for Dname<O> {
    open spec fn wire(&self) -> Seq<u8> {
        self@
    }

    open spec fn is_name(&self) -> bool {
        is_absolute(self@)
    }

    proof fn lemma_name(&self) {
        lemma_absolute_parts(self@);
    }

    fn wire_len(&self) -> (n: usize) {
        proof {
            use_type_invariant(self);
        }
        self.octets.len()
    }

    fn label_at(&self, pos: usize) -> (r: Label<'_>) {
        proof {
            use_type_invariant(self);
            lemma_absolute_parts(self@);
        }
        label_at(self.octets.as_slice(), pos)
    }

    fn label_start_before(&self, end: usize) -> (r: usize) {
        proof {
            use_type_invariant(self);
            lemma_absolute_parts(self@);
        }
        label_start_before(self.octets.as_slice(), end)
    }
}

impl<O: Octets> ParseAll<O> for Dname<O> {
    type Err = DnameError;

    open spec fn parsed_all(rest: Seq<u8>, len: usize, r: Result<Self, Self::Err>) -> bool {
        if len > rest.len() {
            r == Err::<Self, DnameError>(DnameError::ShortData)
        } else {
            match r {
                Ok(name) => is_absolute(rest.take(len as int)) && name@ == rest.take(len as int),
                Err(e) => absolute_error(rest.take(len as int)) == Some(e),
            }
        }
    }

    /// Reads the absolute name that the next `len` octets are.
    fn parse_all(parser: &mut Parser<O>, len: usize) -> (r: Result<Self, Self::Err>) {
        match parser.parse_octets(len) {
            Ok(octets) => Self::from_octets(octets),
            Err(_) => Err(DnameError::ShortData),
        }
    }
}

impl<O: Octets> ToDname for Dname<O> {
    proof fn lemma_absolute(&self) {
    }
}

impl<'a> Dname<&'a [u8]> {
    /// Makes a name of a slice, if its octets are an absolute name.
    pub fn from_slice(slice: &'a [u8]) -> (r: Result<Self, DnameError>)
        ensures
            r is Ok <==> is_absolute(slice@),
            r matches Ok(name) ==> name@ == slice@,
            r matches Err(e) ==> absolute_error(slice@) == Some(e),
    {
        Self::from_octets(slice)
    }
}

impl Dname<Bytes> {
    /// Makes a name of a reference-counted buffer, if its octets are an
    /// absolute name.
    pub fn from_bytes(bytes: Bytes) -> (r: Result<Self, DnameError>)
        ensures
            r is Ok <==> is_absolute(bytes.content()),
            r matches Ok(name) ==> name@ == bytes.content(),
            r matches Err(e) ==> absolute_error(bytes.content()) == Some(e),
    {
        Self::from_octets(bytes)
    }

    /// The buffer that holds the name.
    pub fn as_bytes(&self) -> (r: &Bytes)
        ensures
            r.content() == self@,
    {
        &self.octets
    }

    /// Gives up the name for the buffer that holds it.
    pub fn into_bytes(self) -> (r: Bytes)
        ensures
            r.content() == self@,
    {
        self.octets
    }
}

} // verus!

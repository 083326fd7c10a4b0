//! Domain name labels.
//!
//! A label is the payload between two dots of a name: at most 63 octets.
//! Labels compare without regard to the case of ASCII letters.

use crate::compose::{compose_u8, Compose, ComposeTarget};
use crate::sort::{ordering_of, to_ordering};
use crate::wire::{encode_label, has_label, head, tail};
use core::cmp::Ordering;
use vstd::array::array_as_slice;
use vstd::prelude::*;
use vstd::slice::slice_subrange;

verus! {

/// A label whose first octet marks a kind other than the plain label.
#[derive(Clone, Copy, Debug, PartialEq, Eq, Structural)]
pub enum LabelTypeError {
    /// The first octet lies in the range that no label type was given.
    Undefined,
    /// The first octet announces an extended label type.
    Extended(u8),
}

/// Why no label could be taken from the front of some octets.
#[derive(Clone, Copy, Debug, PartialEq, Eq, Structural)]
pub enum SplitLabelError {
    /// The first octet starts a compression pointer. It is kept here.
    Pointer(u8),
    /// The first octet announces a label type that is not a plain label.
    BadType(LabelTypeError),
    /// The octets end before the label does.
    ShortBuf,
}

/// A payload of more than 63 octets was offered as a label.
#[derive(Clone, Copy, Debug, PartialEq, Eq, Structural)]
pub struct LongLabelError;

/// How one label or name stands to another in canonical order.
#[derive(Clone, Copy, Debug, PartialEq, Eq, Structural)]
pub enum Order {
    /// The first sorts before the second.
    Less,
    /// Neither sorts before the other.
    Equal,
    /// The first sorts after the second.
    Greater,
}

/// The octet `b` with an ASCII capital letter turned into its small letter.
pub open spec fn fold(b: u8) -> u8 {
    if 65 <= b <= 90 {
        (b + 32) as u8
    } else {
        b
    }
}

/// The octets of `s`, each folded to lower case.
pub open spec fn folded(s: Seq<u8>) -> Seq<u8> {
    Seq::new(s.len(), |i: int| fold(s[i]))
}

/// Whether two payloads are the same label: the same length and, octet by
/// octet, the same but for the case of ASCII letters.
pub open spec fn label_eq(a: Seq<u8>, b: Seq<u8>) -> bool {
    a.len() == b.len() && forall|i: int| 0 <= i < a.len() ==> fold(#[trigger] a[i]) == fold(b[i])
}

/// The canonical order of two payloads: the order of their folded octets
/// as words in a dictionary, so that a payload sorts before each longer
/// payload that starts with it.
pub open spec fn label_order(a: Seq<u8>, b: Seq<u8>) -> Order
    decreases a.len(),
{
    if a.len() == 0 {
        if b.len() == 0 {
            Order::Equal
        } else {
            Order::Less
        }
    } else if b.len() == 0 {
        Order::Greater
    } else if fold(a[0]) < fold(b[0]) {
        Order::Less
    } else if fold(a[0]) > fold(b[0]) {
        Order::Greater
    } else {
        label_order(a.skip(1), b.skip(1))
    }
}

/// The error that taking a label from the front of `s` meets, where `s`
/// does not open with a complete label.
pub open spec fn split_error(s: Seq<u8>) -> SplitLabelError {
    if s.len() == 0 {
        SplitLabelError::ShortBuf
    } else if s[0] >= 192 {
        SplitLabelError::Pointer(s[0])
    } else if s[0] >= 128 {
        SplitLabelError::BadType(LabelTypeError::Undefined)
    } else if s[0] >= 64 {
        SplitLabelError::BadType(LabelTypeError::Extended(s[0]))
    } else {
        SplitLabelError::ShortBuf
    }
}

/// One octet of a payload in the way it is written in text. A space, a
/// dot and a backslash get a backslash in front. An octet that is no
/// printable ASCII character is written as a backslash and its three
/// decimal digits.
pub open spec fn escaped(ch: u8) -> Seq<u8> {
    if ch == 0x20 || ch == 0x2e || ch == 0x5c {
        seq![0x5cu8, ch]
    } else if ch < 0x20 || ch >= 0x7f {
        seq![0x5cu8, (48 + ch / 100) as u8, (48 + (ch / 10) % 10) as u8, (48 + ch % 10) as u8]
    } else {
        seq![ch]
    }
}

/// A payload in the way it is written in text: its octets one after the
/// other, each escaped where need be.
pub open spec fn text_of(payload: Seq<u8>) -> Seq<u8>
    decreases payload.len(),
{
    if payload.len() == 0 {
        Seq::<u8>::empty()
    } else {
        text_of(payload.drop_last()) + escaped(payload.last())
    }
}

/// Folds one octet to lower case.
pub fn fold_octet(b: u8) -> (r: u8)
    ensures
        r == fold(b),
{
    if 65 <= b && b <= 90 {
        b + 32
    } else {
        b
    }
}

const NO_OCTETS: [u8; 0] = [];

const ASTERISK: [u8; 1] = [42];

/// The payload of one label, borrowed from the octets of a name.
#[derive(Clone, Copy, Debug)]
pub struct Label<'a> {
    slice: &'a [u8],
}

impl<'a> View for Label<'a> {
    type V = Seq<u8>;

    closed spec fn view(&self) -> Seq<u8> {
        self.slice@
    }
}

impl<'a> Label<'a> {
    /// Whether the label is one that can stand in a name: at most 63
    /// octets. Every value that exists while the program runs is.
    pub open spec fn wf(&self) -> bool {
        self@.len() <= 63
    }

    #[verifier::type_invariant]
    spec fn inv(&self) -> bool {
        self.wf()
    }

    /// The root label.
    pub fn root() -> (r: Label<'static>)
        ensures
            r.wf(),
            r@.len() == 0,
    {
        Label { slice: array_as_slice(&NO_OCTETS) }
    }

    /// The wildcard label, whose payload is one asterisk.
    pub fn wildcard() -> (r: Label<'static>)
        ensures
            r.wf(),
            r@ == seq![42u8],
    {
        let slice = array_as_slice(&ASTERISK);
        assert(slice@ =~= seq![42u8]);
        Label { slice }
    }

    /// Makes a label of a payload, which must not be longer than 63 octets.
    pub fn from_slice(slice: &'a [u8]) -> (r: Result<Label<'a>, LongLabelError>)
        ensures
            slice@.len() <= 63 <==> r is Ok,
            r matches Ok(label) ==> label.wf() && label@ == slice@,
    {
        if slice.len() > 63 {
            Err(LongLabelError)
        } else {
            Ok(Label { slice })
        }
    }

    /// Makes a label of a payload that is known to be short enough.
    pub(crate) fn from_payload(slice: &'a [u8]) -> (r: Label<'a>)
        requires
            slice@.len() <= 63,
        ensures
            r.wf(),
            r@ == slice@,
    {
        Label { slice }
    }

    /// Takes the first label from the front of `bytes`, and returns it with
    /// what follows it.
    pub fn split_from(bytes: &'a [u8]) -> (r: Result<(Label<'a>, &'a [u8]), SplitLabelError>)
        ensures
            has_label(bytes@) <==> r is Ok,
            r matches Ok((label, rest)) ==> label.wf() && label@ == head(bytes@) && rest@ == tail(
                bytes@,
            ),
            r matches Err(e) ==> e == split_error(bytes@),
    {
        if bytes.len() == 0 {
            return Err(SplitLabelError::ShortBuf);
        }
        let first = bytes[0];
        if first >= 192 {
            return Err(SplitLabelError::Pointer(first));
        }
        if first >= 128 {
            return Err(SplitLabelError::BadType(LabelTypeError::Undefined));
        }
        if first >= 64 {
            return Err(SplitLabelError::BadType(LabelTypeError::Extended(first)));
        }
        let end = first as usize + 1;
        if bytes.len() < end {
            return Err(SplitLabelError::ShortBuf);
        }
        let payload = slice_subrange(bytes, 1, end);
        let rest = slice_subrange(bytes, end, bytes.len());
        Ok((Label { slice: payload }, rest))
    }

    /// The payload.
    pub fn as_slice(&self) -> (s: &'a [u8])
        ensures
            s@ == self@,
    {
        self.slice
    }

    /// The number of octets of the payload.
    pub fn len(&self) -> (n: usize)
        ensures
            n == self@.len(),
            n <= 63,
    {
        proof {
            use_type_invariant(self);
        }
        self.slice.len()
    }

    /// Whether the payload is empty.
    pub fn is_empty(&self) -> (r: bool)
        ensures
            r <==> self@.len() == 0,
    {
        self.slice.len() == 0
    }

    /// Whether this is the root label.
    pub fn is_root(&self) -> (r: bool)
        ensures
            r <==> self@.len() == 0,
    {
        self.slice.len() == 0
    }

    /// Whether this is the wildcard label.
    pub fn is_wildcard(&self) -> (r: bool)
        ensures
            r <==> self@ == seq![42u8],
    {
        let r = self.slice.len() == 1 && self.slice[0] == 42;
        proof {
            if r {
                assert(self@ =~= seq![42u8]);
            }
        }
        r
    }

    /// Where the label stands to `other` in canonical order.
    pub fn cmp(&self, other: &Self) -> (r: Ordering)
        ensures
            r == ordering_of(label_order(self@, other@)),
    {
        to_ordering(self.order(other))
    }

    /// Appends the label to `out` in the way it is written in text.
    pub fn append_text(&self, out: &mut Vec<u8>)
        ensures
            final(out)@ == old(out)@ + text_of(self@),
    {
        let slice = self.slice;
        let mut i: usize = 0;
        proof {
            assert(slice@.take(0) =~= Seq::<u8>::empty());
            assert(out@ =~= old(out)@ + text_of(slice@.take(0)));
        }
        while i < slice.len()
            invariant
                i <= slice@.len(),
                slice@ == self@,
                out@ == old(out)@ + text_of(slice@.take(i as int)),
            decreases slice@.len() - i,
        {
            let ch = slice[i];
            let ghost before = out@;
            if ch == 0x20 || ch == 0x2e || ch == 0x5c {
                out.push(0x5c);
                out.push(ch);
            } else if ch < 0x20 || ch >= 0x7f {
                out.push(0x5c);
                out.push(48 + ch / 100);
                out.push(48 + (ch / 10) % 10);
                out.push(48 + ch % 10);
            } else {
                out.push(ch);
            }
            proof {
                let next = slice@.take(i + 1);
                assert(next.drop_last() =~= slice@.take(i as int));
                assert(next.last() == ch);
                assert(out@ =~= before + escaped(ch));
                assert(out@ =~= old(out)@ + text_of(next));
            }
            i = i + 1;
        }
        proof {
            assert(slice@.take(slice@.len() as int) =~= slice@);
        }
    }

    /// Whether the two labels are the same but for the case of letters.
    pub fn same(&self, other: &Label) -> (r: bool)
        ensures
            r <==> label_eq(self@, other@),
    {
        let n = self.slice.len();
        if n != other.slice.len() {
            return false;
        }
        let mut i: usize = 0;
        while i < n
            invariant
                i <= n,
                n == self.slice@.len(),
                n == other.slice@.len(),
                forall|k: int| 0 <= k < i ==> fold(#[trigger] self.slice@[k]) == fold(other.slice@[k]),
            decreases n - i,
        {
            if fold_octet(self.slice[i]) != fold_octet(other.slice[i]) {
                return false;
            }
            i = i + 1;
        }
        true
    }

    /// Where the label stands to `other` in canonical order.
    pub fn order(&self, other: &Label) -> (r: Order)
        ensures
            r == label_order(self@, other@),
    {
        let a = self.slice;
        let b = other.slice;
        let mut i: usize = 0;
        proof {
            assert(a@.skip(0) =~= a@);
            assert(b@.skip(0) =~= b@);
        }
        loop
            invariant
                i <= a@.len(),
                i <= b@.len(),
                a@ == self@,
                b@ == other@,
                label_order(self@, other@) == label_order(a@.skip(i as int), b@.skip(i as int)),
            decreases a@.len() - i,
        {
            if i == a.len() {
                if i == b.len() {
                    return Order::Equal;
                } else {
                    return Order::Less;
                }
            }
            if i == b.len() {
                return Order::Greater;
            }
            let x = fold_octet(a[i]);
            let y = fold_octet(b[i]);
            if x < y {
                return Order::Less;
            }
            if x > y {
                return Order::Greater;
            }
            proof {
                assert(a@.skip(i as int).skip(1) =~= a@.skip(i + 1));
                assert(b@.skip(i as int).skip(1) =~= b@.skip(i + 1));
            }
            i = i + 1;
        }
    }
}

impl<'a> PartialEq for Label<'a> {
    fn eq(&self, other: &Self) -> (r: bool) {
        self.same(other)
    }
}

impl<'a> vstd::std_specs::cmp::PartialEqSpecImpl for Label<'a> {
    open spec fn obeys_eq_spec() -> bool {
        true
    }

    open spec fn eq_spec(&self, other: &Self) -> bool {
        label_eq(self@, other@)
    }
}

impl<'a> Eq for Label<'a> {

}

impl<'a> PartialOrd for Label<'a> {
    fn partial_cmp(&self, other: &Self) -> (r: Option<Ordering>) {
        Some(to_ordering(self.order(other)))
    }
}

impl<'a> vstd::std_specs::cmp::PartialOrdSpecImpl for Label<'a> {
    open spec fn obeys_partial_cmp_spec() -> bool {
        true
    }

    open spec fn partial_cmp_spec(&self, other: &Self) -> Option<Ordering> {
        Some(ordering_of(label_order(self@, other@)))
    }
}

impl<'a> Compose for Label<'a> {
    open spec fn is_composed(&self, out: Seq<u8>) -> bool {
        out == encode_label(self@)
    }

    open spec fn composed_len(&self) -> nat {
        self@.len() + 1
    }

    proof fn lemma_composed_len(&self, out: Seq<u8>) {
    }

    fn compose_len(&self) -> (n: usize) {
        self.len() + 1
    }

    /// Appends the length of the payload and the payload to `target`.
    fn compose<T: ComposeTarget>(&self, target: &mut T)
        ensures
            final(target).written() == old(target).written() + encode_label(self@),
    {
        let len = self.len();
        compose_u8(target, len as u8);
        target.append_slice(self.slice);
        proof {
            let before = old(target).written();
            let after = target.written();
            assert(after =~= before + encode_label(self@));
            assert(after.subrange(0, before.len() as int) =~= before);
            assert(after.subrange(before.len() as int, after.len() as int) =~= encode_label(
                self@,
            ));
        }
    }
}

/// Two payloads stand equal in canonical order exactly when they are the
/// same label.
pub proof fn lemma_order_equal_is_eq(a: Seq<u8>, b: Seq<u8>)
    ensures
        label_order(a, b) == Order::Equal <==> label_eq(a, b),
    decreases a.len(),
{
    if a.len() != 0 && b.len() != 0 {
        lemma_order_equal_is_eq(a.skip(1), b.skip(1));
        if label_eq(a.skip(1), b.skip(1)) && fold(a[0]) == fold(b[0]) {
            assert forall|i: int| 0 <= i < a.len() implies fold(#[trigger] a[i]) == fold(b[i]) by {
                if i > 0 {
                    assert(a[i] == a.skip(1)[i - 1]);
                    assert(b[i] == b.skip(1)[i - 1]);
                }
            }
        }
        if label_eq(a, b) {
            assert forall|i: int| 0 <= i < a.skip(1).len() implies fold(#[trigger] a.skip(1)[i])
                == fold(b.skip(1)[i]) by {
                assert(a.skip(1)[i] == a[i + 1]);
                assert(b.skip(1)[i] == b[i + 1]);
            }
        }
    }
}

/// Turning two payloads round turns their order round.
pub proof fn lemma_order_flips(a: Seq<u8>, b: Seq<u8>)
    ensures
        label_order(a, b) == Order::Less <==> label_order(b, a) == Order::Greater,
        label_order(a, b) == Order::Equal <==> label_order(b, a) == Order::Equal,
    decreases a.len(),
{
    if a.len() != 0 && b.len() != 0 {
        lemma_order_flips(a.skip(1), b.skip(1));
    }
}

/// The canonical order of payloads is transitive.
pub proof fn lemma_order_transitive(a: Seq<u8>, b: Seq<u8>, c: Seq<u8>)
    requires
        label_order(a, b) != Order::Greater,
        label_order(b, c) != Order::Greater,
    ensures
        label_order(a, c) != Order::Greater,
        label_order(a, b) == Order::Less || label_order(b, c) == Order::Less ==> label_order(a, c)
            == Order::Less,
    decreases a.len(),
{
    if a.len() != 0 && b.len() != 0 && c.len() != 0 {
        if fold(a[0]) == fold(b[0]) && fold(b[0]) == fold(c[0]) {
            lemma_order_transitive(a.skip(1), b.skip(1), c.skip(1));
        }
    }
}

} // verus!

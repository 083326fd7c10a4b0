//! What all domain names have in common, flat or chained.
//!
//! A name-like value has a wire format that is a run of labels. The
//! functions here walk the labels of two such values side by side and
//! never copy an octet.

use crate::canonical::{
    dotted, dotted_rest, is_prefix, is_suffix, lemma_names_eq_front, lemma_prefix_front,
    lemma_suffix_back, name_order, names_eq,
};
use crate::compose::Compose;
use crate::label::{text_of, Label, Order};
use crate::wire::{
    head, is_absolute, is_boundary, is_label_run, is_label_seq, labels, lemma_boundary_after,
    lemma_boundary_of_prefix, lemma_end_is_boundary, lemma_labels_len,
    lemma_range_between_boundaries, lemma_split_at_boundary, lemma_step, lemma_step_back,
};
use vstd::prelude::*;

verus! {

/// A value that reads as a domain name: a run of labels.
pub trait ToLabelIter: Compose {
    /// The wire format of the name.
    spec fn wire(&self) -> Seq<u8>;

    /// Whether the value keeps the rules of its kind of name.
    spec fn is_name(&self) -> bool;

    /// The wire format of a name is a run of labels of at most 255
    /// octets, and it is what composing the name writes.
    proof fn lemma_name(&self)
        requires
            self.is_name(),
        ensures
            is_label_seq(self.wire()),
            self.wire().len() <= 255,
            self.composed_len() == self.wire().len(),
            forall|out: Seq<u8>| #[trigger] self.is_composed(out) <==> out == self.wire(),
    ;

    /// The length of the wire format. Every value that exists while the
    /// program runs keeps the rules of its kind of name.
    fn wire_len(&self) -> (n: usize)
        ensures
            self.is_name(),
            n == self.wire().len(),
    ;

    /// The label that begins at offset `pos` of the wire format.
    fn label_at(&self, pos: usize) -> (r: Label<'_>)
        requires
            is_boundary(self.wire(), pos as int),
            pos < self.wire().len(),
        ensures
            r.wf(),
            r@ == head(self.wire().skip(pos as int)),
            r@.len() == self.wire()[pos as int],
            pos + 1 + r@.len() <= self.wire().len(),
    ;

    /// The offset at which the label begins that ends at offset `end` of
    /// the wire format.
    fn label_start_before(&self, end: usize) -> (r: usize)
        requires
            is_boundary(self.wire(), end as int),
            0 < end,
        ensures
            r < end,
            is_boundary(self.wire(), r as int),
            end == r + 1 + self.wire()[r as int],
    ;
}

/// A name-like value that is a relative name.
pub trait ToRelativeDname: ToLabelIter {
    /// The wire format of a relative name holds no root label.
    proof fn lemma_relative(&self)
        requires
            self.is_name(),
        ensures
            is_label_run(self.wire()),
    ;
}

/// A name-like value that is an absolute name.
pub trait ToDname: ToLabelIter {
    /// The wire format of an absolute name ends with the root label,
    /// holds no other, and is at most 255 octets long.
    proof fn lemma_absolute(&self)
        requires
            self.is_name(),
        ensures
            is_absolute(self.wire()),
    ;
}

/// The name in the way it is written in text: its labels with dots
/// between them.
pub fn name_to_text<A: ToLabelIter>(name: &A) -> (r: Vec<u8>)
    ensures
        r@ == dotted(labels(name.wire())),
{
    let len = name.wire_len();
    let mut out: Vec<u8> = Vec::new();
    let mut pos: usize = 0;
    proof {
        name.lemma_name();
        assert(name.wire().skip(0) =~= name.wire());
        lemma_labels_len(name.wire());
    }
    if len == 0 {
        return out;
    }
    let first = name.label_at(0);
    proof {
        lemma_step(name.wire(), 0);
        assert(labels(name.wire()).skip(1) =~= labels(name.wire().skip(1 + first@.len() as int)));
    }
    first.append_text(&mut out);
    pos = 1 + first.len();
    while pos < len
        invariant
            name.is_name(),
            is_label_seq(name.wire()),
            len == name.wire().len(),
            pos <= len <= 255,
            is_boundary(name.wire(), pos as int),
            dotted(labels(name.wire())) == out@ + dotted_rest(labels(name.wire().skip(pos as int))),
        decreases len - pos,
    {
        let label = name.label_at(pos);
        let ghost before = out@;
        let ghost rest = labels(name.wire().skip(pos as int));
        proof {
            lemma_step(name.wire(), pos as int);
            assert(rest.skip(1) =~= labels(name.wire().skip(pos + 1 + label@.len())));
        }
        out.push(0x2e);
        label.append_text(&mut out);
        proof {
            assert(out@ =~= before + (seq![0x2eu8] + text_of(label@)));
        }
        pos = pos + 1 + label.len();
    }
    proof {
        assert(name.wire().skip(len as int).len() == 0);
    }
    out
}

/// Whether `a` and `b` are the same name: as many labels, and each label
/// the same as its counterpart but for the case of letters.
pub fn name_eq<A: ToLabelIter, B: ToLabelIter>(a: &A, b: &B) -> (r: bool)
    ensures
        r == names_eq(labels(a.wire()), labels(b.wire())),
{
    let la = a.wire_len();
    let lb = b.wire_len();
    proof {
        a.lemma_name();
        b.lemma_name();
        assert(a.wire().skip(0) =~= a.wire());
        assert(b.wire().skip(0) =~= b.wire());
    }
    let mut pa: usize = 0;
    let mut pb: usize = 0;
    loop
        invariant
            a.is_name(),
            b.is_name(),
            is_label_seq(a.wire()),
            is_label_seq(b.wire()),
            la == a.wire().len(),
            lb == b.wire().len(),
            pa <= la <= 255,
            pb <= lb <= 255,
            is_boundary(a.wire(), pa as int),
            is_boundary(b.wire(), pb as int),
            names_eq(labels(a.wire()), labels(b.wire())) <==> names_eq(
                labels(a.wire().skip(pa as int)),
                labels(b.wire().skip(pb as int)),
            ),
        decreases la - pa,
    {
        let ghost ra = a.wire().skip(pa as int);
        let ghost rb = b.wire().skip(pb as int);
        proof {
            lemma_split_at_boundary(a.wire(), pa as int);
            lemma_split_at_boundary(b.wire(), pb as int);
            assert(ra =~= a.wire().subrange(pa as int, la as int));
            assert(rb =~= b.wire().subrange(pb as int, lb as int));
            lemma_labels_len(ra);
            lemma_labels_len(rb);
        }
        if pa == la {
            return pb == lb;
        }
        if pb == lb {
            return false;
        }
        let x = a.label_at(pa);
        let y = b.label_at(pb);
        proof {
            lemma_step(a.wire(), pa as int);
            lemma_step(b.wire(), pb as int);
            lemma_names_eq_front(labels(ra), labels(rb));
            assert(labels(ra).skip(1) =~= labels(a.wire().skip(pa + 1 + x@.len())));
            assert(labels(rb).skip(1) =~= labels(b.wire().skip(pb + 1 + y@.len())));
        }
        if !x.same(&y) {
            return false;
        }
        pa = pa + 1 + x.len();
        pb = pb + 1 + y.len();
    }
}

/// Whether the labels of `base` are the first labels of `name`.
pub fn name_starts_with<A: ToLabelIter, B: ToLabelIter>(name: &A, base: &B) -> (r: bool)
    ensures
        r == is_prefix(labels(base.wire()), labels(name.wire())),
{
    let la = name.wire_len();
    let lb = base.wire_len();
    proof {
        name.lemma_name();
        base.lemma_name();
        assert(name.wire().skip(0) =~= name.wire());
        assert(base.wire().skip(0) =~= base.wire());
    }
    let mut pa: usize = 0;
    let mut pb: usize = 0;
    loop
        invariant
            name.is_name(),
            base.is_name(),
            is_label_seq(name.wire()),
            is_label_seq(base.wire()),
            la == name.wire().len(),
            lb == base.wire().len(),
            pa <= la <= 255,
            pb <= lb <= 255,
            is_boundary(name.wire(), pa as int),
            is_boundary(base.wire(), pb as int),
            is_prefix(labels(base.wire()), labels(name.wire())) <==> is_prefix(
                labels(base.wire().skip(pb as int)),
                labels(name.wire().skip(pa as int)),
            ),
        decreases lb - pb,
    {
        let ghost ra = name.wire().skip(pa as int);
        let ghost rb = base.wire().skip(pb as int);
        proof {
            lemma_split_at_boundary(name.wire(), pa as int);
            lemma_split_at_boundary(base.wire(), pb as int);
            assert(ra =~= name.wire().subrange(pa as int, la as int));
            assert(rb =~= base.wire().subrange(pb as int, lb as int));
            lemma_labels_len(ra);
            lemma_labels_len(rb);
        }
        if pb == lb {
            return true;
        }
        if pa == la {
            return false;
        }
        let x = name.label_at(pa);
        let y = base.label_at(pb);
        proof {
            lemma_step(name.wire(), pa as int);
            lemma_step(base.wire(), pb as int);
            lemma_prefix_front(labels(rb), labels(ra));
            assert(labels(ra).skip(1) =~= labels(name.wire().skip(pa + 1 + x@.len())));
            assert(labels(rb).skip(1) =~= labels(base.wire().skip(pb + 1 + y@.len())));
        }
        if !y.same(&x) {
            return false;
        }
        pa = pa + 1 + x.len();
        pb = pb + 1 + y.len();
    }
}

/// Where in the wire format of `name` the labels of `base` begin, if they
/// are the last labels of `name`.
pub fn suffix_start<A: ToLabelIter, B: ToLabelIter>(name: &A, base: &B) -> (r: Option<usize>)
    ensures
        name.is_name(),
        base.is_name(),
        r is Some <==> is_suffix(labels(base.wire()), labels(name.wire())),
        r matches Some(start) ==> base.wire().len() <= name.wire().len() && start
            == name.wire().len() - base.wire().len() && is_boundary(name.wire(), start as int),
{
    let mut ea: usize = name.wire_len();
    let mut eb: usize = base.wire_len();
    proof {
        name.lemma_name();
        base.lemma_name();
        assert(name.wire().take(name.wire().len() as int) =~= name.wire());
        assert(base.wire().take(base.wire().len() as int) =~= base.wire());
        lemma_end_is_boundary(name.wire());
        lemma_end_is_boundary(base.wire());
    }
    loop
        invariant
            name.is_name(),
            base.is_name(),
            is_label_seq(name.wire()),
            is_label_seq(base.wire()),
            ea <= name.wire().len() <= 255,
            eb <= base.wire().len() <= 255,
            name.wire().len() - ea == base.wire().len() - eb,
            is_boundary(name.wire(), ea as int),
            is_boundary(base.wire(), eb as int),
            is_suffix(labels(base.wire()), labels(name.wire())) <==> is_suffix(
                labels(base.wire().take(eb as int)),
                labels(name.wire().take(ea as int)),
            ),
        decreases eb,
    {
        let ghost ta = name.wire().take(ea as int);
        let ghost tb = base.wire().take(eb as int);
        proof {
            lemma_split_at_boundary(name.wire(), ea as int);
            lemma_split_at_boundary(base.wire(), eb as int);
            assert(ta =~= name.wire().subrange(0, ea as int));
            assert(tb =~= base.wire().subrange(0, eb as int));
            lemma_labels_len(ta);
            lemma_labels_len(tb);
        }
        if eb == 0 {
            return Some(ea);
        }
        if ea == 0 {
            return None;
        }
        let sa = name.label_start_before(ea);
        let sb = base.label_start_before(eb);
        let x = name.label_at(sa);
        let y = base.label_at(sb);
        proof {
            lemma_step_back(name.wire(), sa as int);
            lemma_step_back(base.wire(), sb as int);
            lemma_suffix_back(labels(tb), labels(ta));
            assert(labels(ta).drop_last() =~= labels(name.wire().take(sa as int)));
            assert(labels(tb).drop_last() =~= labels(base.wire().take(sb as int)));
        }
        if !y.same(&x) {
            return None;
        }
        ea = sa;
        eb = sb;
    }
}

/// Whether the labels of `base` are the last labels of `name`.
pub fn name_ends_with<A: ToLabelIter, B: ToLabelIter>(name: &A, base: &B) -> (r: bool)
    ensures
        r == is_suffix(labels(base.wire()), labels(name.wire())),
{
    suffix_start(name, base).is_some()
}

/// Where `a` stands to `b` in the canonical order of names.
pub fn name_order_of<A: ToLabelIter, B: ToLabelIter>(a: &A, b: &B) -> (r: Order)
    ensures
        r == name_order(labels(a.wire()), labels(b.wire())),
{
    let mut ea: usize = a.wire_len();
    let mut eb: usize = b.wire_len();
    proof {
        a.lemma_name();
        b.lemma_name();
        assert(a.wire().take(a.wire().len() as int) =~= a.wire());
        assert(b.wire().take(b.wire().len() as int) =~= b.wire());
        lemma_end_is_boundary(a.wire());
        lemma_end_is_boundary(b.wire());
    }
    loop
        invariant
            a.is_name(),
            b.is_name(),
            is_label_seq(a.wire()),
            is_label_seq(b.wire()),
            ea <= a.wire().len() <= 255,
            eb <= b.wire().len() <= 255,
            is_boundary(a.wire(), ea as int),
            is_boundary(b.wire(), eb as int),
            name_order(labels(a.wire()), labels(b.wire())) == name_order(
                labels(a.wire().take(ea as int)),
                labels(b.wire().take(eb as int)),
            ),
        decreases ea,
    {
        let ghost ta = a.wire().take(ea as int);
        let ghost tb = b.wire().take(eb as int);
        proof {
            lemma_split_at_boundary(a.wire(), ea as int);
            lemma_split_at_boundary(b.wire(), eb as int);
            assert(ta =~= a.wire().subrange(0, ea as int));
            assert(tb =~= b.wire().subrange(0, eb as int));
            lemma_labels_len(ta);
            lemma_labels_len(tb);
        }
        if ea == 0 {
            if eb == 0 {
                return Order::Equal;
            } else {
                return Order::Less;
            }
        }
        if eb == 0 {
            return Order::Greater;
        }
        let sa = a.label_start_before(ea);
        let sb = b.label_start_before(eb);
        let x = a.label_at(sa);
        let y = b.label_at(sb);
        proof {
            lemma_step_back(a.wire(), sa as int);
            lemma_step_back(b.wire(), sb as int);
            assert(labels(ta).drop_last() =~= labels(a.wire().take(sa as int)));
            assert(labels(tb).drop_last() =~= labels(b.wire().take(sb as int)));
        }
        match x.order(&y) {
            Order::Equal => {
                ea = sa;
                eb = sb;
            },
            Order::Less => {
                return Order::Less;
            },
            Order::Greater => {
                return Order::Greater;
            },
        }
    }
}

/// A walk over the labels of any name-like value, from either end.
#[derive(Debug)]
pub struct LabelIter<'a, N: ToLabelIter> {
    name: &'a N,
    start: usize,
    end: usize,
}

impl<'a, N: ToLabelIter> View for LabelIter<'a, N> {
    type V = Seq<u8>;

    closed spec fn view(&self) -> Seq<u8> {
        self.name.wire().subrange(self.start as int, self.end as int)
    }
}

impl<'a, N: ToLabelIter> LabelIter<'a, N> {
    #[verifier::type_invariant]
    spec fn inv(&self) -> bool {
        &&& self.name.is_name()
        &&& self.start <= self.end <= self.name.wire().len()
        &&& is_boundary(self.name.wire(), self.start as int)
        &&& is_boundary(self.name.wire(), self.end as int)
    }

    /// The labels that the walk has not handed out yet.
    pub open spec fn remaining(&self) -> Seq<Seq<u8>> {
        labels(self@)
    }

    /// A walk over all the labels of `name`.
    pub fn new(name: &'a N) -> (r: Self)
        ensures
            r@ == name.wire(),
    {
        let end = name.wire_len();
        proof {
            name.lemma_name();
            lemma_end_is_boundary(name.wire());
            assert(name.wire().subrange(0, end as int) =~= name.wire());
        }
        LabelIter { name, start: 0, end }
    }

    /// Hands out the next label from the front.
    pub fn next(&mut self) -> (r: Option<Label<'a>>)
        ensures
            is_label_seq(old(self)@),
            r is Some <==> old(self)@.len() > 0,
            r is None ==> final(self)@ == old(self)@,
            r matches Some(label) ==> {
                &&& label.wf()
                &&& label@ == old(self).remaining()[0]
                &&& final(self)@ == old(self)@.skip(label@.len() as int + 1)
                &&& final(self).remaining() == old(self).remaining().skip(1)
            },
    {
        proof {
            use_type_invariant(&*self);
            self.name.lemma_name();
            lemma_range_between_boundaries(self.name.wire(), self.start as int, self.end as int);
        }
        if self.start == self.end {
            return None;
        }
        let name: &'a N = self.name;
        let label = name.label_at(self.start);
        proof {
            let s = name.wire();
            let range = self@;
            lemma_step(s, self.start as int);
            lemma_boundary_after(s, self.start as int, self.end as int);
            assert(range.skip(0) =~= range);
            lemma_step(range, 0);
            assert(head(range) =~= head(s.skip(self.start as int)));
            assert(labels(range).skip(1) =~= labels(range.skip(label@.len() as int + 1)));
            assert(range.skip(label@.len() as int + 1) =~= s.subrange(
                self.start + 1 + label@.len(),
                self.end as int,
            ));
        }
        self.start = self.start + 1 + label.len();
        Some(label)
    }

    /// Hands out the next label from the back.
    pub fn next_back(&mut self) -> (r: Option<Label<'a>>)
        ensures
            is_label_seq(old(self)@),
            r is Some <==> old(self)@.len() > 0,
            r is None ==> final(self)@ == old(self)@,
            r matches Some(label) ==> {
                &&& label.wf()
                &&& label@ == old(self).remaining().last()
                &&& final(self)@ == old(self)@.subrange(0, old(self)@.len() - label@.len() - 1)
                &&& final(self).remaining() == old(self).remaining().drop_last()
            },
    {
        proof {
            use_type_invariant(&*self);
            self.name.lemma_name();
            lemma_range_between_boundaries(self.name.wire(), self.start as int, self.end as int);
        }
        if self.start == self.end {
            return None;
        }
        let name: &'a N = self.name;
        let last = name.label_start_before(self.end);
        proof {
            let s = name.wire();
            if last < self.start {
                lemma_boundary_after(s, last as int, self.start as int);
                lemma_step(s, last as int);
            }
        }
        let label = name.label_at(last);
        proof {
            let s = name.wire();
            let range = self@;
            let at = last - self.start;
            lemma_step(s, last as int);
            lemma_boundary_after(s, self.start as int, last as int);
            lemma_boundary_after(s, self.start as int, self.end as int);
            lemma_split_at_boundary(s, self.start as int);
            lemma_boundary_of_prefix(s.skip(self.start as int), at, self.end - self.start);
            assert(s.skip(self.start as int).subrange(0, self.end - self.start) =~= range);
            lemma_step_back(range, at);
            assert(range.take(at + 1 + range[at]) =~= range);
            assert(head(range.skip(at)) =~= head(s.skip(last as int)));
            assert(labels(range).drop_last() =~= labels(range.take(at)));
            assert(range.take(at) =~= s.subrange(self.start as int, last as int));
            assert(range.take(at) =~= range.subrange(0, range.len() - label@.len() - 1));
        }
        self.end = last;
        Some(label)
    }
}

} // verus!

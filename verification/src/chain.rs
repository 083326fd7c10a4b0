//! Two names read as one.
//!
//! A chain holds a relative name and a second name and reads as the
//! labels of the first followed by those of the second. No octet is
//! copied until the chain is written out.

use crate::canonical::{dotted, name_order, names_eq};
use crate::compose::{Compose, ComposeTarget};
use crate::sort::{ordering_of, to_ordering};
use crate::dname::Dname;
use crate::label::Label;
use crate::octets::{bytes_mut_freeze, bytes_mut_new, Octets};
use crate::relative::RelativeDname;
use crate::traits::{
    name_eq, name_order_of, name_to_text, LabelIter, ToDname, ToLabelIter, ToRelativeDname,
};
use crate::wire::{
    head, is_absolute, is_label_run, labels, lemma_boundary_in_range, lemma_boundary_of_concat,
    lemma_run_is_seq, lemma_seq_concat, lemma_step,
};
use bytes::Bytes;
use core::cmp::Ordering;
use vstd::prelude::*;

verus! {

/// Two names were to be chained that are together longer than 255 octets.
#[derive(Clone, Copy, Debug, PartialEq, Eq, Structural)]
pub struct LongChainError;

/// A relative name followed by a second name.
#[derive(Debug)]
pub struct Chain<L: ToRelativeDname, R: ToLabelIter> {
    left: L,
    right: R,
}

/// A run of labels without root label, and then an absolute name, are an
/// absolute name if they are not too long together.
pub proof fn lemma_concat_absolute(a: Seq<u8>, b: Seq<u8>)
    requires
        is_label_run(a),
        is_absolute(b),
        a.len() + b.len() <= 255,
    ensures
        is_absolute(a + b),
{
    lemma_run_is_seq(a);
    lemma_run_is_seq(b.drop_last());
    lemma_seq_concat(a, b.drop_last());
    assert((a + b).drop_last() =~= a + b.drop_last());
}

impl<L: ToRelativeDname, R: ToLabelIter> Chain<L, R> {
    /// The two names that the chain holds.
    pub closed spec fn parts(&self) -> (L, R) {
        (self.left, self.right)
    }

    /// Whether the chain holds two names that are together at most 255
    /// octets long. Every value that exists while the program runs does.
    pub open spec fn wf(&self) -> bool {
        &&& self.parts().0.is_name()
        &&& self.parts().1.is_name()
        &&& self.parts().0.wire().len() + self.parts().1.wire().len() <= 255
    }

    #[verifier::type_invariant]
    spec fn inv(&self) -> bool {
        self.wf()
    }

    /// Chains `right` to `left`, if they are together at most 255 octets
    /// long. Both are lost if they are not.
    pub fn new(left: L, right: R) -> (r: Result<Self, LongChainError>)
        ensures
            r is Ok <==> left.wire().len() + right.wire().len() <= 255,
            r matches Ok(chain) ==> chain.wf() && chain.parts() == (left, right),
    {
        let left_len = left.wire_len();
        let right_len = right.wire_len();
        proof {
            left.lemma_name();
            right.lemma_name();
        }
        if left_len + right_len > 255 {
            Err(LongChainError)
        } else {
            Ok(Chain { left, right })
        }
    }

    /// A walk over the labels of the chain: those of the first name and
    /// then those of the second.
    pub fn iter(&self) -> (r: LabelIter<'_, Self>)
        ensures
            r@ == self.wire(),
    {
        LabelIter::new(self)
    }

    /// The chain in the way it is written in text: its labels with dots
    /// between them.
    pub fn to_text(&self) -> (r: Vec<u8>)
        ensures
            r@ == dotted(labels(self.wire())),
    {
        name_to_text(self)
    }

    /// The first name.
    pub fn left(&self) -> (r: &L)
        ensures
            *r == self.parts().0,
    {
        &self.left
    }

    /// The second name.
    pub fn right(&self) -> (r: &R)
        ensures
            *r == self.parts().1,
    {
        &self.right
    }

    /// Gives up the chain for the two names.
    pub fn unwrap(self) -> (r: (L, R))
        ensures
            r == self.parts(),
    {
        (self.left, self.right)
    }
}

impl<L: ToRelativeDname, R: ToRelativeDname> Chain<L, R> {
    /// Chains `other` to this chain, if all are together at most 255
    /// octets long. All are lost if they are not.
    pub fn chain<N: ToLabelIter>(self, other: N) -> (r: Result<Chain<Self, N>, LongChainError>)
        ensures
            r is Ok <==> self.wire().len() + other.wire().len() <= 255,
            r matches Ok(chain) ==> chain.parts() == (self, other),
    {
        Chain::new(self, other)
    }

    /// Chains the name of the root to this chain, if the chain is at most
    /// 254 octets long.
    pub fn chain_root(self) -> (r: Result<Chain<Self, Dname<&'static [u8]>>, LongChainError>)
        ensures
            r is Ok <==> self.wire().len() <= 254,
            r matches Ok(chain) ==> chain.wire() == self.wire().push(0u8),
    {
        let root = Dname::<&'static [u8]>::root();
        let r = Chain::new(self, root);
        proof {
            assert(self.wire() + seq![0u8] =~= self.wire().push(0u8));
        }
        r
    }

    /// Copies the labels of the chain into a relative name of its own, if
    /// they take up at most 254 octets.
    pub fn to_relative(&self) -> (r: Result<RelativeDname<Bytes>, LongChainError>)
        ensures
            r is Ok <==> self.wire().len() <= 254,
            r matches Ok(name) ==> name.wf() && name@ == self.wire(),
    {
        let len = self.wire_len();
        proof {
            self.lemma_name();
            self.lemma_relative();
        }
        if len > 254 {
            return Err(LongChainError);
        }
        let mut buf = bytes_mut_new();
        self.compose(&mut buf);
        let bytes = bytes_mut_freeze(buf);
        assert(bytes.content() =~= self.wire());
        Ok(RelativeDname::from_octets_unchecked(bytes))
    }
}

impl<L: ToRelativeDname, R: ToDname> Chain<L, R> {
    /// Copies the labels of the chain into an absolute name of its own.
    pub fn to_dname(&self) -> (r: Dname<Bytes>)
        ensures
            r.wf(),
            r@ == self.wire(),
    {
        let len = self.wire_len();
        proof {
            self.lemma_name();
            self.lemma_absolute();
        }
        let mut buf = bytes_mut_new();
        self.compose(&mut buf);
        let bytes = bytes_mut_freeze(buf);
        assert(bytes.content() =~= self.wire());
        Dname::from_octets_unchecked(bytes)
    }
}

impl<L: ToRelativeDname, R: ToLabelIter, N: ToLabelIter> PartialEq<N> for Chain<L, R> {
    fn eq(&self, other: &N) -> (r: bool) {
        name_eq(self, other)
    }
}

impl<L: ToRelativeDname, R: ToLabelIter, N: ToLabelIter> vstd::std_specs::cmp::PartialEqSpecImpl<N> for Chain<L, R> {
    open spec fn obeys_eq_spec() -> bool {
        true
    }

    open spec fn eq_spec(&self, other: &N) -> bool {
        names_eq(labels(self.wire()), labels(other.wire()))
    }
}

impl<L: ToRelativeDname, R: ToLabelIter, N: ToLabelIter> PartialOrd<N> for Chain<L, R> {
    fn partial_cmp(&self, other: &N) -> (r: Option<Ordering>) {
        Some(to_ordering(name_order_of(self, other)))
    }
}

impl<L: ToRelativeDname, R: ToLabelIter, N: ToLabelIter> vstd::std_specs::cmp::PartialOrdSpecImpl<N> for Chain<L, R> {
    open spec fn obeys_partial_cmp_spec() -> bool {
        true
    }

    open spec fn partial_cmp_spec(&self, other: &N) -> Option<Ordering> {
        Some(ordering_of(name_order(labels(self.wire()), labels(other.wire()))))
    }
}

impl<L: ToRelativeDname, R: ToLabelIter> Compose for Chain<L, R> {
    open spec fn is_composed(&self, out: Seq<u8>) -> bool {
        let mid = self.parts().0.composed_len() as int;
        &&& mid <= out.len()
        &&& self.parts().0.is_composed(out.subrange(0, mid))
        &&& self.parts().1.is_composed(out.subrange(mid, out.len() as int))
    }

    open spec fn composed_len(&self) -> nat {
        self.parts().0.composed_len() + self.parts().1.composed_len()
    }

    proof fn lemma_composed_len(&self, out: Seq<u8>) {
        let mid = self.parts().0.composed_len() as int;
        self.parts().0.lemma_composed_len(out.subrange(0, mid));
        self.parts().1.lemma_composed_len(out.subrange(mid, out.len() as int));
    }

    fn compose_len(&self) -> (n: usize) {
        self.left.compose_len() + self.right.compose_len()
    }

    /// Appends what the first name writes and then what the second name
    /// writes to `target`.
    fn compose<T: ComposeTarget>(&self, target: &mut T) {
        let ghost before = target.written();
        self.left.compose(target);
        let ghost between = target.written();
        self.right.compose(target);
        proof {
            let after = target.written();
            let start = before.len() as int;
            let mid = self.left.composed_len() as int;
            let out = after.subrange(start, after.len() as int);
            assert(after.subrange(0, start) =~= after.subrange(0, between.len() as int).subrange(
                0,
                start,
            ));
            assert(out.subrange(0, mid) =~= between.subrange(start, between.len() as int));
            assert(out.subrange(mid, out.len() as int) =~= after.subrange(
                between.len() as int,
                after.len() as int,
            ));
        }
    }
}

impl<L: ToRelativeDname, R: ToLabelIter> ToLabelIter for Chain<L, R> {
    open spec fn wire(&self) -> Seq<u8> {
        self.parts().0.wire() + self.parts().1.wire()
    }

    open spec fn is_name(&self) -> bool {
        self.wf()
    }

    proof fn lemma_name(&self) {
        let a = self.parts().0;
        let b = self.parts().1;
        a.lemma_name();
        a.lemma_relative();
        b.lemma_name();
        lemma_seq_concat(a.wire(), b.wire());
        assert forall|out: Seq<u8>| #[trigger] self.is_composed(out) <==> out == self.wire() by {
            let mid = a.wire().len() as int;
            if self.is_composed(out) {
                assert(out =~= out.subrange(0, mid) + out.subrange(mid, out.len() as int));
            }
            if out == self.wire() {
                assert(out.subrange(0, mid) =~= a.wire());
                assert(out.subrange(mid, out.len() as int) =~= b.wire());
            }
        }
    }

    fn wire_len(&self) -> (n: usize) {
        proof {
            use_type_invariant(self);
            self.parts().0.lemma_name();
            self.parts().1.lemma_name();
        }
        self.left.wire_len() + self.right.wire_len()
    }

    fn label_at(&self, pos: usize) -> (r: Label<'_>) {
        proof {
            use_type_invariant(self);
            self.lemma_name();
            self.parts().0.lemma_name();
            self.parts().1.lemma_name();
            lemma_boundary_of_concat(self.parts().0.wire(), self.parts().1.wire(), pos as int);
            lemma_step(self.wire(), pos as int);
        }
        let left_len = self.left.wire_len();
        if pos < left_len {
            let r = self.left.label_at(pos);
            proof {
                lemma_step(self.left.wire(), pos as int);
                assert(r@ =~= head(self.wire().skip(pos as int)));
            }
            r
        } else {
            let r = self.right.label_at(pos - left_len);
            proof {
                lemma_step(self.right.wire(), pos - left_len);
                assert(r@ =~= head(self.wire().skip(pos as int)));
            }
            r
        }
    }

    fn label_start_before(&self, end: usize) -> (r: usize) {
        proof {
            use_type_invariant(self);
            self.lemma_name();
            self.parts().0.lemma_name();
            self.parts().1.lemma_name();
            lemma_boundary_of_concat(self.parts().0.wire(), self.parts().1.wire(), end as int);
            lemma_boundary_in_range(self.wire(), end as int);
        }
        let left_len = self.left.wire_len();
        if end > left_len {
            let start = self.right.label_start_before(end - left_len);
            proof {
                lemma_boundary_of_concat(
                    self.parts().0.wire(),
                    self.parts().1.wire(),
                    left_len + start,
                );
            }
            left_len + start
        } else {
            let start = self.left.label_start_before(end);
            proof {
                lemma_boundary_of_concat(
                    self.parts().0.wire(),
                    self.parts().1.wire(),
                    start as int,
                );
            }
            start
        }
    }
}

impl<L: ToRelativeDname, R: ToRelativeDname> ToRelativeDname for Chain<L, R> {
    proof fn lemma_relative(&self) {
        let a = self.parts().0;
        let b = self.parts().1;
        a.lemma_name();
        a.lemma_relative();
        b.lemma_name();
        b.lemma_relative();
        lemma_seq_concat(a.wire(), b.wire());
    }
}

impl<L: ToRelativeDname, R: ToDname> ToDname for Chain<L, R> {
    proof fn lemma_absolute(&self) {
        let a = self.parts().0;
        let b = self.parts().1;
        a.lemma_relative();
        b.lemma_absolute();
        lemma_concat_absolute(a.wire(), b.wire());
    }
}

} // verus!

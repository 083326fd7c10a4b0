//! How names compare: label by label, without regard to the case of ASCII
//! letters, and in the canonical order that starts at the root.

use crate::label::{label_eq, label_order, lemma_order_equal_is_eq, text_of, Order};
use vstd::prelude::*;

verus! {

/// Whether two lists of labels are the same name.
pub open spec fn names_eq(x: Seq<Seq<u8>>, y: Seq<Seq<u8>>) -> bool {
    x.len() == y.len() && forall|k: int| 0 <= k < x.len() ==> label_eq(#[trigger] x[k], y[k])
}

/// Whether the labels of `base` are the first labels of `name`.
pub open spec fn is_prefix(base: Seq<Seq<u8>>, name: Seq<Seq<u8>>) -> bool {
    base.len() <= name.len() && forall|k: int|
        0 <= k < base.len() ==> label_eq(#[trigger] base[k], name[k])
}

/// Whether the labels of `base` are the last labels of `name`.
pub open spec fn is_suffix(base: Seq<Seq<u8>>, name: Seq<Seq<u8>>) -> bool {
    base.len() <= name.len() && forall|k: int|
        0 <= k < base.len() ==> label_eq(#[trigger] base[k], name[name.len() - base.len() + k])
}

/// The canonical order of two lists of labels: the labels are compared
/// from the last one back, and where one list runs out first it sorts
/// first.
pub open spec fn name_order(x: Seq<Seq<u8>>, y: Seq<Seq<u8>>) -> Order
    decreases x.len(),
{
    if x.len() == 0 {
        if y.len() == 0 {
            Order::Equal
        } else {
            Order::Less
        }
    } else if y.len() == 0 {
        Order::Greater
    } else {
        match label_order(x.last(), y.last()) {
            Order::Equal => name_order(x.drop_last(), y.drop_last()),
            Order::Less => Order::Less,
            Order::Greater => Order::Greater,
        }
    }
}

/// The labels of a list in the way they are written in text, each with a
/// dot in front.
pub open spec fn dotted_rest(list: Seq<Seq<u8>>) -> Seq<u8>
    decreases list.len(),
{
    if list.len() == 0 {
        Seq::<u8>::empty()
    } else {
        seq![0x2eu8] + text_of(list[0]) + dotted_rest(list.skip(1))
    }
}

/// A list of labels in the way it is written in text: the labels with
/// dots between them. The empty list is written as nothing, and the root
/// label behind other labels is written as the dot behind them.
pub open spec fn dotted(list: Seq<Seq<u8>>) -> Seq<u8> {
    if list.len() == 0 {
        Seq::<u8>::empty()
    } else {
        text_of(list[0]) + dotted_rest(list.skip(1))
    }
}

/// Two lists that each start with a label are the same name where the
/// first labels are the same and the rest is the same name.
pub proof fn lemma_names_eq_front(x: Seq<Seq<u8>>, y: Seq<Seq<u8>>)
    requires
        x.len() > 0,
        y.len() > 0,
    ensures
        names_eq(x, y) <==> label_eq(x[0], y[0]) && names_eq(x.skip(1), y.skip(1)),
{
    let xt = x.skip(1);
    let yt = y.skip(1);
    if names_eq(x, y) {
        assert forall|k: int| 0 <= k < xt.len() implies label_eq(#[trigger] xt[k], yt[k]) by {
            assert(label_eq(x[k + 1], y[k + 1]));
        }
    }
    if label_eq(x[0], y[0]) && names_eq(xt, yt) {
        assert forall|k: int| 0 <= k < x.len() implies label_eq(#[trigger] x[k], y[k]) by {
            if k > 0 {
                assert(label_eq(xt[k - 1], yt[k - 1]));
            }
        }
    }
}

/// A list that starts with a label is a prefix of another such list where
/// the first labels are the same and the rest is a prefix of the rest.
pub proof fn lemma_prefix_front(base: Seq<Seq<u8>>, name: Seq<Seq<u8>>)
    requires
        base.len() > 0,
        name.len() > 0,
    ensures
        is_prefix(base, name) <==> label_eq(base[0], name[0]) && is_prefix(
            base.skip(1),
            name.skip(1),
        ),
{
    let bt = base.skip(1);
    let nt = name.skip(1);
    if is_prefix(base, name) {
        assert forall|k: int| 0 <= k < bt.len() implies label_eq(#[trigger] bt[k], nt[k]) by {
            assert(label_eq(base[k + 1], name[k + 1]));
        }
    }
    if label_eq(base[0], name[0]) && is_prefix(bt, nt) {
        assert forall|k: int| 0 <= k < base.len() implies label_eq(#[trigger] base[k], name[k]) by {
            if k > 0 {
                assert(label_eq(bt[k - 1], nt[k - 1]));
            }
        }
    }
}

/// A list that ends with a label is a suffix of another such list where
/// the last labels are the same and the rest is a suffix of the rest.
pub proof fn lemma_suffix_back(base: Seq<Seq<u8>>, name: Seq<Seq<u8>>)
    requires
        base.len() > 0,
        name.len() > 0,
    ensures
        is_suffix(base, name) <==> label_eq(base.last(), name.last()) && is_suffix(
            base.drop_last(),
            name.drop_last(),
        ),
{
    let bt = base.drop_last();
    let nt = name.drop_last();
    let d = name.len() - base.len();
    if is_suffix(base, name) {
        assert(label_eq(base[base.len() - 1], name[d + base.len() - 1]));
        assert forall|k: int| 0 <= k < bt.len() implies label_eq(
            #[trigger] bt[k],
            nt[nt.len() - bt.len() + k],
        ) by {
            assert(label_eq(base[k], name[d + k]));
        }
    }
    if label_eq(base.last(), name.last()) && is_suffix(bt, nt) {
        assert forall|k: int| 0 <= k < base.len() implies label_eq(
            #[trigger] base[k],
            name[d + k],
        ) by {
            if k < base.len() - 1 {
                assert(label_eq(bt[k], nt[nt.len() - bt.len() + k]));
            }
        }
    }
}

/// Two lists of labels stand equal in canonical order exactly when they
/// are the same name.
pub proof fn lemma_name_order_equal_is_eq(x: Seq<Seq<u8>>, y: Seq<Seq<u8>>)
    ensures
        name_order(x, y) == Order::Equal <==> names_eq(x, y),
    decreases x.len(),
{
    if x.len() > 0 && y.len() > 0 {
        let xt = x.drop_last();
        let yt = y.drop_last();
        lemma_name_order_equal_is_eq(xt, yt);
        lemma_order_equal_is_eq(x.last(), y.last());
        if names_eq(x, y) {
            assert(label_eq(x[x.len() - 1], y[x.len() - 1]));
            assert forall|k: int| 0 <= k < xt.len() implies label_eq(#[trigger] xt[k], yt[k]) by {
                assert(label_eq(x[k], y[k]));
            }
        }
        if label_eq(x.last(), y.last()) && names_eq(xt, yt) {
            assert forall|k: int| 0 <= k < x.len() implies label_eq(#[trigger] x[k], y[k]) by {
                if k < x.len() - 1 {
                    assert(label_eq(xt[k], yt[k]));
                }
            }
        }
    }
}

} // verus!

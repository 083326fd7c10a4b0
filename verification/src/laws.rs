//! What holds of names whatever their octets are.

use crate::canonical::{
    is_prefix, is_suffix, lemma_name_order_equal_is_eq, lemma_names_eq_front, name_order,
    names_eq,
};
use crate::compose::{u16_octets, u16_of, Compose};
use crate::dname::{absolute_error, lemma_absolute_error, Dname};
use crate::label::{
    fold, folded, label_eq, label_order, lemma_order_equal_is_eq, lemma_order_flips,
    lemma_order_transitive, Order,
};
use crate::octets::Octets;
use crate::relative::{lemma_relative_error, relative_error, RelativeDname, RelativeDnameError};
use crate::wire::{
    encode, encode_label, has_label, head, is_absolute, is_label_run, is_label_seq, is_relative,
    labels, lemma_absolute_from_relative, lemma_absolute_parts, lemma_labels_len, tail,
};
use vstd::prelude::*;

verus! {

/// Writing out a relative name gives back the octets that it was made
/// of: if `name` is what `from_octets` made of `octets`, then whatever
/// `compose` appends for it is `octets`.
pub proof fn law_compose_round_trip<O: Octets>(octets: Seq<u8>, name: RelativeDname<O>, out: Seq<u8>)
    requires
        is_relative(octets),
        name@ == octets,
        name.is_composed(out),
    ensures
        out == octets,
        out.len() == name.composed_len(),
{
}

/// Writing out an absolute name gives back the octets that it was made
/// of.
pub proof fn law_compose_round_trip_absolute<O: Octets>(
    octets: Seq<u8>,
    name: Dname<O>,
    out: Seq<u8>,
)
    requires
        is_absolute(octets),
        name@ == octets,
        name.is_composed(out),
    ensures
        out == octets,
        out.len() == name.composed_len(),
{
}

/// A relative name with the root label behind it is one octet longer, is
/// an absolute name that `Dname::from_octets` takes, and has the labels
/// of the relative name and then the root label.
pub proof fn law_root_makes_absolute(relative: Seq<u8>)
    requires
        is_relative(relative),
    ensures
        relative.push(0u8).len() == relative.len() + 1,
        is_absolute(relative.push(0u8)),
        absolute_error(relative.push(0u8)) is None,
        labels(relative.push(0u8)) == labels(relative).push(Seq::<u8>::empty()),
{
    lemma_absolute_from_relative(relative);
    lemma_absolute_error(relative.push(0u8));
    lemma_absolute_parts(relative.push(0u8));
}

/// A run of labels other than the root label is taken for a relative
/// name up to 254 octets and refused as too long from 255 octets on, and
/// a first octet from 64 on never starts a label.
pub proof fn law_length_limits(s: Seq<u8>)
    ensures
        is_label_run(s) && s.len() <= 254 ==> relative_error(s) is None,
        s.len() >= 255 ==> relative_error(s) == Some(RelativeDnameError::LongName),
        s.len() > 0 && s[0] >= 64 ==> !has_label(s) && !is_relative(s),
        s.len() > 0 && s[0] <= 63 && s.len() > s[0] ==> has_label(s),
{
    lemma_relative_error(s);
}

/// The name without labels is a prefix and a suffix of every name, and
/// every name is a prefix and a suffix of itself.
pub proof fn law_trivial_affixes(name: Seq<Seq<u8>>)
    ensures
        is_prefix(Seq::<Seq<u8>>::empty(), name),
        is_suffix(Seq::<Seq<u8>>::empty(), name),
        is_prefix(name, name),
        is_suffix(name, name),
{
}

/// A prefix or suffix that has as many labels as the name is the same
/// name.
pub proof fn law_full_affix_is_eq(base: Seq<Seq<u8>>, name: Seq<Seq<u8>>)
    requires
        base.len() == name.len(),
    ensures
        is_prefix(base, name) <==> names_eq(base, name),
        is_suffix(base, name) <==> names_eq(base, name),
{
    if is_suffix(base, name) {
        assert forall|k: int| 0 <= k < base.len() implies label_eq(#[trigger] base[k], name[k]) by {
            assert(label_eq(base[k], name[name.len() - base.len() + k]));
        }
    }
    if names_eq(base, name) {
        assert forall|k: int| 0 <= k < base.len() implies label_eq(
            #[trigger] base[k],
            name[name.len() - base.len() + k],
        ) by {
            assert(label_eq(base[k], name[k]));
        }
    }
}

/// Names that are the same name have the same octets once these are
/// folded to lower case. So they feed the same octets into a hasher.
pub proof fn law_equal_names_fold_alike(a: Seq<u8>, b: Seq<u8>)
    requires
        is_label_seq(a),
        is_label_seq(b),
        names_eq(labels(a), labels(b)),
    ensures
        folded(a) == folded(b),
    decreases a.len(),
{
    lemma_labels_len(a);
    lemma_labels_len(b);
    if a.len() == 0 {
        assert(folded(a) =~= folded(b));
    } else {
        lemma_names_eq_front(labels(a), labels(b));
        assert(labels(a).skip(1) =~= labels(tail(a)));
        assert(labels(b).skip(1) =~= labels(tail(b)));
        law_equal_names_fold_alike(tail(a), tail(b));
        assert(label_eq(head(a), head(b)));
        assert(a[0] == b[0]);
        let n = a[0] as int;
        assert(folded(tail(a)).len() == folded(tail(b)).len());
        assert(a.len() == b.len());
        assert forall|i: int| 0 <= i < a.len() implies fold(a[i]) == fold(b[i]) by {
            if i == 0 {
            } else if i <= n {
                assert(a[i] == head(a)[i - 1]);
                assert(b[i] == head(b)[i - 1]);
            } else {
                assert(a[i] == tail(a)[i - 1 - n]);
                assert(b[i] == tail(b)[i - 1 - n]);
                assert(folded(tail(a))[i - 1 - n] == folded(tail(b))[i - 1 - n]);
            }
        }
        assert(folded(a) =~= folded(b));
    }
}

/// Being the same label carries over a label in the middle.
pub proof fn law_label_eq_transitive(a: Seq<u8>, b: Seq<u8>, c: Seq<u8>)
    requires
        label_eq(a, b),
        label_eq(b, c),
    ensures
        label_eq(a, c),
{
    assert forall|i: int| 0 <= i < a.len() implies fold(#[trigger] a[i]) == fold(c[i]) by {
        assert(fold(a[i]) == fold(b[i]));
        assert(fold(b[i]) == fold(c[i]));
    }
}

/// The canonical order of names is transitive, and names that stand
/// equal in it are the same name.
pub proof fn law_name_order_transitive(x: Seq<Seq<u8>>, y: Seq<Seq<u8>>, z: Seq<Seq<u8>>)
    requires
        name_order(x, y) != Order::Greater,
        name_order(y, z) != Order::Greater,
    ensures
        name_order(x, z) != Order::Greater,
        name_order(x, y) == Order::Less || name_order(y, z) == Order::Less ==> name_order(x, z)
            == Order::Less,
        name_order(x, y) == Order::Equal <==> names_eq(x, y),
    decreases x.len(),
{
    lemma_name_order_equal_is_eq(x, y);
    if x.len() > 0 && y.len() > 0 && z.len() > 0 {
        let (a, b, c) = (x.last(), y.last(), z.last());
        lemma_order_transitive(a, b, c);
        if label_order(a, b) == Order::Equal && label_order(b, c) == Order::Equal {
            lemma_order_equal_is_eq(a, b);
            lemma_order_equal_is_eq(b, c);
            lemma_order_equal_is_eq(a, c);
            law_label_eq_transitive(a, b, c);
            law_name_order_transitive(x.drop_last(), y.drop_last(), z.drop_last());
        }
    }
}

/// A name is the same name as itself, being the same name goes both
/// ways, and it carries over a name in the middle.
pub proof fn law_names_eq_equivalence(x: Seq<Seq<u8>>, y: Seq<Seq<u8>>, z: Seq<Seq<u8>>)
    ensures
        names_eq(x, x),
        names_eq(x, y) ==> names_eq(y, x),
        names_eq(x, y) && names_eq(y, z) ==> names_eq(x, z),
{
    if names_eq(x, y) {
        assert forall|k: int| 0 <= k < y.len() implies label_eq(#[trigger] y[k], x[k]) by {
            assert(label_eq(x[k], y[k]));
        }
        if names_eq(y, z) {
            assert forall|k: int| 0 <= k < x.len() implies label_eq(#[trigger] x[k], z[k]) by {
                assert(label_eq(x[k], y[k]));
                assert(label_eq(y[k], z[k]));
            }
        }
    }
}

/// Turning two names round turns their canonical order round.
pub proof fn law_name_order_flips(x: Seq<Seq<u8>>, y: Seq<Seq<u8>>)
    ensures
        name_order(x, y) == Order::Less <==> name_order(y, x) == Order::Greater,
        name_order(x, y) == Order::Equal <==> name_order(y, x) == Order::Equal,
    decreases x.len(),
{
    if x.len() > 0 && y.len() > 0 {
        lemma_order_flips(x.last(), y.last());
        law_name_order_flips(x.drop_last(), y.drop_last());
    }
}

/// A run of labels is the encoding of its labels, and each of its labels
/// is at most 63 octets long.
pub proof fn law_encode_labels(s: Seq<u8>)
    requires
        is_label_seq(s),
    ensures
        encode(labels(s)) == s,
        forall|k: int| 0 <= k < labels(s).len() ==> (#[trigger] labels(s)[k]).len() <= 63,
        is_label_run(s) ==> forall|k: int|
            0 <= k < labels(s).len() ==> (#[trigger] labels(s)[k]).len() > 0,
    decreases s.len(),
{
    if s.len() == 0 {
        assert(encode(labels(s)) =~= s);
    } else {
        law_encode_labels(tail(s));
        let l = labels(s);
        assert(l[0] == head(s));
        assert(l.skip(1) =~= labels(tail(s)));
        assert(encode_label(head(s)) + tail(s) =~= s);
        assert forall|k: int| 0 <= k < l.len() implies (#[trigger] l[k]).len() <= 63 by {
            if k > 0 {
                assert(l[k] == labels(tail(s))[k - 1]);
            }
        }
        if is_label_run(s) {
            assert forall|k: int| 0 <= k < l.len() implies (#[trigger] l[k]).len() > 0 by {
                if k > 0 {
                    assert(l[k] == labels(tail(s))[k - 1]);
                }
            }
        }
    }
}

/// Two octets in network byte order stand for the number they were made
/// of.
pub proof fn law_u16_round_trip(value: u16)
    ensures
        u16_of(u16_octets(value)[0], u16_octets(value)[1]) == value,
{
}

} // verus!

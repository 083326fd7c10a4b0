//! The wire format of uncompressed domain names, as mathematics.
//!
//! A name on the wire is a run of labels. Each label is one length octet
//! of at most 63 followed by that many octets of payload. The label of
//! length zero is the root label, which ends an absolute name.

use vstd::prelude::*;

verus! {

/// The longest payload a label can carry.
pub const MAX_LABEL_LEN: usize = 63;

/// The longest encoding of a relative name.
pub const MAX_RELATIVE_LEN: usize = 254;

/// The longest encoding of an absolute name.
pub const MAX_NAME_LEN: usize = 255;

/// Whether `s` opens with a complete label.
pub open spec fn has_label(s: Seq<u8>) -> bool {
    s.len() > 0 && s[0] <= 63 && 1 + s[0] <= s.len()
}

/// The number of octets that the first label of `s` takes up.
pub open spec fn head_len(s: Seq<u8>) -> int {
    1 + s[0]
}

/// The payload of the first label of `s`.
pub open spec fn head(s: Seq<u8>) -> Seq<u8> {
    s.subrange(1, head_len(s))
}

/// What follows the first label of `s`.
pub open spec fn tail(s: Seq<u8>) -> Seq<u8> {
    s.subrange(head_len(s), s.len() as int)
}

/// Whether `s` is a run of complete labels.
pub open spec fn is_label_seq(s: Seq<u8>) -> bool
    decreases s.len(),
{
    s.len() == 0 || (has_label(s) && is_label_seq(tail(s)))
}

/// Whether `s` is a run of complete labels none of which is the root label.
pub open spec fn is_label_run(s: Seq<u8>) -> bool
    decreases s.len(),
{
    s.len() == 0 || (has_label(s) && s[0] != 0 && is_label_run(tail(s)))
}

/// Whether `s` encodes a relative name.
pub open spec fn is_relative(s: Seq<u8>) -> bool {
    s.len() <= 254 && is_label_run(s)
}

/// Whether `s` encodes an absolute name: a run of labels other than the
/// root label, and then the root label.
pub open spec fn is_absolute(s: Seq<u8>) -> bool {
    1 <= s.len() <= 255 && s.last() == 0 && is_label_run(s.drop_last())
}

/// The payloads of the labels of `s`, in order, up to the first octet
/// that does not open a complete label.
pub open spec fn labels(s: Seq<u8>) -> Seq<Seq<u8>>
    decreases s.len(),
{
    if has_label(s) {
        seq![head(s)] + labels(tail(s))
    } else {
        seq![]
    }
}

/// The encoding of one label.
pub open spec fn encode_label(payload: Seq<u8>) -> Seq<u8> {
    seq![payload.len() as u8] + payload
}

/// The encoding of a list of labels.
pub open spec fn encode(list: Seq<Seq<u8>>) -> Seq<u8>
    decreases list.len(),
{
    if list.len() == 0 {
        seq![]
    } else {
        encode_label(list[0]) + encode(list.skip(1))
    }
}

/// Whether offset `i` into `s` is where a label begins or where the last
/// label ends.
pub open spec fn is_boundary(s: Seq<u8>, i: int) -> bool
    decreases s.len(),
{
    i == 0 || (has_label(s) && head_len(s) <= i && is_boundary(tail(s), i - head_len(s)))
}

/// A boundary lies inside the sequence.
pub proof fn lemma_boundary_in_range(s: Seq<u8>, i: int)
    requires
        is_boundary(s, i),
        is_label_seq(s),
    ensures
        0 <= i <= s.len(),
    decreases s.len(),
{
    if i != 0 {
        lemma_boundary_in_range(tail(s), i - head_len(s));
    }
}

/// The end of a run of labels is a boundary.
pub proof fn lemma_end_is_boundary(s: Seq<u8>)
    requires
        is_label_seq(s),
    ensures
        is_boundary(s, s.len() as int),
    decreases s.len(),
{
    if s.len() != 0 {
        lemma_end_is_boundary(tail(s));
    }
}

/// A run without root label is a run of labels.
pub proof fn lemma_run_is_seq(s: Seq<u8>)
    requires
        is_label_run(s),
    ensures
        is_label_seq(s),
    decreases s.len(),
{
    if s.len() != 0 {
        lemma_run_is_seq(tail(s));
    }
}

/// Two runs of labels, one after the other, are a run of labels, and a
/// boundary of the second is a boundary of the whole when moved by the
/// length of the first.
pub proof fn lemma_seq_concat(a: Seq<u8>, b: Seq<u8>)
    requires
        is_label_seq(a),
        is_label_seq(b),
    ensures
        is_label_seq(a + b),
        labels(a + b) == labels(a) + labels(b),
        is_boundary(a + b, a.len() as int),
        is_label_run(a) && is_label_run(b) ==> is_label_run(a + b),
    decreases a.len(),
{
    if a.len() == 0 {
        assert(a + b =~= b);
        assert(labels(a) =~= seq![]);
        assert(labels(a) + labels(b) =~= labels(b));
    } else {
        let c = a + b;
        assert(has_label(c));
        assert(head(c) =~= head(a));
        assert(tail(c) =~= tail(a) + b);
        lemma_seq_concat(tail(a), b);
        assert(labels(c) =~= labels(a) + labels(b));
    }
}

/// A run of labels splits at each of its boundaries into two runs of
/// labels.
pub proof fn lemma_split_at_boundary(s: Seq<u8>, i: int)
    requires
        is_label_seq(s),
        is_boundary(s, i),
    ensures
        0 <= i <= s.len(),
        is_label_seq(s.subrange(0, i)),
        is_label_seq(s.subrange(i, s.len() as int)),
        is_label_run(s) ==> is_label_run(s.subrange(0, i)) && is_label_run(
            s.subrange(i, s.len() as int),
        ),
        labels(s) == labels(s.subrange(0, i)) + labels(s.subrange(i, s.len() as int)),
    decreases s.len(),
{
    let left = s.subrange(0, i);
    let right = s.subrange(i, s.len() as int);
    lemma_boundary_in_range(s, i);
    if i == 0 {
        assert(right =~= s);
        assert(labels(left) =~= seq![]);
        assert(labels(left) + labels(right) =~= labels(right));
    } else {
        let n = head_len(s);
        lemma_split_at_boundary(tail(s), i - n);
        assert(has_label(left));
        assert(head(left) =~= head(s));
        assert(tail(left) =~= tail(s).subrange(0, i - n));
        assert(right =~= tail(s).subrange(i - n, tail(s).len() as int));
        assert(labels(s) =~= labels(left) + labels(right));
    }
}

/// Two boundaries of a run of labels, in order, are boundaries of what
/// lies before the second, and the first splits the second's part.
pub proof fn lemma_boundary_of_prefix(s: Seq<u8>, i: int, j: int)
    requires
        is_label_seq(s),
        is_boundary(s, i),
        is_boundary(s, j),
        i <= j,
    ensures
        is_boundary(s.subrange(0, j), i),
    decreases s.len(),
{
    lemma_boundary_in_range(s, i);
    lemma_boundary_in_range(s, j);
    if i != 0 {
        let n = head_len(s);
        let left = s.subrange(0, j);
        lemma_boundary_of_prefix(tail(s), i - n, j - n);
        assert(has_label(left));
        assert(tail(left) =~= tail(s).subrange(0, j - n));
    }
}

/// A boundary of the part after a boundary is a boundary of the whole.
pub proof fn lemma_boundary_of_suffix(s: Seq<u8>, i: int, k: int)
    requires
        is_label_seq(s),
        is_boundary(s, i),
        is_boundary(s.subrange(i, s.len() as int), k),
    ensures
        is_boundary(s, i + k),
    decreases s.len(),
{
    lemma_boundary_in_range(s, i);
    if i == 0 {
        assert(s.subrange(0, s.len() as int) =~= s);
    } else {
        let n = head_len(s);
        assert(s.subrange(i, s.len() as int) =~= tail(s).subrange(i - n, tail(s).len() as int));
        lemma_boundary_of_suffix(tail(s), i - n, k);
    }
}

/// Between two boundaries of a run of labels lies a run of labels.
pub proof fn lemma_range_between_boundaries(s: Seq<u8>, i: int, j: int)
    requires
        is_label_seq(s),
        is_boundary(s, i),
        is_boundary(s, j),
        i <= j,
    ensures
        0 <= i <= j <= s.len(),
        is_label_seq(s.subrange(i, j)),
        is_label_run(s) ==> is_label_run(s.subrange(i, j)),
{
    lemma_boundary_in_range(s, j);
    lemma_boundary_in_range(s, i);
    lemma_split_at_boundary(s, j);
    lemma_boundary_of_prefix(s, i, j);
    let left = s.subrange(0, j);
    lemma_split_at_boundary(left, i);
    assert(left.subrange(i, left.len() as int) =~= s.subrange(i, j));
}

/// Seen from one boundary of a run of labels, a later boundary is a
/// boundary of what follows the first.
pub proof fn lemma_boundary_after(s: Seq<u8>, i: int, j: int)
    requires
        is_label_seq(s),
        is_boundary(s, i),
        is_boundary(s, j),
        i <= j,
    ensures
        is_boundary(s.skip(i), j - i),
    decreases s.len(),
{
    lemma_boundary_in_range(s, i);
    lemma_boundary_in_range(s, j);
    if i == 0 {
        assert(s.skip(0) =~= s);
    } else {
        let n = head_len(s);
        lemma_boundary_after(tail(s), i - n, j - n);
        assert(s.skip(i) =~= tail(s).skip(i - n));
    }
}

/// At a boundary of a run of labels that is not its end, a label starts.
/// The label's end is the next boundary, and the labels from the boundary
/// on are this label and then those from the next boundary on.
pub proof fn lemma_step(s: Seq<u8>, i: int)
    requires
        is_label_seq(s),
        is_boundary(s, i),
        i < s.len(),
    ensures
        0 <= i,
        has_label(s.skip(i)),
        s.skip(i)[0] == s[i],
        head(s.skip(i)) == s.subrange(i + 1, i + 1 + s[i]),
        i + 1 + s[i] <= s.len(),
        is_boundary(s, i + 1 + s[i]),
        is_label_seq(s.skip(i)),
        tail(s.skip(i)) == s.skip(i + 1 + s[i]),
        labels(s.skip(i)) == seq![head(s.skip(i))] + labels(s.skip(i + 1 + s[i])),
        is_label_run(s) ==> s[i] != 0,
{
    lemma_split_at_boundary(s, i);
    let rest = s.skip(i);
    assert(rest =~= s.subrange(i, s.len() as int));
    assert(has_label(rest));
    assert(head(rest) =~= s.subrange(i + 1, i + 1 + s[i]));
    assert(tail(rest) =~= s.skip(i + 1 + s[i]));
    assert(is_boundary(tail(rest), 0));
    assert(is_boundary(rest, head_len(rest)));
    lemma_boundary_of_suffix(s, i, head_len(rest));
}

/// The labels before the end of a label are the labels before its start,
/// and then the label.
pub proof fn lemma_step_back(s: Seq<u8>, i: int)
    requires
        is_label_seq(s),
        is_boundary(s, i),
        i < s.len(),
    ensures
        labels(s.take(i + 1 + s[i])) == labels(s.take(i)).push(head(s.skip(i))),
{
    lemma_step(s, i);
    let e = i + 1 + s[i];
    let one = s.subrange(i, e);
    lemma_split_at_boundary(s, i);
    assert(s.take(i) =~= s.subrange(0, i));
    assert(has_label(one));
    assert(head(one) =~= head(s.skip(i)));
    assert(tail(one) =~= Seq::<u8>::empty());
    assert(is_label_seq(tail(one)));
    assert(labels(tail(one)) =~= Seq::<Seq<u8>>::empty());
    assert(labels(one) =~= seq![head(s.skip(i))]);
    lemma_seq_concat(s.take(i), one);
    assert(s.take(e) =~= s.take(i) + one);
    assert(labels(s.take(i)) + seq![head(s.skip(i))] =~= labels(s.take(i)).push(head(s.skip(i))));
}

/// A boundary of the first of two runs of labels is a boundary of the two
/// joined, and a boundary of the joined runs lies in one of them.
pub proof fn lemma_boundary_of_concat(a: Seq<u8>, b: Seq<u8>, i: int)
    requires
        is_label_seq(a),
        is_label_seq(b),
    ensures
        i <= a.len() ==> (is_boundary(a + b, i) <==> is_boundary(a, i)),
        i >= a.len() ==> (is_boundary(a + b, i) <==> is_boundary(b, i - a.len())),
{
    let c = a + b;
    lemma_seq_concat(a, b);
    assert(c.subrange(0, a.len() as int) =~= a);
    assert(c.skip(a.len() as int) =~= b);
    assert(c.subrange(a.len() as int, c.len() as int) =~= b);
    if i <= a.len() {
        if is_boundary(c, i) {
            lemma_boundary_of_prefix(c, i, a.len() as int);
        }
        if is_boundary(a, i) {
            lemma_boundary_in_range(a, i);
            lemma_boundary_of_suffix_of_prefix(a, b, i);
        }
    }
    if i >= a.len() {
        if is_boundary(c, i) {
            lemma_boundary_after(c, a.len() as int, i);
        }
        if is_boundary(b, i - a.len()) {
            lemma_boundary_of_suffix(c, a.len() as int, i - a.len());
        }
    }
}

/// A boundary of a run of labels stays one when more labels follow.
pub proof fn lemma_boundary_of_suffix_of_prefix(a: Seq<u8>, b: Seq<u8>, i: int)
    requires
        is_label_seq(a),
        is_boundary(a, i),
    ensures
        is_boundary(a + b, i),
    decreases a.len(),
{
    if i != 0 {
        let c = a + b;
        assert(has_label(c));
        assert(tail(c) =~= tail(a) + b);
        lemma_boundary_of_suffix_of_prefix(tail(a), b, i - head_len(a));
    }
}

/// The labels of an encoding are as many as its octets at most, since
/// each takes up at least one.
pub proof fn lemma_labels_len(s: Seq<u8>)
    ensures
        labels(s).len() <= s.len(),
        is_label_seq(s) && s.len() > 0 ==> labels(s).len() > 0,
    decreases s.len(),
{
    if has_label(s) {
        lemma_labels_len(tail(s));
    }
}

/// An absolute name is a relative name and then the root label, and it
/// is a run of labels whose last is the root label.
pub proof fn lemma_absolute_parts(s: Seq<u8>)
    requires
        is_absolute(s),
    ensures
        is_relative(s.drop_last()),
        s == s.drop_last() + seq![0u8],
        is_label_seq(s),
        labels(s) == labels(s.drop_last()).push(Seq::<u8>::empty()),
        is_boundary(s, s.len() - 1),
{
    let run = s.drop_last();
    let root = seq![0u8];
    assert(s =~= run + root);
    assert(has_label(root));
    assert(tail(root) =~= Seq::<u8>::empty());
    assert(head(root) =~= Seq::<u8>::empty());
    assert(is_label_seq(tail(root)));
    assert(labels(tail(root)) =~= Seq::<Seq<u8>>::empty());
    assert(labels(root) =~= seq![Seq::<u8>::empty()]);
    lemma_run_is_seq(run);
    lemma_seq_concat(run, root);
    assert(labels(run) + seq![Seq::<u8>::empty()] =~= labels(run).push(Seq::<u8>::empty()));
}

/// A relative name and then the root label is an absolute name.
pub proof fn lemma_absolute_from_relative(run: Seq<u8>)
    requires
        is_relative(run),
    ensures
        is_absolute(run.push(0u8)),
        run.push(0u8).drop_last() == run,
{
    assert(run.push(0u8).drop_last() =~= run);
}

/// Whether offset `i` into the absolute name `s` is where a label begins.
/// The end of the name is no such offset: nothing follows the root label.
pub open spec fn is_label_offset(s: Seq<u8>, i: int) -> bool {
    is_boundary(s, i) && i < s.len()
}

/// The boundaries of an absolute name that lie before its end are the
/// boundaries of the relative name in front of the root label.
pub proof fn lemma_absolute_boundary(s: Seq<u8>, i: int)
    requires
        is_absolute(s),
    ensures
        is_label_offset(s, i) <==> is_boundary(s.drop_last(), i),
{
    lemma_absolute_parts(s);
    let run = s.drop_last();
    lemma_run_is_seq(run);
    assert(is_label_seq(seq![0u8])) by {
        assert(has_label(seq![0u8]));
        assert(tail(seq![0u8]) =~= Seq::<u8>::empty());
        assert(is_label_seq(tail(seq![0u8])));
    }
    lemma_boundary_of_concat(run, seq![0u8], i);
    if is_boundary(run, i) {
        lemma_boundary_in_range(run, i);
    }
    if is_boundary(s, i) {
        lemma_boundary_in_range(s, i);
    }
}

} // verus!

//! Walking the labels of a name that lies in one slice.

use crate::label::Label;
use crate::wire::{
    head, is_boundary, is_label_seq, labels, lemma_boundary_after, lemma_boundary_in_range,
    lemma_labels_len, lemma_step, tail,
};
use vstd::prelude::*;
use vstd::slice::slice_subrange;

verus! {

/// Whether `index` is where a label of the name in `slice` begins, or is
/// the end of the name.
pub fn is_label_start(slice: &[u8], index: usize) -> (r: bool)
    requires
        is_label_seq(slice@),
    ensures
        r <==> is_boundary(slice@, index as int),
{
    if index == 0 {
        return true;
    }
    let mut pos: usize = 0;
    proof {
        assert(slice@.skip(0) =~= slice@);
    }
    while pos < slice.len()
        invariant
            pos <= slice@.len(),
            pos < index,
            is_label_seq(slice@),
            is_boundary(slice@, pos as int),
            is_boundary(slice@, index as int) <==> is_boundary(
                slice@.skip(pos as int),
                index - pos,
            ),
        decreases slice@.len() - pos,
    {
        proof {
            lemma_step(slice@, pos as int);
        }
        let len = slice[pos] as usize + 1;
        if index - pos < len {
            return false;
        } else if index - pos == len {
            proof {
                assert(is_boundary(tail(slice@.skip(pos as int)), 0));
            }
            return true;
        }
        pos = pos + len;
    }
    proof {
        assert(slice@.skip(pos as int).len() == 0);
    }
    false
}

/// The label of the name in `slice` that begins at `pos`.
pub fn label_at<'a>(slice: &'a [u8], pos: usize) -> (r: Label<'a>)
    requires
        is_label_seq(slice@),
        is_boundary(slice@, pos as int),
        pos < slice@.len(),
    ensures
        r.wf(),
        r@ == head(slice@.skip(pos as int)),
        r@.len() == slice@[pos as int],
        pos + 1 + r@.len() <= slice@.len(),
{
    proof {
        lemma_step(slice@, pos as int);
    }
    let total = slice.len();
    let end = pos + 1 + slice[pos] as usize;
    Label::from_payload(slice_subrange(slice, pos + 1, end))
}

/// Where the label of the name in `slice` begins that ends at `end`.
pub fn label_start_before(slice: &[u8], end: usize) -> (r: usize)
    requires
        is_label_seq(slice@),
        is_boundary(slice@, end as int),
        0 < end,
    ensures
        r < end,
        is_boundary(slice@, r as int),
        end == r + 1 + slice@[r as int],
{
    let mut pos: usize = 0;
    proof {
        lemma_boundary_in_range(slice@, end as int);
    }
    loop
        invariant
            pos < end <= slice@.len(),
            is_label_seq(slice@),
            is_boundary(slice@, pos as int),
            is_boundary(slice@, end as int),
        decreases end - pos,
    {
        proof {
            lemma_step(slice@, pos as int);
            lemma_boundary_after(slice@, pos as int, end as int);
        }
        let next = pos + 1 + slice[pos] as usize;
        if next == end {
            return pos;
        }
        pos = next;
    }
}

/// The number of labels of the name in `slice`.
pub fn count_labels(slice: &[u8]) -> (r: usize)
    requires
        is_label_seq(slice@),
    ensures
        r == labels(slice@).len(),
{
    let mut pos: usize = 0;
    let mut count: usize = 0;
    proof {
        assert(slice@.skip(0) =~= slice@);
        lemma_labels_len(slice@);
    }
    while pos < slice.len()
        invariant
            pos <= slice@.len(),
            is_label_seq(slice@),
            is_boundary(slice@, pos as int),
            labels(slice@).len() == count + labels(slice@.skip(pos as int)).len(),
            labels(slice@).len() <= slice@.len(),
        decreases slice@.len() - pos,
    {
        proof {
            lemma_step(slice@, pos as int);
        }
        pos = pos + 1 + slice[pos] as usize;
        count = count + 1;
    }
    proof {
        assert(slice@.skip(pos as int).len() == 0);
    }
    count
}

} // verus!

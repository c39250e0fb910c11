//! The save retention policy: after a new save reference is durably
//! recorded, the references of its path are bounded to a fixed limit;
//! the oldest excess references are given up, so that their backing file
//! content can be removed. Deletion of the backing content is best-effort
//! and happens outside the library.
//!
//! The limit is a hardcoded constant here, while a separately
//! configurable maximum of saves per game exists on the configuration
//! surface; the two are deliberately not wired together.

use vstd::prelude::*;

use crate::endpoint::{SaveReference, SaveReferenceV};

verus! {

broadcast use vstd::seq_lib::group_to_multiset_ensures, vstd::multiset::group_multiset_axioms;

/// How many save references are retained per path.
pub const RETENTION_LIMIT: usize = 5;

/// `a` is `b` with some elements left out, in order.
pub open spec fn subsequence_of(a: Seq<SaveReferenceV>, b: Seq<SaveReferenceV>) -> bool
    decreases a.len() + b.len(),
{
    if a.len() == 0 {
        true
    } else if b.len() == 0 {
        false
    } else if a[0] == b[0] {
        subsequence_of(a.drop_first(), b.drop_first())
    } else {
        subsequence_of(a, b.drop_first())
    }
}

/// Every sequence is a subsequence of itself.
proof fn lemma_subsequence_refl(a: Seq<SaveReferenceV>)
    ensures
        subsequence_of(a, a),
    decreases a.len(),
{
    if a.len() > 0 {
        lemma_subsequence_refl(a.drop_first());
    }
}

/// A subsequence of a sequence's tail is a subsequence of the whole.
proof fn lemma_subsequence_skip_head(a: Seq<SaveReferenceV>, b: Seq<SaveReferenceV>)
    requires
        b.len() > 0,
        subsequence_of(a, b.drop_first()),
    ensures
        subsequence_of(a, b),
    decreases a.len() + b.len(),
{
    if a.len() == 0 {
    } else if a[0] == b[0] {
        lemma_subsequence_drop_left(a, b.drop_first());
    }
}

/// Dropping a subsequence's first element keeps it a subsequence.
proof fn lemma_subsequence_drop_left(a: Seq<SaveReferenceV>, b: Seq<SaveReferenceV>)
    requires
        a.len() > 0,
        subsequence_of(a, b),
    ensures
        subsequence_of(a.drop_first(), b),
    decreases a.len() + b.len(),
{
    if b.len() == 0 {
    } else if a[0] == b[0] {
        lemma_subsequence_skip_head(a.drop_first(), b);
    } else {
        lemma_subsequence_drop_left(a, b.drop_first());
        lemma_subsequence_skip_head(a.drop_first(), b);
    }
}

/// Leaving one more element out keeps a subsequence a subsequence.
proof fn lemma_subsequence_remove(a: Seq<SaveReferenceV>, b: Seq<SaveReferenceV>, i: int)
    requires
        subsequence_of(a, b),
        0 <= i < a.len(),
    ensures
        subsequence_of(a.remove(i), b),
    decreases a.len() + b.len(),
{
    if b.len() == 0 {
    } else if a[0] == b[0] {
        if i == 0 {
            assert(a.remove(0) =~= a.drop_first());
            lemma_subsequence_drop_left(a, b);
        } else {
            lemma_subsequence_remove(a.drop_first(), b.drop_first(), i - 1);
            assert(a.remove(i).drop_first() =~= a.drop_first().remove(i - 1));
            assert(a.remove(i)[0] == a[0]);
        }
    } else {
        lemma_subsequence_remove(a, b.drop_first(), i);
        lemma_subsequence_skip_head(a.remove(i), b);
    }
}

/// The policy's outcome: the references that remain, and the oldest
/// excess references whose backing content is to be removed.
#[derive(Debug)]
pub struct RetentionOutcome {
    pub keep: Vec<SaveReference>,
    pub delete: Vec<SaveReference>,
}

/// Bound the references of one path: while more than the retention limit
/// remain, the oldest (first, among equals) is moved out. Together the
/// two sides hold exactly the input references; everything given up is
/// at least as old as everything kept, oldest first.
pub fn apply_retention_policy(refs: Vec<SaveReference>) -> (r: RetentionOutcome)
    ensures
        r.keep.deep_view().len() as int == (if refs.deep_view().len() <= RETENTION_LIMIT {
            refs.deep_view().len() as int
        } else {
            RETENTION_LIMIT as int
        }),
        r.keep.deep_view().len() + r.delete.deep_view().len() == refs.deep_view().len(),
        r.keep.deep_view().to_multiset().add(r.delete.deep_view().to_multiset())
            == refs.deep_view().to_multiset(),
        subsequence_of(r.keep.deep_view(), refs.deep_view()),
        forall|a: int, b: int|
            0 <= a < r.delete.deep_view().len() && 0 <= b < r.keep.deep_view().len()
                ==> (#[trigger] r.delete.deep_view()[a]).time
                <= (#[trigger] r.keep.deep_view()[b]).time,
        forall|a: int, b: int|
            0 <= a < b < r.delete.deep_view().len() ==> r.delete.deep_view()[a].time
                <= r.delete.deep_view()[b].time,
{
    let ghost refsv = refs.deep_view();
    let mut keep = refs;
    let mut delete: Vec<SaveReference> = Vec::new();
    assert(delete.deep_view() =~= Seq::<SaveReferenceV>::empty());
    assert(Seq::<SaveReferenceV>::empty().to_multiset().add(keep.deep_view().to_multiset())
        =~= keep.deep_view().to_multiset());
    proof {
        lemma_subsequence_refl(refsv);
    }
    while keep.len() > RETENTION_LIMIT
        invariant
            keep.deep_view().len() >= RETENTION_LIMIT || delete.deep_view().len() == 0,
            keep.deep_view().len() + delete.deep_view().len() == refsv.len(),
            subsequence_of(keep.deep_view(), refsv),
            keep.deep_view().to_multiset().add(delete.deep_view().to_multiset())
                == refsv.to_multiset(),
            forall|a: int, b: int|
                0 <= a < delete.deep_view().len() && 0 <= b < keep.deep_view().len()
                    ==> (#[trigger] delete.deep_view()[a]).time
                    <= (#[trigger] keep.deep_view()[b]).time,
            forall|a: int, b: int|
                0 <= a < b < delete.deep_view().len() ==> delete.deep_view()[a].time
                    <= delete.deep_view()[b].time,
        decreases keep.len(),
    {
        // index of the first oldest reference
        let mut oldest: usize = 0;
        let mut k: usize = 1;
        while k < keep.len()
            invariant
                0 <= oldest < k <= keep.len(),
                keep.len() >= 1,
                forall|m: int|
                    0 <= m < k ==> keep.deep_view()[oldest as int].time
                        <= (#[trigger] keep.deep_view()[m]).time,
            decreases keep.len() - k,
        {
            if keep[k].time < keep[oldest].time {
                oldest = k;
            }
            k += 1;
        }
        let ghost keep_before = keep.deep_view();
        let ghost delete_before = delete.deep_view();
        let removed = keep.remove(oldest);
        assert(keep.deep_view() =~= keep_before.remove(oldest as int));
        assert(removed@ == keep_before[oldest as int]);
        delete.push(removed);
        assert(delete.deep_view() =~= delete_before.push(keep_before[oldest as int]));
        proof {
            lemma_subsequence_remove(keep_before, refsv, oldest as int);
            assert(keep_before.contains(keep_before[oldest as int]));
            assert(keep_before.to_multiset().count(keep_before[oldest as int]) > 0);
            assert(keep_before.remove(oldest as int).to_multiset() =~= keep_before.to_multiset()
                .remove(keep_before[oldest as int]));
            assert(delete_before.push(keep_before[oldest as int]).to_multiset()
                =~= delete_before.to_multiset().insert(keep_before[oldest as int]));
            assert(keep.deep_view().to_multiset().add(delete.deep_view().to_multiset())
                =~= refsv.to_multiset()) by {
                assert(keep_before.to_multiset().count(keep_before[oldest as int]) > 0);
            }
            assert forall|a: int, b: int|
                0 <= a < delete.deep_view().len() && 0 <= b < keep.deep_view().len() implies (
            #[trigger] delete.deep_view()[a]).time <= (#[trigger] keep.deep_view()[b]).time by {
                let kb = if b < oldest as int {
                    b
                } else {
                    b + 1
                };
                assert(keep.deep_view()[b] == keep_before[kb]);
                if a < delete_before.len() {
                    assert(delete.deep_view()[a] == delete_before[a]);
                } else {
                    assert(delete.deep_view()[a] == keep_before[oldest as int]);
                }
            }
            assert forall|a: int, b: int|
                0 <= a < b < delete.deep_view().len() implies delete.deep_view()[a].time
                <= delete.deep_view()[b].time by {
                if b < delete_before.len() {
                    assert(delete.deep_view()[a] == delete_before[a]);
                    assert(delete.deep_view()[b] == delete_before[b]);
                } else {
                    assert(delete.deep_view()[a] == delete_before[a]);
                    assert(delete.deep_view()[b] == keep_before[oldest as int]);
                    assert(delete_before[a].time <= keep_before[oldest as int].time);
                }
            }
        }
    }
    RetentionOutcome { keep, delete }
}

} // verus!

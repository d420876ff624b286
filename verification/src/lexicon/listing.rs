use crate::syntax::{gathered, holds, is_listing, Features, Key};
use crate::trie::{is_subsequence, Label};
use vstd::prelude::*;

verus! {

/// Whether the categories of `s` ascend strictly.
pub open spec fn ascending(s: Seq<Label>) -> bool {
    forall|i: int, j: int| 0 <= i < j < s.len() ==> s[i].0 < s[j].0
}

/// The feature set that the pairs of `s` make up.
pub open spec fn features_of(s: Seq<Label>) -> Features {
    Map::new(
        |k: Key| exists|i: int| 0 <= i < s.len() && (#[trigger] s[i]).0 == k,
        |k: Key| s[choose|i: int| 0 <= i < s.len() && (#[trigger] s[i]).0 == k].1,
    )
}

/// A sequence of pairs with strictly ascending categories lists the
/// feature set that its pairs make up.
pub proof fn lemma_ascending_lists(s: Seq<Label>)
    requires
        ascending(s),
    ensures
        is_listing(s, features_of(s)),
{
    let m = features_of(s);
    assert forall|i: int| 0 <= i < s.len() implies holds(m, #[trigger] s[i].0, s[i].1) by {
        let k = s[i].0;
        let j = choose|j: int| 0 <= j < s.len() && (#[trigger] s[j]).0 == k;
        if i < j {
            assert(s[i].0 < s[j].0);
        } else if j < i {
            assert(s[j].0 < s[i].0);
        }
    }
}

/// A listing determines the feature set that it lists.
pub proof fn lemma_listing_determines_features(s: Seq<Label>, a: Features, b: Features)
    requires
        is_listing(s, a),
        is_listing(s, b),
    ensures
        a == b,
{
    assert forall|k: Key| a.contains_key(k) implies b.contains_key(k) && a[k] == b[k] by {
        let i = choose|i: int| 0 <= i < s.len() && #[trigger] s[i].0 == k;
        assert(holds(a, s[i].0, s[i].1) && holds(b, s[i].0, s[i].1));
    }
    assert forall|k: Key| b.contains_key(k) implies a.contains_key(k) by {
        let i = choose|i: int| 0 <= i < s.len() && #[trigger] s[i].0 == k;
        assert(holds(a, s[i].0, s[i].1) && holds(b, s[i].0, s[i].1));
    }
    assert(a =~= b);
}

/// What can be had from `q` by leaving elements out is no longer than `q`,
/// and is `q` itself if it is as long.
pub proof fn lemma_subsequence_length(p: Seq<Label>, q: Seq<Label>)
    requires
        is_subsequence(p, q),
    ensures
        p.len() <= q.len(),
        p.len() == q.len() ==> p == q,
    decreases q.len(),
{
    if p.len() > 0 {
        if p.last() == q.last() && is_subsequence(p.drop_last(), q.drop_last()) {
            lemma_subsequence_length(p.drop_last(), q.drop_last());
            if p.len() == q.len() {
                assert(p == p.drop_last().push(p.last()));
                assert(q == q.drop_last().push(q.last()));
            }
        } else {
            lemma_subsequence_length(p, q.drop_last());
        }
    } else if q.len() == 0 {
        assert(p == q);
    }
}

/// Every element of a subsequence occurs in the sequence, and the
/// subsequence ascends if the sequence does.
pub proof fn lemma_subsequence_elements(p: Seq<Label>, q: Seq<Label>)
    requires
        is_subsequence(p, q),
    ensures
        forall|i: int| 0 <= i < p.len() ==> q.contains(#[trigger] p[i]),
        ascending(q) ==> ascending(p),
    decreases q.len(),
{
    if p.len() > 0 {
        let head_q = q.drop_last();
        if p.last() == q.last() && is_subsequence(p.drop_last(), head_q) {
            let head_p = p.drop_last();
            lemma_subsequence_elements(head_p, head_q);
            assert forall|i: int| 0 <= i < p.len() implies q.contains(#[trigger] p[i]) by {
                if i < head_p.len() {
                    assert(head_q.contains(head_p[i]));
                    let j = choose|j: int| 0 <= j < head_q.len() && head_q[j] == head_p[i];
                    assert(q[j] == p[i]);
                } else {
                    assert(q[q.len() - 1] == p[i]);
                }
            }
            if ascending(q) {
                assert(ascending(head_q)) by {
                    assert forall|i: int, j: int| 0 <= i < j < head_q.len() implies head_q[i].0 < head_q[j].0 by {
                        assert(q[i].0 < q[j].0);
                    }
                }
                assert forall|i: int, j: int| 0 <= i < j < p.len() implies p[i].0 < p[j].0 by {
                    if j < head_p.len() {
                        assert(head_p[i].0 < head_p[j].0);
                    } else {
                        assert(head_q.contains(head_p[i]));
                        let t = choose|t: int| 0 <= t < head_q.len() && head_q[t] == head_p[i];
                        assert(q[t].0 < q[q.len() - 1].0);
                    }
                }
            }
        } else {
            lemma_subsequence_elements(p, head_q);
            assert forall|i: int| 0 <= i < p.len() implies q.contains(#[trigger] p[i]) by {
                assert(head_q.contains(p[i]));
                let j = choose|j: int| 0 <= j < head_q.len() && head_q[j] == p[i];
                assert(q[j] == p[i]);
            }
            if ascending(q) {
                assert(ascending(head_q)) by {
                    assert forall|i: int, j: int| 0 <= i < j < head_q.len() implies head_q[i].0 < head_q[j].0 by {
                        assert(q[i].0 < q[j].0);
                    }
                }
            }
        }
    }
}

/// Of two ascending sequences, one whose elements all occur in the other
/// can be had from it by leaving elements out.
pub proof fn lemma_ascending_subsequence(p: Seq<Label>, q: Seq<Label>)
    requires
        ascending(p),
        ascending(q),
        forall|i: int| 0 <= i < p.len() ==> q.contains(#[trigger] p[i]),
    ensures
        is_subsequence(p, q),
    decreases q.len(),
{
    if p.len() > 0 {
        assert(q.contains(p[0]));
        let head_q = q.drop_last();
        assert(ascending(head_q)) by {
            assert forall|i: int, j: int| 0 <= i < j < head_q.len() implies head_q[i].0 < head_q[j].0 by {
                assert(q[i].0 < q[j].0);
            }
        }
        if p.last() == q.last() {
            let head_p = p.drop_last();
            assert(ascending(head_p)) by {
                assert forall|i: int, j: int| 0 <= i < j < head_p.len() implies head_p[i].0 < head_p[j].0 by {
                    assert(p[i].0 < p[j].0);
                }
            }
            assert forall|i: int| 0 <= i < head_p.len() implies head_q.contains(#[trigger] head_p[i]) by {
                assert(q.contains(p[i]));
                let j = choose|j: int| 0 <= j < q.len() && q[j] == p[i];
                assert(p[i].0 < p[p.len() - 1].0);
                assert(head_q[j] == head_p[i]);
            }
            lemma_ascending_subsequence(head_p, head_q);
        } else {
            assert forall|i: int| 0 <= i < p.len() implies head_q.contains(#[trigger] p[i]) by {
                assert(q.contains(p[i]));
                let j = choose|j: int| 0 <= j < q.len() && q[j] == p[i];
                if j == q.len() - 1 {
                    assert(q.contains(p[p.len() - 1]));
                    let t = choose|t: int| 0 <= t < q.len() && q[t] == p[p.len() - 1];
                    if i < p.len() - 1 {
                        assert(p[i].0 < p[p.len() - 1].0);
                    }
                    if t < q.len() - 1 {
                        assert(q[t].0 < q[q.len() - 1].0);
                    }
                    assert(false);
                }
                assert(head_q[j] == p[i]);
            }
            lemma_ascending_subsequence(p, head_q);
        }
    }
}

/// The listing of one feature set can be had from the listing of another
/// by leaving pairs out exactly if the first set is a subset of the second.
pub proof fn lemma_subset_is_subsequence(p: Seq<Label>, t: Features, q: Seq<Label>, fs: Features)
    requires
        is_listing(p, t),
        is_listing(q, fs),
    ensures
        is_subsequence(p, q) <==> t.submap_of(fs),
{
    if is_subsequence(p, q) {
        lemma_subsequence_elements(p, q);
        assert forall|k: Key| t.dom().contains(k) implies fs.dom().contains(k) && t[k] == fs[k] by {
            assert(t.contains_key(k));
            let i = choose|i: int| 0 <= i < p.len() && #[trigger] p[i].0 == k;
            assert(holds(t, p[i].0, p[i].1));
            assert(q.contains(p[i]));
            let j = choose|j: int| 0 <= j < q.len() && q[j] == p[i];
            assert(holds(fs, q[j].0, q[j].1));
        }
    }
    if t.submap_of(fs) {
        assert forall|i: int| 0 <= i < p.len() implies q.contains(#[trigger] p[i]) by {
            assert(holds(t, p[i].0, p[i].1));
            assert(t.dom().contains(p[i].0));
            assert(fs.contains_key(p[i].0));
            let j = choose|j: int| 0 <= j < q.len() && #[trigger] q[j].0 == p[i].0;
            assert(holds(fs, q[j].0, q[j].1));
            assert(q[j] == p[i]);
        }
        lemma_ascending_subsequence(p, q);
    }
}

/// A feature set has one listing only.
pub proof fn lemma_listing_is_unique(p: Seq<Label>, q: Seq<Label>, fs: Features)
    requires
        is_listing(p, fs),
        is_listing(q, fs),
    ensures
        p == q,
{
    lemma_subset_is_subsequence(p, fs, q, fs);
    lemma_subset_is_subsequence(q, fs, p, fs);
    lemma_subsequence_length(p, q);
    lemma_subsequence_length(q, p);
}

/// Pairs with strictly ascending categories list the feature set that
/// they make up one after the other.
pub proof fn lemma_gathered_lists(s: Seq<Label>)
    requires
        ascending(s),
    ensures
        is_listing(s, gathered(s)),
    decreases s.len(),
{
    if s.len() > 0 {
        let front = s.drop_last();
        let m = gathered(front);
        lemma_gathered_lists(front);
        assert(!m.contains_key(s.last().0)) by {
            if m.contains_key(s.last().0) {
                let j = choose|j: int| 0 <= j < front.len() && #[trigger] front[j].0 == s.last().0;
                assert(s[j].0 < s[s.len() - 1].0);
            }
        }
        assert forall|j: int| 0 <= j < s.len() implies holds(gathered(s), #[trigger] s[j].0, s[j].1) by {
            if j < front.len() {
                assert(holds(m, front[j].0, front[j].1));
                assert(s[j].0 < s[s.len() - 1].0);
            }
        }
        assert forall|k: Key| gathered(s).contains_key(k) implies exists|j: int|
            0 <= j < s.len() && #[trigger] s[j].0 == k by {
            if k == s.last().0 {
                assert(s[s.len() - 1].0 == k);
            } else {
                let j = choose|j: int| 0 <= j < front.len() && #[trigger] front[j].0 == k;
                assert(s[j].0 == k);
            }
        }
    }
}

} // verus!

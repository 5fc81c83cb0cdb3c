use vstd::prelude::*;
use vstd::seq_lib::{lemma_multiset_commutative, to_multiset_build, to_multiset_contains, to_multiset_insert};

verus! {

/// One ranked search hit: the stored path of a document and its relevance.
///
/// `score` is an order key: a larger key means a more relevant document.
/// Relevance scores are non-negative, and for those the IEEE bit pattern
/// orders exactly as the score does: callers pass `score.to_bits()` for a
/// positive score and 0 for any other.
pub struct Hit {
    pub score: u32,
    pub fname: String,
}

/// Joins a list of hit lists, first list first.
pub open spec fn concat_all(lists: Seq<Seq<Hit>>) -> Seq<Hit>
    decreases lists.len(),
{
    if lists.len() == 0 {
        Seq::empty()
    } else {
        lists[0] + concat_all(lists.drop_first())
    }
}

/// The views of a list of hit vectors.
pub open spec fn lists_view(lists: Seq<Vec<Hit>>) -> Seq<Seq<Hit>> {
    lists.map_values(|v: Vec<Hit>| v@)
}

/// Places `h` into `s` just after the leading run of hits that score at
/// least as high as `h`: on a descending `s`, after every hit of equal or
/// higher score, so that among equal scores the earlier arrival stays first.
pub open spec fn insert_desc(s: Seq<Hit>, h: Hit) -> Seq<Hit>
    decreases s.len(),
{
    if s.len() == 0 {
        seq![h]
    } else if s[0].score >= h.score {
        seq![s[0]] + insert_desc(s.drop_first(), h)
    } else {
        seq![h] + s
    }
}

/// The position at which `insert_desc` places `h`.
pub open spec fn insert_pos(s: Seq<Hit>, h: Hit) -> nat
    decreases s.len(),
{
    if s.len() == 0 {
        0
    } else if s[0].score >= h.score {
        1 + insert_pos(s.drop_first(), h)
    } else {
        0
    }
}

/// The hits of `s` by descending score; equal scores keep their order in `s`.
pub open spec fn rank(s: Seq<Hit>) -> Seq<Hit>
    decreases s.len(),
{
    if s.len() == 0 {
        Seq::empty()
    } else {
        insert_desc(rank(s.drop_last()), s.last())
    }
}

/// The first `limit` hits of `s`, or all of them when there are fewer.
pub open spec fn top(s: Seq<Hit>, limit: nat) -> Seq<Hit> {
    if limit < s.len() {
        s.take(limit as int)
    } else {
        s
    }
}

/// The hits ordered from the highest score down.
pub open spec fn sorted_desc(s: Seq<Hit>) -> bool {
    forall|i: int, j: int| 0 <= i < j < s.len() ==> s[i].score >= s[j].score
}

/// Holds of the hits whose score is `x`.
pub open spec fn score_is(x: u32) -> spec_fn(Hit) -> bool {
    |h: Hit| h.score == x
}

/// The hits of `s` whose score is `x`, in their order in `s`.
pub open spec fn with_score(s: Seq<Hit>, x: u32) -> Seq<Hit> {
    s.filter(score_is(x))
}

proof fn lemma_insert_desc_is_insert(s: Seq<Hit>, h: Hit)
    ensures
        insert_pos(s, h) <= s.len(),
        insert_desc(s, h) == s.insert(insert_pos(s, h) as int, h),
        forall|k: int| 0 <= k < insert_pos(s, h) ==> s[k].score >= h.score,
        insert_pos(s, h) < s.len() ==> s[insert_pos(s, h) as int].score < h.score,
    decreases s.len(),
{
    if s.len() > 0 && s[0].score >= h.score {
        lemma_insert_desc_is_insert(s.drop_first(), h);
        let p = insert_pos(s.drop_first(), h) as int;
        assert(insert_desc(s, h) =~= s.insert(p + 1, h));
        assert forall|k: int| 0 <= k < insert_pos(s, h) implies s[k].score >= h.score by {
            if k > 0 {
                assert(s[k] == s.drop_first()[k - 1]);
            }
        }
    } else if s.len() > 0 {
        assert(insert_desc(s, h) =~= s.insert(0, h));
    } else {
        assert(insert_desc(s, h) =~= s.insert(0, h));
    }
}

proof fn lemma_rank_push(s: Seq<Hit>, h: Hit)
    ensures
        rank(s.push(h)) == insert_desc(rank(s), h),
{
    assert(s.push(h).drop_last() =~= s);
}

proof fn lemma_concat_all_cons(first: Seq<Hit>, rest: Seq<Seq<Hit>>)
    ensures
        concat_all(seq![first] + rest) == first + concat_all(rest),
{
    assert((seq![first] + rest).drop_first() =~= rest);
}

proof fn lemma_rank(s: Seq<Hit>)
    ensures
        rank(s).len() == s.len(),
        rank(s).to_multiset() == s.to_multiset(),
        sorted_desc(rank(s)),
        forall|x: u32| #[trigger] with_score(rank(s), x) == with_score(s, x),
    decreases s.len(),
{
    if s.len() > 0 {
        let t = s.drop_last();
        let h = s.last();
        lemma_rank(t);
        let r = rank(t);
        lemma_insert_desc_is_insert(r, h);
        let p = insert_pos(r, h) as int;
        let q = r.insert(p, h);
        assert(s =~= t.push(h));
        assert(rank(s) == q);
        to_multiset_insert(r, p, h);
        to_multiset_build(t, h);
        assert(q.to_multiset() == r.to_multiset().insert(h));
        assert(s.to_multiset() == t.to_multiset().insert(h));
        assert forall|i: int, j: int| 0 <= i < j < q.len() implies q[i].score >= q[j].score by {
            if j < p {
            } else if j == p {
            } else if i < p {
                assert(q[j] == r[j - 1]);
                assert(r[p].score < h.score);
            } else if i == p {
                assert(q[j] == r[j - 1]);
                if j - 1 > p {
                    assert(r[p].score >= r[j - 1].score);
                }
            } else {
                assert(q[i] == r[i - 1]);
                assert(q[j] == r[j - 1]);
            }
        }
        assert forall|x: u32| #[trigger] with_score(rank(s), x) == with_score(s, x) by {
            let pred = score_is(x);
            let a = r.take(p);
            let b = r.skip(p);
            assert(q =~= a + seq![h] + b);
            assert(r =~= a + b);
            Seq::filter_distributes_over_add(a + seq![h], b, pred);
            Seq::filter_distributes_over_add(a, seq![h], pred);
            Seq::filter_distributes_over_add(a, b, pred);
            t.lemma_filter_push(h, pred);
            a.lemma_filter_push(h, pred);
            assert(a.push(h) =~= a + seq![h]);
            if h.score == x {
                assert forall|k: int| 0 <= k < b.len() implies !pred(b[k]) by {
                    assert(b[k] == r[p + k]);
                    if k > 0 {
                        assert(r[p].score >= r[p + k].score);
                    }
                }
                b.lemma_all_neg_filter_empty(pred);
                assert(b.filter(pred) =~= Seq::<Hit>::empty());
                assert(a.filter(pred) + b.filter(pred) =~= a.filter(pred));
                assert(a.filter(pred).push(h) + b.filter(pred) =~= a.filter(pred).push(h));
                assert(with_score(q, x) == with_score(r, x).push(h));
            } else {
                assert(a.filter(pred) + seq![h].filter(pred) =~= a.filter(pred)) by {
                    assert(seq![h].filter(pred) =~= Seq::<Hit>::empty()) by {
                        Seq::<Hit>::empty().lemma_filter_push(h, pred);
                        assert(Seq::<Hit>::empty().push(h) =~= seq![h]);
                    }
                }
                assert(with_score(q, x) == with_score(r, x));
            }
        }
    } else {
        assert(rank(s) =~= s);
    }
}

/// Merging never yields more hits than `limit`.
pub proof fn merge_within_limit(lists: Seq<Seq<Hit>>, limit: nat)
    ensures
        top(rank(concat_all(lists)), limit).len() <= limit,
        top(rank(concat_all(lists)), limit).len() == if concat_all(lists).len() < limit {
            concat_all(lists).len()
        } else {
            limit
        },
{
    lemma_rank(concat_all(lists));
}

/// Merging orders the hits from the highest score down.
pub proof fn merge_is_descending(lists: Seq<Seq<Hit>>, limit: nat)
    ensures
        sorted_desc(top(rank(concat_all(lists)), limit)),
{
    lemma_rank(concat_all(lists));
}

/// When the hits of all lists fit within `limit`, merging returns each of
/// them exactly as often as the lists hold it: no hit lost, none repeated.
pub proof fn merge_keeps_every_hit(lists: Seq<Seq<Hit>>, limit: nat)
    requires
        concat_all(lists).len() <= limit,
    ensures
        top(rank(concat_all(lists)), limit).to_multiset() == concat_all(lists).to_multiset(),
{
    lemma_rank(concat_all(lists));
}

/// Every hit that merging returns comes from the lists, and no hit comes
/// out more often than the lists hold it, whatever the limit.
pub proof fn merge_hits_come_from_input(lists: Seq<Seq<Hit>>, limit: nat)
    ensures
        top(rank(concat_all(lists)), limit).to_multiset().subset_of(
            concat_all(lists).to_multiset(),
        ),
        forall|i: int|
            0 <= i < top(rank(concat_all(lists)), limit).len() ==> concat_all(lists).contains(
                #[trigger] top(rank(concat_all(lists)), limit)[i],
            ),
{
    broadcast use vstd::multiset::group_multiset_axioms;

    let all = concat_all(lists);
    lemma_rank(all);
    let r = rank(all);
    let t = top(r, limit);
    if limit < r.len() {
        let k = limit as int;
        assert(r =~= r.take(k) + r.skip(k));
        lemma_multiset_commutative(r.take(k), r.skip(k));
    }
    assert(t.to_multiset().subset_of(all.to_multiset()));
    assert forall|i: int| 0 <= i < t.len() implies all.contains(#[trigger] t[i]) by {
        to_multiset_contains(t, t[i]);
        to_multiset_contains(all, t[i]);
    }
}

/// Hits of equal score come out in the order in which the lists gave them,
/// so a repeated merge of the same lists orders ties the same way: the hits
/// of any one score form a prefix of those hits in the input order.
pub proof fn merge_ties_keep_order(lists: Seq<Seq<Hit>>, limit: nat, x: u32)
    ensures
        with_score(top(rank(concat_all(lists)), limit), x).is_prefix_of(
            with_score(concat_all(lists), x),
        ),
{
    let all = concat_all(lists);
    lemma_rank(all);
    let r = rank(all);
    let pred = score_is(x);
    if limit < r.len() {
        let k = limit as int;
        assert(r =~= r.take(k) + r.skip(k));
        Seq::filter_distributes_over_add(r.take(k), r.skip(k), pred);
        assert(top(r, limit) == r.take(k));
    }
    assert(with_score(r, x) == with_score(all, x));
}

/// Inserts `h` into the descending vector `out` as `insert_desc` does.
fn insert_ranked(out: &mut Vec<Hit>, h: Hit)
    ensures
        final(out)@ == insert_desc(old(out)@, h),
{
    let ghost hv = h;
    proof {
        lemma_insert_desc_is_insert(old(out)@, h);
    }
    let mut i: usize = 0;
    while i < out.len() && out[i].score >= h.score
        invariant
            out@ == old(out)@,
            0 <= i <= insert_pos(out@, hv),
            insert_pos(out@, hv) <= out@.len(),
            forall|k: int| 0 <= k < insert_pos(out@, hv) ==> out@[k].score >= hv.score,
            insert_pos(out@, hv) < out@.len() ==> out@[insert_pos(out@, hv) as int].score
                < hv.score,
            h == hv,
        decreases out.len() - i,
    {
        i = i + 1;
    }
    out.insert(i, h);
}

/// Merges per-collection hit lists into one list: every hit of every list,
/// by descending score, equal scores in the order in which the lists and
/// their hits were given, cut to the first `limit` hits.
pub fn merge_results(lists: Vec<Vec<Hit>>, limit: usize) -> (r: Vec<Hit>)
    ensures
        r@ == top(rank(concat_all(lists_view(lists@))), limit as nat),
{
    let ghost all = concat_all(lists_view(lists@));
    let ghost mut done: Seq<Hit> = Seq::empty();
    let mut lists = lists;
    let mut out: Vec<Hit> = Vec::new();
    while lists.len() > 0
        invariant
            out@ == rank(done),
            done + concat_all(lists_view(lists@)) == all,
        decreases lists.len(),
    {
        let ghost before = lists@;
        let mut list = lists.remove(0);
        proof {
            assert(lists_view(before) =~= seq![list@] + lists_view(lists@));
            lemma_concat_all_cons(list@, lists_view(lists@));
            assert(done + list@ + concat_all(lists_view(lists@)) =~= all);
        }
        while list.len() > 0
            invariant
                out@ == rank(done),
                done + list@ + concat_all(lists_view(lists@)) == all,
            decreases list.len(),
        {
            let ghost lv = list@;
            let h = list.remove(0);
            proof {
                lemma_rank_push(done, h);
                assert(done.push(h) + list@ =~= done + lv);
                done = done.push(h);
            }
            insert_ranked(&mut out, h);
        }
        proof {
            assert(done + list@ =~= done);
        }
    }
    proof {
        assert(done + concat_all(lists_view(lists@)) =~= done);
    }
    out.truncate(limit);
    out
}

} // verus!

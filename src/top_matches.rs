use vstd::prelude::*;

verus! {

/// How many candidates a ranked frame shows.
pub const FRAME_SIZE: usize = 10;

/// Places `x` after every element of `t` whose score is at least its own.
/// On a sequence ranked by descending score this keeps the ranking, and puts
/// `x` behind the earlier elements that tie with it.
pub open spec fn insert_ranked(t: Seq<(i64, String)>, x: (i64, String)) -> Seq<(i64, String)>
    decreases t.len(),
{
    if t.len() == 0 {
        seq![x]
    } else if t[0].0 < x.0 {
        seq![x] + t
    } else {
        seq![t[0]] + insert_ranked(t.drop_first(), x)
    }
}

/// The stable sort of `s` by descending score.
pub open spec fn ranked(s: Seq<(i64, String)>) -> Seq<(i64, String)>
    decreases s.len(),
{
    if s.len() == 0 {
        s
    } else {
        insert_ranked(ranked(s.drop_last()), s.last())
    }
}

pub open spec fn is_ranked(s: Seq<(i64, String)>) -> bool {
    forall|i: int, j: int| 0 <= i < j < s.len() ==> s[i].0 >= s[j].0
}

pub open spec fn shown_count(n: nat) -> nat {
    if n < FRAME_SIZE {
        n
    } else {
        FRAME_SIZE as nat
    }
}

/// The display texts of the best-ranked candidates of `s`.
pub open spec fn frame_texts(s: Seq<(i64, String)>) -> Seq<String> {
    ranked(s).take(shown_count(s.len()) as int).map_values(|m: (i64, String)| m.1)
}

/// How many candidates of `s` are left out of its frame.
pub open spec fn frame_extra(s: Seq<(i64, String)>) -> nat {
    (s.len() - shown_count(s.len())) as nat
}

proof fn lemma_insert_ranked_len(t: Seq<(i64, String)>, x: (i64, String))
    ensures
        insert_ranked(t, x).len() == t.len() + 1,
    decreases t.len(),
{
    if t.len() > 0 && t[0].0 >= x.0 {
        lemma_insert_ranked_len(t.drop_first(), x);
    }
}

proof fn lemma_ranked_len(s: Seq<(i64, String)>)
    ensures
        ranked(s).len() == s.len(),
    decreases s.len(),
{
    if s.len() > 0 {
        lemma_ranked_len(s.drop_last());
        lemma_insert_ranked_len(ranked(s.drop_last()), s.last());
    }
}

/// Inserting at position `p`, where `p` is the first element that scores below `x`,
/// is the same as `insert_ranked`.
proof fn lemma_insert_ranked_at(t: Seq<(i64, String)>, x: (i64, String), p: int)
    requires
        0 <= p <= t.len(),
        forall|j: int| 0 <= j < p ==> t[j].0 >= x.0,
        p < t.len() ==> t[p].0 < x.0,
    ensures
        insert_ranked(t, x) == t.take(p) + seq![x] + t.skip(p),
    decreases t.len(),
{
    if t.len() == 0 {
        assert(t.take(p) + seq![x] + t.skip(p) =~= seq![x]);
    } else if p == 0 {
        assert(t.take(p) + seq![x] + t.skip(p) =~= seq![x] + t);
    } else {
        let r = t.drop_first();
        lemma_insert_ranked_at(r, x, p - 1);
        assert(t.take(p) + seq![x] + t.skip(p) =~= seq![t[0]] + (r.take(p - 1) + seq![x] + r.skip(
            p - 1,
        )));
    }
}

proof fn lemma_insert_keeps_ranked(t: Seq<(i64, String)>, x: (i64, String))
    requires
        is_ranked(t),
    ensures
        is_ranked(insert_ranked(t, x)),
        forall|k: int|
            0 <= k < insert_ranked(t, x).len() ==> #[trigger] insert_ranked(t, x)[k] == x
                || t.contains(insert_ranked(t, x)[k]),
    decreases t.len(),
{
    lemma_insert_ranked_len(t, x);
    if t.len() > 0 && t[0].0 >= x.0 {
        let r = t.drop_first();
        lemma_insert_keeps_ranked(r, x);
        lemma_insert_ranked_len(r, x);
        let ir = insert_ranked(r, x);
        assert forall|k: int| 0 < k < ir.len() + 1 implies t[0].0 >= #[trigger] (seq![t[0]]
            + ir)[k].0 by {
            assert(ir[k - 1] == x || r.contains(ir[k - 1]));
            if r.contains(ir[k - 1]) {
                let w = choose|w: int| 0 <= w < r.len() && r[w] == ir[k - 1];
                assert(r[w] == t[w + 1]);
            }
        }
        assert forall|k: int| 0 <= k < ir.len() + 1 implies #[trigger] (seq![t[0]] + ir)[k] == x
            || t.contains((seq![t[0]] + ir)[k]) by {
            if k == 0 {
                assert(t[0] == (seq![t[0]] + ir)[k]);
            } else if ir[k - 1] != x {
                let w = choose|w: int| 0 <= w < r.len() && r[w] == ir[k - 1];
                assert(t[w + 1] == (seq![t[0]] + ir)[k]);
            }
        }
    }
}

/// The ranking of a store is ordered by descending score.
pub proof fn lemma_ranked_is_ranked(s: Seq<(i64, String)>)
    ensures
        is_ranked(ranked(s)),
    decreases s.len(),
{
    if s.len() > 0 {
        lemma_ranked_is_ranked(s.drop_last());
        lemma_insert_keeps_ranked(ranked(s.drop_last()), s.last());
    }
}

pub open spec fn score_is(v: i64) -> spec_fn((i64, String)) -> bool {
    |m: (i64, String)| m.0 == v
}

proof fn lemma_insert_ranked_multiset(t: Seq<(i64, String)>, x: (i64, String))
    ensures
        insert_ranked(t, x).to_multiset() == t.to_multiset().insert(x),
    decreases t.len(),
{
    broadcast use vstd::seq_lib::group_to_multiset_ensures;

    if t.len() == 0 {
        assert(Seq::<(i64, String)>::empty().push(x) =~= seq![x]);
        assert(t =~= Seq::<(i64, String)>::empty());
    } else if t[0].0 < x.0 {
        vstd::seq_lib::lemma_multiset_commutative(seq![x], t);
        assert(Seq::<(i64, String)>::empty().push(x) =~= seq![x]);
        assert(seq![x].to_multiset() =~= Seq::<(i64, String)>::empty().to_multiset().insert(x));
    } else {
        let r = t.drop_first();
        lemma_insert_ranked_multiset(r, x);
        vstd::seq_lib::lemma_multiset_commutative(seq![t[0]], insert_ranked(r, x));
        vstd::seq_lib::lemma_multiset_commutative(seq![t[0]], r);
        assert(seq![t[0]] + r =~= t);
    }
}

/// The ranking of a store holds the same candidates, each as often as the store.
pub proof fn lemma_ranked_is_permutation(s: Seq<(i64, String)>)
    ensures
        ranked(s).to_multiset() == s.to_multiset(),
    decreases s.len(),
{
    broadcast use vstd::seq_lib::group_to_multiset_ensures;

    if s.len() > 0 {
        let d = s.drop_last();
        lemma_ranked_is_permutation(d);
        lemma_insert_ranked_multiset(ranked(d), s.last());
        assert(d.push(s.last()) =~= s);
    }
}

proof fn lemma_insert_ranked_ties(t: Seq<(i64, String)>, x: (i64, String), v: i64)
    requires
        is_ranked(t),
    ensures
        insert_ranked(t, x).filter(score_is(v)) == if x.0 == v {
            t.filter(score_is(v)).push(x)
        } else {
            t.filter(score_is(v))
        },
    decreases t.len(),
{
    broadcast use vstd::seq_lib::group_filter_ensures;

    reveal(Seq::filter);
    if t.len() == 0 {
        assert(seq![x].drop_last() =~= t);
        assert(t.filter(score_is(v)) =~= t);
    } else if t[0].0 < x.0 {
        let u = seq![x] + t;
        Seq::filter_distributes_over_add(seq![x], t, score_is(v));
        assert(seq![x].drop_last() =~= Seq::<(i64, String)>::empty());
        if x.0 == v {
            assert forall|j: int| 0 <= j < t.len() implies !score_is(v)(t[j]) by {
                assert(t[0].0 >= t[j].0 || j == 0);
            }
            t.lemma_all_neg_filter_empty(score_is(v));
            assert(u.filter(score_is(v)) =~= t.filter(score_is(v)).push(x));
        } else {
            let e = Seq::<(i64, String)>::empty();
            e.lemma_filter_push(x, score_is(v));
            assert(e.push(x) =~= seq![x]);
            assert(e.filter(score_is(v)) =~= e);
            assert(u.filter(score_is(v)) =~= t.filter(score_is(v)));
        }
    } else {
        let r = t.drop_first();
        assert(is_ranked(r));
        lemma_insert_ranked_ties(r, x, v);
        Seq::filter_distributes_over_add(seq![t[0]], insert_ranked(r, x), score_is(v));
        Seq::filter_distributes_over_add(seq![t[0]], r, score_is(v));
        assert(seq![t[0]] + r =~= t);
        assert(seq![t[0]].drop_last() =~= Seq::<(i64, String)>::empty());
        let f0 = seq![t[0]].filter(score_is(v));
        if x.0 == v {
            assert(f0 + r.filter(score_is(v)).push(x) =~= (f0 + r.filter(score_is(v))).push(x));
        }
    }
}

/// Ranking keeps tied candidates in store order: the candidates of any one
/// score come in the ranking in the order in which the store holds them.
pub proof fn lemma_ranked_keeps_tie_order(s: Seq<(i64, String)>, v: i64)
    ensures
        ranked(s).filter(score_is(v)) == s.filter(score_is(v)),
    decreases s.len(),
{
    broadcast use vstd::seq_lib::group_filter_ensures;

    if s.len() == 0 {
        reveal(Seq::filter);
        assert(s.filter(score_is(v)) =~= s);
    } else {
        let d = s.drop_last();
        lemma_ranked_keeps_tie_order(d, v);
        lemma_ranked_is_ranked(d);
        lemma_insert_ranked_ties(ranked(d), s.last(), v);
        assert(d.push(s.last()) =~= s);
        d.lemma_filter_push(s.last(), score_is(v));
    }
}

/// An element that scores no higher than all of `t` goes to its end.
proof fn lemma_insert_ranked_last(t: Seq<(i64, String)>, x: (i64, String))
    requires
        forall|j: int| 0 <= j < t.len() ==> t[j].0 >= x.0,
    ensures
        insert_ranked(t, x) == t.push(x),
{
    lemma_insert_ranked_at(t, x, t.len() as int);
    assert(t.take(t.len() as int) + seq![x] + t.skip(t.len() as int) =~= t.push(x));
}

/// Ranking a sequence that is already ranked leaves it as it is.
pub proof fn lemma_ranked_fixes_ranked(s: Seq<(i64, String)>)
    requires
        is_ranked(s),
    ensures
        ranked(s) == s,
    decreases s.len(),
{
    if s.len() > 0 {
        let d = s.drop_last();
        assert(is_ranked(d));
        lemma_ranked_fixes_ranked(d);
        lemma_insert_ranked_last(d, s.last());
        assert(d.push(s.last()) =~= s);
    }
}

/// Ranking is idempotent: ranking a store that is already ranked changes nothing,
/// and its frame is the frame of the store it came from.
pub proof fn lemma_frame_is_stable(s: Seq<(i64, String)>)
    ensures
        ranked(ranked(s)) == ranked(s),
        frame_texts(ranked(s)) == frame_texts(s),
        frame_extra(ranked(s)) == frame_extra(s),
{
    lemma_ranked_is_ranked(s);
    lemma_ranked_len(s);
    lemma_ranked_fixes_ranked(ranked(s));
}

/// The frame shows min(n, 10) candidates and counts the other n - min(n, 10).
pub proof fn lemma_frame_is_bounded(s: Seq<(i64, String)>)
    ensures
        frame_texts(s).len() == if s.len() < 10 { s.len() } else { 10 },
        frame_extra(s) + frame_texts(s).len() == s.len(),
        s.len() <= 10 ==> frame_extra(s) == 0,
{
    lemma_ranked_len(s);
}

/// Ranks `matches` by descending score, with ties kept in their order, and returns
/// the display texts of the first ten with the count of the others. The store
/// itself is left as it is.
pub fn get_top_matches(matches: &mut [(i64, String)]) -> (r: (Vec<String>, usize))
    ensures
        final(matches)@ == old(matches)@,
        r.0@ == frame_texts(old(matches)@),
        r.1 == frame_extra(old(matches)@),
        r.0@.len() == shown_count(old(matches)@.len()),
{
    let n = matches.len();
    let slice_index = if n < FRAME_SIZE {
        n
    } else {
        FRAME_SIZE
    };
    let extra_matches = n - slice_index;
    let ghost input = matches@;

    let mut sorted: Vec<(i64, String)> = Vec::new();
    let mut i: usize = 0;
    while i < n
        invariant
            n == input.len(),
            matches@ == input,
            i <= n,
            sorted@ == ranked(input.take(i as int)),
            sorted@.len() == i,
        decreases n - i,
    {
        let x = (matches[i].0, matches[i].1.clone());
        let mut p: usize = 0;
        while p < sorted.len() && sorted[p].0 >= x.0
            invariant
                p <= sorted@.len(),
                forall|j: int| 0 <= j < p ==> sorted@[j].0 >= x.0,
            decreases sorted@.len() - p,
        {
            p = p + 1;
        }
        proof {
            lemma_insert_ranked_at(sorted@, x, p as int);
            assert(input.take(i as int + 1).drop_last() =~= input.take(i as int));
            lemma_insert_ranked_len(sorted@, x);
        }
        sorted.insert(p, x);
        proof {
            assert(sorted@ =~= ranked(input.take(i as int + 1)));
        }
        i = i + 1;
    }
    proof {
        assert(input.take(n as int) =~= input);
    }
    let mut shown: Vec<String> = Vec::new();
    let mut k: usize = 0;
    while k < slice_index
        invariant
            slice_index <= sorted@.len(),
            k <= slice_index,
            shown@ =~= sorted@.take(k as int).map_values(|m: (i64, String)| m.1),
        decreases slice_index - k,
    {
        shown.push(sorted[k].1.clone());
        k = k + 1;
        proof {
            assert(sorted@.take(k as int).drop_last() =~= sorted@.take(k - 1));
        }
    }
    (shown, extra_matches)
}

} // verus!

//! Beam search over token sequences.
use vstd::prelude::*;

use crate::whisper_burn::transcribe::{BeamSearchToken, LogProb};

verus! {

/// A candidate transcription and its log probability.
#[derive(Debug, Clone)]
pub struct BeamNode<T: Clone> {
    pub seq: Vec<T>,
    pub log_prob: LogProb,
}

/// The mathematical value of a `BeamNode`.
pub ghost struct Beam {
    pub seq: Seq<BeamSearchToken>,
    pub log_prob: LogProb,
}

impl View for BeamNode<BeamSearchToken> {
    type V = Beam;

    open spec fn view(&self) -> Beam {
        Beam { seq: self.seq@, log_prob: self.log_prob }
    }
}

/// What the model proposes: for each beam its next tokens, each with the log probability of the
/// whole sequence that it would make.
pub type Continuations = Vec<Vec<(BeamSearchToken, LogProb)>>;

/// The values of a row of nodes.
pub open spec fn beams_of(nodes: Seq<BeamNode<BeamSearchToken>>) -> Seq<Beam> {
    nodes.map_values(|node: BeamNode<BeamSearchToken>| node@)
}

/// The ranks of a row of beams.
pub open spec fn ranks_of(beams: Seq<Beam>) -> Seq<i64> {
    beams.map_values(|beam: Beam| beam.log_prob.rank)
}

/// Whether place `i` of a row of scores is worse than place `j`: it scores less, or as much but
/// stands later.
pub open spec fn worse(scores: Seq<i64>, i: int, j: int) -> bool {
    scores[i] < scores[j] || scores[i] == scores[j] && i > j
}

/// Whether `picked` holds the `num` best places of a row of scores, the worst of them first.
pub open spec fn is_top(scores: Seq<i64>, picked: Seq<int>, num: int) -> bool {
    &&& picked.len() == if num < scores.len() {
        num
    } else {
        scores.len() as int
    }
    &&& forall|k: int| 0 <= k < picked.len() ==> 0 <= #[trigger] picked[k] < scores.len()
    &&& forall|k: int, l: int|
        #![trigger picked[k], picked[l]]
        0 <= k < l < picked.len() ==> worse(scores, picked[k], picked[l])
    &&& forall|i: int|
        #![trigger picked.contains(i)]
        0 <= i < scores.len() && !picked.contains(i) && picked.len() > 0 ==> worse(
            scores,
            i,
            picked[0],
        )
}

/// The best places of a row of scores are determined by the scores.
pub proof fn lemma_top_is_unique(scores: Seq<i64>, p: Seq<int>, q: Seq<int>, num: int)
    requires
        is_top(scores, p, num),
        is_top(scores, q, num),
    ensures
        p == q,
{
    lemma_top_agrees_above(scores, p, q, num, 0);
    assert(p =~= q);
}

proof fn lemma_top_agrees_above(
    scores: Seq<i64>,
    p: Seq<int>,
    q: Seq<int>,
    num: int,
    from: int,
)
    requires
        is_top(scores, p, num),
        is_top(scores, q, num),
        0 <= from <= p.len(),
    ensures
        forall|k: int| from <= k < p.len() ==> p[k] == q[k],
    decreases p.len() - from,
{
    if from < p.len() {
        lemma_top_agrees_above(scores, p, q, num, from + 1);
        if p[from] != q[from] {
            lemma_top_excludes(scores, p, q, num, from);
            lemma_top_excludes(scores, q, p, num, from);
        }
    }
}

proof fn lemma_top_excludes(scores: Seq<i64>, p: Seq<int>, q: Seq<int>, num: int, at: int)
    requires
        is_top(scores, p, num),
        is_top(scores, q, num),
        0 <= at < p.len(),
        forall|k: int| at < k < p.len() ==> p[k] == q[k],
    ensures
        !worse(scores, p[at], q[at]),
{
    let x = q[at];
    if p.contains(x) {
        let s = choose|s: int| 0 <= s < p.len() && p[s] == x;
        if s > at {
            assert(q[s] == x);
            assert(worse(scores, q[at], q[s]));
        } else if s < at {
            assert(worse(scores, p[s], p[at]));
        }
    } else {
        assert(x < scores.len());
        assert(worse(scores, x, p[0]));
        if at > 0 {
            assert(worse(scores, p[0], p[at]));
        }
    }
}

/// The integers of a row of places.
pub open spec fn places_of(places: Seq<usize>) -> Seq<int> {
    places.map_values(|place: usize| place as int)
}

/// Picks the places of the `num` best scores, the worst of them first. Of equal scores the earlier
/// one is the better.
pub fn _get_top_elements(scores: &[i64], num: usize) -> (picked: Vec<usize>)
    requires
        num > 0 || scores@.len() == 0,
    ensures
        is_top(scores@, places_of(picked@), num as int),
{
    let mut top: Vec<usize> = Vec::new();
    let mut i: usize = 0;
    while i < scores.len()
        invariant
            num > 0 || scores@.len() == 0,
            i <= scores@.len(),
            is_top(scores@.take(i as int), places_of(top@), num as int),
        decreases scores@.len() - i,
    {
        let score = scores[i];
        let ghost places = places_of(top@);
        assert(forall|k: int| 0 <= k < top@.len() ==> #[trigger] top@[k] == places[k]);
        if top.len() == num && score < scores[top[0]] {
            proof {
                lemma_top_after_skip(scores@, places, i as int, num as int);
            }
        } else {
            let mut idx: usize = 0;
            while idx < top.len() && scores[top[idx]] < score
                invariant
                    idx <= top@.len(),
                    forall|k: int| 0 <= k < top@.len() ==> #[trigger] top@[k] < scores@.len(),
                    forall|k: int| 0 <= k < idx ==> scores@[#[trigger] top@[k] as int] < score,
                decreases top@.len() - idx,
            {
                idx = idx + 1;
            }
            proof {
                lemma_top_with(scores@, places, i as int, idx as int, num as int);
            }
            top.insert(idx, i);
            assert(places_of(top@) =~= places.insert(idx as int, i as int));
            if top.len() > num {
                top.remove(0);
            }
            assert(places_of(top@) =~= top_with(places, i as int, idx as int, num as int));
        }
        i = i + 1;
    }
    assert(scores@.take(scores@.len() as int) =~= scores@);
    top
}

/// Whether a row of places is in order, the worst first.
spec fn in_order(scores: Seq<i64>, picked: Seq<int>) -> bool {
    forall|k: int, l: int|
        #![trigger picked[k], picked[l]]
        0 <= k < l < picked.len() ==> worse(scores, picked[k], picked[l])
}

proof fn lemma_insert_keeps_order(scores: Seq<i64>, top: Seq<int>, i: int, idx: int)
    requires
        0 <= i < scores.len(),
        0 <= idx <= top.len(),
        forall|k: int| 0 <= k < top.len() ==> 0 <= #[trigger] top[k] < i,
        forall|k: int, l: int|
            #![trigger top[k], top[l]]
            0 <= k < l < top.len() ==> worse(
                scores.take(i),
                top[k],
                top[l],
            ),
        forall|k: int| 0 <= k < idx ==> scores[#[trigger] top[k]] < scores[i],
        idx < top.len() ==> scores[i] <= scores[top[idx]],
    ensures
        in_order(scores, top.insert(idx, i)),
{
    let grown = top.insert(idx, i);
    assert forall|k: int, l: int|
        #![trigger grown[k], grown[l]]
        0 <= k < l < grown.len() implies worse(scores, grown[k], grown[l]) by {
        let k0 = if k < idx {
            k
        } else {
            k - 1
        };
        let l0 = if l < idx {
            l
        } else {
            l - 1
        };
        if k == idx {
            if l0 > idx {
                assert(worse(scores.take(i), top[idx], top[l0]));
            }
        } else if l == idx {
        } else {
            assert(worse(scores.take(i), top[k0], top[l0]));
        }
    }
}

proof fn lemma_top_after_grow(
    scores: Seq<i64>,
    top: Seq<int>,
    grown: Seq<int>,
    i: int,
    idx: int,
    num: int,
)
    requires
        0 <= i < scores.len(),
        0 <= idx <= top.len(),
        top.len() < num,
        is_top(scores.take(i), top, num),
        grown == top.insert(idx, i),
        in_order(scores, grown),
    ensures
        is_top(scores.take(i + 1), grown, num),
{
    let before = scores.take(i);
    let after = scores.take(i + 1);
    assert(top.len() == i);
    assert forall|k: int, l: int|
        #![trigger grown[k], grown[l]]
        0 <= k < l < grown.len() implies worse(after, grown[k], grown[l]) by {
        assert(worse(scores, grown[k], grown[l]));
    }
    assert forall|x: int|
        #![trigger grown.contains(x)]
        0 <= x < after.len() && !grown.contains(x) implies worse(after, x, grown[0]) by {
        if x == i {
            assert(grown[idx] == i);
        } else {
            if top.contains(x) {
                lemma_insert_contains(top, idx, i, x);
            }
            assert(worse(before, x, top[0]));
            lemma_all_places_picked(before, top, num, x);
        }
    }
}

proof fn lemma_insert_contains(top: Seq<int>, idx: int, i: int, x: int)
    requires
        0 <= idx <= top.len(),
        top.contains(x),
    ensures
        top.insert(idx, i).contains(x),
{
    let s = choose|s: int| 0 <= s < top.len() && top[s] == x;
    let grown = top.insert(idx, i);
    if s < idx {
        assert(grown[s] == x);
    } else {
        assert(grown[s + 1] == x);
    }
}

proof fn lemma_all_places_picked(scores: Seq<i64>, top: Seq<int>, num: int, x: int)
    requires
        is_top(scores, top, num),
        top.len() == scores.len(),
        0 <= x < scores.len(),
    ensures
        top.contains(x),
{
    assert(top.no_duplicates()) by {
        assert forall|k: int, l: int| 0 <= k < l < top.len() implies top[k] != top[l] by {
            assert(worse(scores, top[k], top[l]));
        }
    }
    let all = vstd::set_lib::set_int_range(0, scores.len() as int);
    vstd::set_lib::lemma_int_range(0, scores.len() as int);
    top.unique_seq_to_set();
    assert(top.to_set().subset_of(all)) by {
        assert forall|v: int| top.to_set().contains(v) implies all.contains(v) by {
            let s = choose|s: int| 0 <= s < top.len() && top[s] == v;
            assert(top[s] < scores.len());
        }
    }
    vstd::set_lib::lemma_subset_equality(top.to_set(), all);
    assert(top.to_set().contains(x));
}

proof fn lemma_top_after_drop(
    scores: Seq<i64>,
    top: Seq<int>,
    grown: Seq<int>,
    kept: Seq<int>,
    i: int,
    idx: int,
    num: int,
)
    requires
        0 <= i < scores.len(),
        0 <= idx <= top.len(),
        0 < num,
        top.len() == num,
        is_top(scores.take(i), top, num),
        grown == top.insert(idx, i),
        kept == grown.remove(0),
        in_order(scores, grown),
    ensures
        is_top(scores.take(i + 1), kept, num),
{
    let before = scores.take(i);
    let after = scores.take(i + 1);
    assert forall|k: int| 0 <= k < kept.len() implies kept[k] == grown[k + 1] by {}
    assert forall|k: int| 0 <= k < kept.len() implies 0 <= #[trigger] kept[k] < after.len() by {
        let s = k + 1;
        if s < idx {
            assert(grown[s] == top[s]);
        } else if s > idx {
            assert(grown[s] == top[s - 1]);
        }
    }
    assert forall|k: int, l: int|
        #![trigger kept[k], kept[l]]
        0 <= k < l < kept.len() implies worse(after, kept[k], kept[l]) by {
        assert(worse(scores, grown[k + 1], grown[l + 1]));
    }
    assert forall|x: int|
        #![trigger kept.contains(x)]
        0 <= x < after.len() && !kept.contains(x) implies worse(after, x, kept[0]) by {
        assert(worse(scores, grown[0], grown[1]));
        if x != grown[0] {
            if grown.contains(x) {
                let s = choose|s: int| 0 <= s < grown.len() && grown[s] == x;
                assert(kept[s - 1] == x);
            }
            if x == i {
                assert(grown[idx] == i);
            }
            if top.contains(x) {
                lemma_insert_contains(top, idx, i, x);
            }
            assert(worse(before, x, top[0]));
            if idx > 0 {
                assert(grown[0] == top[0]);
            } else {
                assert(grown[1] == top[0]);
            }
        }
    }
}

proof fn lemma_top_after_skip(scores: Seq<i64>, top: Seq<int>, i: int, num: int)
    requires
        0 <= i < scores.len(),
        0 < num,
        top.len() == num,
        is_top(scores.take(i), top, num),
        scores[i] < scores[top[0]],
    ensures
        is_top(scores.take(i + 1), top, num),
{
    let before = scores.take(i);
    let after = scores.take(i + 1);
    assert forall|x: int|
        #![trigger top.contains(x)]
        0 <= x < after.len() && !top.contains(x) implies worse(after, x, top[0]) by {
        if x < i {
            assert(worse(before, x, top[0]));
        }
    }
    assert forall|k: int, l: int|
        #![trigger top[k], top[l]]
        0 <= k < l < top.len() implies worse(after, top[k], top[l]) by {
        assert(worse(before, top[k], top[l]));
    }
}

/// The best places when one more score has come, which is better than the worst `idx` of the best
/// places so far and no better than the rest.
spec fn top_with(top: Seq<int>, i: int, idx: int, num: int) -> Seq<int> {
    let grown = top.insert(idx, i);
    if grown.len() > num {
        grown.remove(0)
    } else {
        grown
    }
}

proof fn lemma_top_with(scores: Seq<i64>, top: Seq<int>, i: int, idx: int, num: int)
    requires
        0 <= i < scores.len(),
        0 <= idx <= top.len(),
        0 < num,
        is_top(scores.take(i), top, num),
        forall|k: int| 0 <= k < idx ==> scores[#[trigger] top[k]] < scores[i],
        idx < top.len() ==> scores[i] <= scores[top[idx]],
    ensures
        is_top(scores.take(i + 1), top_with(top, i, idx, num), num),
{
    let grown = top.insert(idx, i);
    lemma_insert_keeps_order(scores, top, i, idx);
    if grown.len() > num {
        lemma_top_after_drop(scores, top, grown, grown.remove(0), i, idx, num);
    } else {
        lemma_top_after_grow(scores, top, grown, i, idx, num);
    }
}

/// Where one more score belongs among the best places so far, from place `from` on.
proof fn lemma_top_place(scores: Seq<i64>, top: Seq<int>, i: int, from: int) -> (idx: int)
    requires
        0 <= from <= top.len(),
        forall|k: int| 0 <= k < from ==> scores[#[trigger] top[k]] < scores[i],
    ensures
        from <= idx <= top.len(),
        forall|k: int| 0 <= k < idx ==> scores[#[trigger] top[k]] < scores[i],
        idx < top.len() ==> scores[i] <= scores[top[idx]],
    decreases top.len() - from,
{
    if from < top.len() && scores[top[from]] < scores[i] {
        lemma_top_place(scores, top, i, from + 1)
    } else {
        from
    }
}

/// Every row of scores has its best places.
pub proof fn lemma_top_exists(scores: Seq<i64>, num: int)
    requires
        num > 0,
    ensures
        is_top(scores, top_places(scores, num), num),
    decreases scores.len(),
{
    if scores.len() == 0 {
        assert(is_top(scores, Seq::<int>::empty(), num));
    } else {
        let i = scores.len() - 1;
        let front = scores.take(i);
        assert(front.len() < scores.len());
        lemma_top_exists(front, num);
        let top = top_places(front, num);
        let idx = lemma_top_place(scores, top, i, 0);
        lemma_top_with(scores, top, i, idx, num);
        assert(scores.take(i + 1) =~= scores);
        assert(is_top(scores, top_with(top, i, idx, num), num));
    }
}

/// The best places of a row of scores, the worst of them first.
pub open spec fn top_places(scores: Seq<i64>, num: int) -> Seq<int> {
    choose|picked: Seq<int>| is_top(scores, picked, num)
}

/// Whatever picks the best places picks `top_places`.
pub proof fn lemma_top_places(scores: Seq<i64>, picked: Seq<int>, num: int)
    requires
        is_top(scores, picked, num),
    ensures
        picked == top_places(scores, num),
{
    lemma_top_is_unique(scores, picked, top_places(scores, num), num);
}

/// The beams at some places of a row.
pub open spec fn pick(beams: Seq<Beam>, places: Seq<int>) -> Seq<Beam> {
    places.map_values(|place: int| beams[place])
}

/// The values of the model's proposals.
pub open spec fn conts_of(
    continuations: Seq<Vec<(BeamSearchToken, LogProb)>>,
) -> Seq<Seq<(BeamSearchToken, LogProb)>> {
    continuations.map_values(|conts: Vec<(BeamSearchToken, LogProb)>| conts@)
}

/// A beam with one more token.
pub open spec fn child(parent: Beam, cont: (BeamSearchToken, LogProb)) -> Beam {
    Beam { seq: parent.seq.push(cont.0), log_prob: cont.1 }
}

/// A beam with each of its proposed tokens.
pub open spec fn children_of(parent: Beam, conts: Seq<(BeamSearchToken, LogProb)>) -> Seq<Beam> {
    conts.map_values(|cont: (BeamSearchToken, LogProb)| child(parent, cont))
}

/// The first `n` beams with each of their proposed tokens.
pub open spec fn first_children(
    beams: Seq<Beam>,
    conts: Seq<Seq<(BeamSearchToken, LogProb)>>,
    n: int,
) -> Seq<Beam>
    decreases n,
{
    if n <= 0 {
        Seq::empty()
    } else {
        first_children(beams, conts, n - 1) + children_of(beams[n - 1], conts[n - 1])
    }
}

/// All beams with each of their proposed tokens, as far as there are proposals.
pub open spec fn children(
    beams: Seq<Beam>,
    conts: Seq<Seq<(BeamSearchToken, LogProb)>>,
) -> Seq<Beam> {
    first_children(
        beams,
        conts,
        if beams.len() < conts.len() {
            beams.len() as int
        } else {
            conts.len() as int
        },
    )
}

/// The ones of some beams that bear a mark.
pub open spec fn marked(beams: Seq<Beam>, marks: Seq<bool>, mark: bool) -> Seq<Beam>
    decreases beams.len(),
{
    if beams.len() == 0 {
        Seq::empty()
    } else {
        let front = marked(beams.drop_last(), marks, mark);
        if marks[beams.len() - 1] == mark {
            front.push(beams.last())
        } else {
            front
        }
    }
}

/// The complete ones of some beams.
pub open spec fn complete(beams: Seq<Beam>, marks: Seq<bool>) -> Seq<Beam> {
    marked(beams, marks, true)
}

/// The ones of some beams that can still grow.
pub open spec fn growing(beams: Seq<Beam>, marks: Seq<bool>) -> Seq<Beam> {
    marked(beams, marks, false)
}

/// What a function can answer when it is asked whether a token sequence is complete.
pub open spec fn answers_of<G: Fn(&[BeamSearchToken]) -> bool>(is_finished: G) -> spec_fn(
    Seq<BeamSearchToken>,
    bool,
) -> bool {
    |toks: Seq<BeamSearchToken>, done: bool|
        exists|given: &[BeamSearchToken]|
            given@ == toks && #[trigger] call_ensures(is_finished, (given,), done)
}

/// Whether each of some beams is marked as it may be: `done` tells whether a token sequence may be
/// called complete, or not complete.
pub open spec fn is_marking(
    done: spec_fn(Seq<BeamSearchToken>, bool) -> bool,
    beams: Seq<Beam>,
    marks: Seq<bool>,
) -> bool {
    &&& marks.len() == beams.len()
    &&& forall|i: int|
        #![trigger marks[i]]
        0 <= i < beams.len() ==> done(beams[i].seq, marks[i])
}

proof fn lemma_marked_push(beams: Seq<Beam>, marks: Seq<bool>, beam: Beam, own: bool, mark: bool)
    requires
        marks.len() == beams.len(),
    ensures
        marked(beams.push(beam), marks.push(own), mark) == (if own == mark {
            marked(beams, marks, mark).push(beam)
        } else {
            marked(beams, marks, mark)
        }),
{
    lemma_marked_by_first(beams, marks, own, mark);
    assert(beams.push(beam).drop_last() =~= beams);
}

proof fn lemma_marked_by_first(beams: Seq<Beam>, marks: Seq<bool>, more: bool, mark: bool)
    requires
        beams.len() <= marks.len(),
    ensures
        marked(beams, marks.push(more), mark) == marked(beams, marks, mark),
    decreases beams.len(),
{
    if beams.len() > 0 {
        lemma_marked_by_first(beams.drop_last(), marks, more, mark);
    }
}

/// Each of the beams that bear a mark is one of all the beams, with that mark.
proof fn lemma_marked_is(beams: Seq<Beam>, marks: Seq<bool>, mark: bool, k: int) -> (i: int)
    requires
        0 <= k < marked(beams, marks, mark).len(),
    ensures
        0 <= i < beams.len(),
        beams[i] == marked(beams, marks, mark)[k],
        marks[i] == mark,
    decreases beams.len(),
{
    let front = marked(beams.drop_last(), marks, mark);
    if k < front.len() {
        lemma_marked_is(beams.drop_last(), marks, mark, k)
    } else {
        beams.len() - 1
    }
}

/// The best ones of some beams, the worst of them first.
pub open spec fn best_of(beams: Seq<Beam>, num: int) -> Seq<Beam> {
    pick(beams, top_places(ranks_of(beams), num))
}

/// Copies a node.
fn copy_node(node: &BeamNode<BeamSearchToken>) -> (copy: BeamNode<BeamSearchToken>)
    ensures
        copy@ == node@,
{
    let copy = BeamNode { seq: node.seq.clone(), log_prob: node.log_prob };
    assert(copy.seq@ =~= node.seq@);
    copy
}

/// Lets each beam grow by each of the tokens proposed for it, and asks `is_finished` of each of
/// them whether it is complete now.
///
/// Gives back the `beam_size` best of the beams that can still grow, the worst of them first, and
/// all beams that are complete now.
pub fn beam_search_step<G: Fn(&[BeamSearchToken]) -> bool>(
    beams: &Vec<BeamNode<BeamSearchToken>>,
    continuations: &Continuations,
    is_finished: &G,
    beam_size: usize,
) -> (next: (Vec<BeamNode<BeamSearchToken>>, Vec<BeamNode<BeamSearchToken>>))
    requires
        forall|toks: &[BeamSearchToken]|
            toks@.len() > 0 ==> #[trigger] call_requires(*is_finished, (toks,)),
        beam_size > 0 || forall|marks: Seq<bool>| #[trigger]
            is_marking(
                answers_of(*is_finished),
                children(beams_of(beams@), conts_of(continuations@)),
                marks,
            ) ==> growing(children(beams_of(beams@), conts_of(continuations@)), marks).len() == 0,
    ensures
        exists|marks: Seq<bool>|
            {
                &&& #[trigger] is_marking(
                    answers_of(*is_finished),
                    children(beams_of(beams@), conts_of(continuations@)),
                    marks,
                )
                &&& beams_of(next.0@) == best_of(
                    growing(children(beams_of(beams@), conts_of(continuations@)), marks),
                    beam_size as int,
                )
                &&& beams_of(next.1@) == complete(
                    children(beams_of(beams@), conts_of(continuations@)),
                    marks,
                )
            },
{
    let ghost parents = beams_of(beams@);
    let ghost conts = conts_of(continuations@);
    let ghost done = answers_of(*is_finished);
    let ghost mut marks: Seq<bool> = Seq::empty();
    let mut candidates: Vec<BeamNode<BeamSearchToken>> = Vec::new();
    let mut newly_finished: Vec<BeamNode<BeamSearchToken>> = Vec::new();
    let mut scores: Vec<i64> = Vec::new();
    let pairs: usize = if beams.len() < continuations.len() {
        beams.len()
    } else {
        continuations.len()
    };
    proof {
        assert(beams_of(candidates@) =~= Seq::empty());
        assert(beams_of(newly_finished@) =~= Seq::empty());
        assert(ranks_of(Seq::<Beam>::empty()) =~= scores@);
    }
    let mut i: usize = 0;
    while i < pairs
        invariant
            i <= pairs <= beams@.len(),
            pairs <= continuations@.len(),
            parents == beams_of(beams@),
            conts == conts_of(continuations@),
            done == answers_of(*is_finished),
            forall|toks: &[BeamSearchToken]|
                toks@.len() > 0 ==> #[trigger] call_requires(*is_finished, (toks,)),
            is_marking(done, first_children(parents, conts, i as int), marks),
            beams_of(candidates@) == growing(first_children(parents, conts, i as int), marks),
            beams_of(newly_finished@) == complete(first_children(parents, conts, i as int), marks),
            scores@ == ranks_of(beams_of(candidates@)),
        decreases pairs - i,
    {
        let parent = &beams[i];
        let proposed = &continuations[i];
        let ghost earlier = first_children(parents, conts, i as int);
        let ghost own = children_of(parents[i as int], conts[i as int]);
        assert(earlier + own.take(0) =~= earlier);
        let mut j: usize = 0;
        while j < proposed.len()
            invariant
                i < beams@.len(),
                i < continuations@.len(),
                j <= proposed@.len(),
                parent == beams@[i as int],
                proposed == continuations@[i as int],
                parents == beams_of(beams@),
                conts == conts_of(continuations@),
                own == children_of(parents[i as int], conts[i as int]),
                done == answers_of(*is_finished),
                forall|toks: &[BeamSearchToken]|
                    toks@.len() > 0 ==> #[trigger] call_requires(*is_finished, (toks,)),
                is_marking(done, earlier + own.take(j as int), marks),
                beams_of(candidates@) == growing(earlier + own.take(j as int), marks),
                beams_of(newly_finished@) == complete(earlier + own.take(j as int), marks),
                scores@ == ranks_of(beams_of(candidates@)),
            decreases proposed@.len() - j,
        {
            let (tok, log_prob) = proposed[j];
            let mut new_node = copy_node(parent);
            new_node.seq.push(tok);
            new_node.log_prob = log_prob;
            let ghost grown = new_node@;
            let ghost sofar = earlier + own.take(j as int);
            let toks = new_node.seq.as_slice();
            let is_done = is_finished(toks);
            proof {
                assert(grown == own[j as int]) by {
                    assert(grown.seq =~= parents[i as int].seq.push(tok));
                }
                assert(earlier + own.take(j + 1) =~= sofar.push(grown));
                assert(done(toks@, is_done));
                lemma_marked_push(sofar, marks, grown, is_done, true);
                lemma_marked_push(sofar, marks, grown, is_done, false);
                lemma_marking_push(done, sofar, marks, grown, is_done);
                marks = marks.push(is_done);
            }
            let ghost old_candidates = beams_of(candidates@);
            let ghost old_finished = beams_of(newly_finished@);
            if is_done {
                newly_finished.push(new_node);
                assert(beams_of(newly_finished@) =~= old_finished.push(grown));
            } else {
                scores.push(log_prob.rank);
                candidates.push(new_node);
                assert(beams_of(candidates@) =~= old_candidates.push(grown));
                assert(scores@ =~= ranks_of(beams_of(candidates@)));
            }
            j = j + 1;
        }
        assert(own.take(own.len() as int) =~= own);
        i = i + 1;
    }
    assert(is_marking(done, children(parents, conts), marks));
    assert(scores@.len() == growing(children(parents, conts), marks).len());
    let top = _get_top_elements(scores.as_slice(), beam_size);
    proof {
        lemma_top_places(scores@, places_of(top@), beam_size as int);
    }
    let mut active: Vec<BeamNode<BeamSearchToken>> = Vec::new();
    let mut k: usize = 0;
    while k < top.len()
        invariant
            k <= top@.len(),
            k == active@.len(),
            is_top(scores@, places_of(top@), beam_size as int),
            scores@ == ranks_of(beams_of(candidates@)),
            forall|l: int|
                0 <= l < k ==> (#[trigger] active@[l])@ == beams_of(
                    candidates@,
                )[top@[l] as int],
        decreases top@.len() - k,
    {
        assert(places_of(top@)[k as int] == top@[k as int]);
        active.push(copy_node(&candidates[top[k]]));
        k = k + 1;
    }
    assert(beams_of(active@) =~= pick(beams_of(candidates@), places_of(top@)));
    (active, newly_finished)
}

proof fn lemma_marking_push(
    done: spec_fn(Seq<BeamSearchToken>, bool) -> bool,
    beams: Seq<Beam>,
    marks: Seq<bool>,
    beam: Beam,
    own: bool,
)
    requires
        is_marking(done, beams, marks),
        done(beam.seq, own),
    ensures
        is_marking(done, beams.push(beam), marks.push(own)),
{
    let (more, longer) = (beams.push(beam), marks.push(own));
    assert forall|i: int| #![trigger longer[i]] 0 <= i < more.len() implies done(
        more[i].seq,
        longer[i],
    ) by {
        if i < beams.len() {
            assert(longer[i] == marks[i]);
        }
    }
}

/// Whether place `i` holds the last one of the greatest scores.
pub open spec fn is_last_max(scores: Seq<i64>, i: int) -> bool {
    &&& 0 <= i < scores.len()
    &&& forall|j: int|
        0 <= j < scores.len() ==> (#[trigger] scores[j]) <= scores[i] && (j > i ==> scores[j]
            < scores[i])
}

/// The place of the last one of the greatest scores.
pub open spec fn last_max(scores: Seq<i64>) -> int {
    choose|i: int| is_last_max(scores, i)
}

/// The best one of some beams, the last of them where several are equally good.
pub open spec fn best_beam(beams: Seq<Beam>) -> Beam {
    beams[last_max(ranks_of(beams))]
}

/// The best complete beam so far, when some more beams have become complete. A later beam takes
/// the place only of a worse one.
pub open spec fn better(best: Option<Beam>, newly_finished: Seq<Beam>) -> Option<Beam> {
    if newly_finished.len() == 0 {
        best
    } else {
        let top = best_beam(newly_finished);
        match best {
            Some(current) if top.log_prob.rank <= current.log_prob.rank => best,
            _ => Some(top),
        }
    }
}

/// Where a search stands: the beams that can still grow, and the best complete beam so far.
pub ghost struct Search {
    pub active: Seq<Beam>,
    pub best: Option<Beam>,
}

/// One round of a search: the beams that the model was shown, what it proposed, and which of the
/// beams that this made were called complete.
pub ghost struct Exchange {
    pub shown: Vec<BeamNode<BeamSearchToken>>,
    pub proposed: Continuations,
    pub marks: Seq<bool>,
}

/// The beams that a round of a search makes.
pub open spec fn grown_by(search: Search, exchange: Exchange) -> Seq<Beam> {
    children(search.active, conts_of(exchange.proposed@))
}

/// What one round makes of a search.
pub open spec fn search_step(search: Search, exchange: Exchange, beam_size: usize) -> Search {
    let grown = grown_by(search, exchange);
    Search {
        active: best_of(growing(grown, exchange.marks), beam_size as int),
        best: better(search.best, complete(grown, exchange.marks)),
    }
}

/// Whether the best complete beam leads the best growing one by so much that the search ends.
pub open spec fn leads(search: Search) -> bool {
    match search.best {
        Some(best) => search.active.len() > 0 && best.log_prob.rank > best_beam(
            search.active,
        ).log_prob.margin_rank,
        None => false,
    }
}

/// The token sequence that a search has found: the best complete beam, or else the best growing
/// one, or else nothing.
pub open spec fn outcome(search: Search) -> Seq<BeamSearchToken> {
    match search.best {
        Some(best) => best.seq,
        None => if search.active.len() > 0 {
            best_beam(search.active).seq
        } else {
            Seq::empty()
        },
    }
}

/// Where a search stands after the first `n` of some rounds.
pub open spec fn search_after(
    initial: Seq<Beam>,
    trace: Seq<Exchange>,
    beam_size: usize,
    n: int,
) -> Search
    decreases n,
{
    if n <= 0 {
        Search { active: initial, best: None }
    } else {
        search_step(search_after(initial, trace, beam_size, n - 1), trace[n - 1], beam_size)
    }
}

/// Whether a round is one that a search can have where it stands: there are growing beams, the
/// model is shown them, and each beam that this makes is called complete, or not, as `done` allows.
pub open spec fn is_round<N: Fn(&Vec<BeamNode<BeamSearchToken>>) -> Continuations>(
    next: N,
    done: spec_fn(Seq<BeamSearchToken>, bool) -> bool,
    search: Search,
    exchange: Exchange,
) -> bool {
    &&& search.active.len() > 0
    &&& beams_of(exchange.shown@) == search.active
    &&& call_ensures(next, (&exchange.shown,), exchange.proposed)
    &&& is_marking(done, grown_by(search, exchange), exchange.marks)
}

/// Whether a search could go as some rounds say: each is one that it can have, and it went on only
/// while no complete beam led.
pub open spec fn is_search_so_far<N: Fn(&Vec<BeamNode<BeamSearchToken>>) -> Continuations>(
    next: N,
    done: spec_fn(Seq<BeamSearchToken>, bool) -> bool,
    initial: Seq<Beam>,
    trace: Seq<Exchange>,
    beam_size: usize,
) -> bool {
    forall|i: int|
        #![trigger trace[i]]
        0 <= i < trace.len() ==> {
            let before = search_after(initial, trace, beam_size, i);
            &&& is_round(next, done, before, trace[i])
            &&& i > 0 ==> !leads(before)
        }
}

/// Whether a search ends after some rounds: the depth is used up, no growing beam is left, or a
/// complete beam leads.
pub open spec fn search_ends(
    initial: Seq<Beam>,
    trace: Seq<Exchange>,
    beam_size: usize,
    max_depth: usize,
) -> bool {
    let last = search_after(initial, trace, beam_size, trace.len() as int);
    trace.len() == max_depth || last.active.len() == 0 || trace.len() > 0 && leads(last)
}

/// Whether some rounds are those of a whole search.
pub open spec fn is_search<N: Fn(&Vec<BeamNode<BeamSearchToken>>) -> Continuations>(
    next: N,
    done: spec_fn(Seq<BeamSearchToken>, bool) -> bool,
    initial: Seq<Beam>,
    trace: Seq<Exchange>,
    beam_size: usize,
    max_depth: usize,
) -> bool {
    &&& trace.len() <= max_depth
    &&& is_search_so_far(next, done, initial, trace, beam_size)
    &&& search_ends(initial, trace, beam_size, max_depth)
}

/// Whether some tokens are what a search can find.
pub open spec fn finds<N: Fn(&Vec<BeamNode<BeamSearchToken>>) -> Continuations>(
    next: N,
    done: spec_fn(Seq<BeamSearchToken>, bool) -> bool,
    initial: Seq<Beam>,
    beam_size: usize,
    max_depth: usize,
    tokens: Seq<BeamSearchToken>,
) -> bool {
    exists|trace: Seq<Exchange>|
        #[trigger] is_search(next, done, initial, trace, beam_size, max_depth) && tokens == outcome(
            search_after(initial, trace, beam_size, trace.len() as int),
        )
}

/// What a search can find, it can also find where more answers are allowed on which beams are
/// complete.
pub proof fn lemma_finds_more<N: Fn(&Vec<BeamNode<BeamSearchToken>>) -> Continuations>(
    next: N,
    done: spec_fn(Seq<BeamSearchToken>, bool) -> bool,
    allowed: spec_fn(Seq<BeamSearchToken>, bool) -> bool,
    initial: Seq<Beam>,
    beam_size: usize,
    max_depth: usize,
    tokens: Seq<BeamSearchToken>,
)
    requires
        finds(next, done, initial, beam_size, max_depth, tokens),
        forall|toks: Seq<BeamSearchToken>, mark: bool| #[trigger]
            done(toks, mark) ==> allowed(toks, mark),
    ensures
        finds(next, allowed, initial, beam_size, max_depth, tokens),
{
    let trace = choose|trace: Seq<Exchange>|
        #[trigger] is_search(next, done, initial, trace, beam_size, max_depth) && tokens == outcome(
            search_after(initial, trace, beam_size, trace.len() as int),
        );
    assert forall|i: int| #![trigger trace[i]] 0 <= i < trace.len() implies {
        let before = search_after(initial, trace, beam_size, i);
        &&& is_round(next, allowed, before, trace[i])
        &&& i > 0 ==> !leads(before)
    } by {
        let before = search_after(initial, trace, beam_size, i);
        assert(is_round(next, done, before, trace[i]));
        let (grown, marks) = (grown_by(before, trace[i]), trace[i].marks);
        assert forall|k: int| #![trigger marks[k]] 0 <= k < grown.len() implies allowed(
            grown[k].seq,
            marks[k],
        ) by {
            assert(done(grown[k].seq, marks[k]));
        }
    }
    assert(is_search(next, allowed, initial, trace, beam_size, max_depth));
}

/// The last one of the greatest scores has only one place.
pub proof fn lemma_last_max(scores: Seq<i64>, i: int)
    requires
        is_last_max(scores, i),
    ensures
        i == last_max(scores),
{
    let j = last_max(scores);
    assert(scores[i] <= scores[j]);
    assert(scores[j] <= scores[i]);
}

/// Finds the place of the best node, the last one where several are equally good.
fn find_best(nodes: &Vec<BeamNode<BeamSearchToken>>) -> (place: usize)
    requires
        nodes@.len() > 0,
    ensures
        place == last_max(ranks_of(beams_of(nodes@))),
        place < nodes@.len(),
{
    let ghost ranks = ranks_of(beams_of(nodes@));
    let mut place: usize = 0;
    let mut i: usize = 1;
    while i < nodes.len()
        invariant
            ranks == ranks_of(beams_of(nodes@)),
            1 <= i <= nodes@.len(),
            is_last_max(ranks.take(i as int), place as int),
        decreases nodes@.len() - i,
    {
        let ghost sofar = ranks.take(i as int);
        let ghost more = ranks.take(i + 1);
        assert(more =~= sofar.push(ranks[i as int]));
        assert(forall|j: int| 0 <= j < i ==> more[j] == #[trigger] sofar[j]);
        if nodes[i].log_prob.rank >= nodes[place].log_prob.rank {
            place = i;
        }
        i = i + 1;
    }
    assert(ranks.take(ranks.len() as int) =~= ranks);
    proof {
        lemma_last_max(ranks, place as int);
    }
    place
}

/// The value of a node that may be there.
pub open spec fn view_of(best: Option<BeamNode<BeamSearchToken>>) -> Option<Beam> {
    match best {
        Some(node) => Some(node@),
        None => None,
    }
}

/// Keeps the better one of the best complete beam so far and the best new one.
fn keep_better(
    best: Option<BeamNode<BeamSearchToken>>,
    newly_finished: &Vec<BeamNode<BeamSearchToken>>,
) -> (kept: Option<BeamNode<BeamSearchToken>>)
    ensures
        view_of(kept) == better(view_of(best), beams_of(newly_finished@)),
{
    if newly_finished.len() == 0 {
        return best;
    }
    let top = &newly_finished[find_best(newly_finished)];
    match best {
        Some(current) => if top.log_prob.rank > current.log_prob.rank {
            Some(copy_node(top))
        } else {
            Some(current)
        },
        None => Some(copy_node(top)),
    }
}

/// Decides whether the best complete beam leads the growing ones by far.
fn is_leading(
    active: &Vec<BeamNode<BeamSearchToken>>,
    best: &Option<BeamNode<BeamSearchToken>>,
) -> (leading: bool)
    ensures
        leading == leads(Search { active: beams_of(active@), best: view_of(*best) }),
{
    match best {
        Some(finished_node) => active.len() > 0 && finished_node.log_prob.rank
            > active[find_best(active)].log_prob.margin_rank,
        None => false,
    }
}

proof fn lemma_search_after_extends(
    initial: Seq<Beam>,
    trace: Seq<Exchange>,
    exchange: Exchange,
    beam_size: usize,
    n: int,
)
    requires
        n <= trace.len(),
    ensures
        search_after(initial, trace.push(exchange), beam_size, n) == search_after(
            initial,
            trace,
            beam_size,
            n,
        ),
    decreases n,
{
    if n > 0 {
        lemma_search_after_extends(initial, trace, exchange, beam_size, n - 1);
        assert(trace.push(exchange)[n - 1] == trace[n - 1]);
    }
}

proof fn lemma_search_goes_on<N: Fn(&Vec<BeamNode<BeamSearchToken>>) -> Continuations>(
    next: N,
    done: spec_fn(Seq<BeamSearchToken>, bool) -> bool,
    initial: Seq<Beam>,
    trace: Seq<Exchange>,
    exchange: Exchange,
    beam_size: usize,
)
    requires
        is_search_so_far(next, done, initial, trace, beam_size),
        ({
            let now = search_after(initial, trace, beam_size, trace.len() as int);
            &&& is_round(next, done, now, exchange)
            &&& trace.len() > 0 ==> !leads(now)
        }),
    ensures
        is_search_so_far(next, done, initial, trace.push(exchange), beam_size),
        search_after(initial, trace.push(exchange), beam_size, (trace.len() + 1) as int)
            == search_step(
            search_after(initial, trace, beam_size, trace.len() as int),
            exchange,
            beam_size,
        ),
{
    let longer = trace.push(exchange);
    assert forall|i: int| #![trigger longer[i]] 0 <= i < longer.len() implies {
        let before = search_after(initial, longer, beam_size, i);
        &&& is_round(next, done, before, longer[i])
        &&& i > 0 ==> !leads(before)
    } by {
        lemma_search_after_extends(initial, trace, exchange, beam_size, i);
        if i < trace.len() {
            assert(longer[i] == trace[i]);
        }
    }
    lemma_search_after_extends(initial, trace, exchange, beam_size, trace.len() as int);
}

/// Whether no beam can go on after the first round of a search, whatever the model proposes: each
/// beam that this makes is complete, or there is none.
pub open spec fn none_grows<N: Fn(&Vec<BeamNode<BeamSearchToken>>) -> Continuations>(
    next: N,
    done: spec_fn(Seq<BeamSearchToken>, bool) -> bool,
    initial: Seq<Beam>,
) -> bool {
    forall|exchange: Exchange| #[trigger]
        is_round(next, done, Search { active: initial, best: None }, exchange) ==> growing(
            grown_by(Search { active: initial, best: None }, exchange),
            exchange.marks,
        ).len() == 0
}

proof fn lemma_none_grows<N: Fn(&Vec<BeamNode<BeamSearchToken>>) -> Continuations>(
    next: N,
    done: spec_fn(Seq<BeamSearchToken>, bool) -> bool,
    initial: Seq<Beam>,
    shown: Vec<BeamNode<BeamSearchToken>>,
    proposed: Continuations,
)
    requires
        none_grows(next, done, initial),
        beams_of(shown@) == initial,
        initial.len() > 0,
        call_ensures(next, (&shown,), proposed),
    ensures
        forall|marks: Seq<bool>| #[trigger]
            is_marking(done, children(initial, conts_of(proposed@)), marks) ==> growing(
                children(initial, conts_of(proposed@)),
                marks,
            ).len() == 0,
{
    let grown = children(initial, conts_of(proposed@));
    assert forall|marks: Seq<bool>| #[trigger] is_marking(done, grown, marks) implies growing(
        grown,
        marks,
    ).len() == 0 by {
        let exchange = Exchange { shown, proposed, marks };
        assert(is_round(next, done, Search { active: initial, best: None }, exchange));
    }
}

proof fn lemma_best_of_none(beams: Seq<Beam>, num: int)
    requires
        beams.len() == 0,
        num >= 0,
    ensures
        best_of(beams, num).len() == 0,
{
    assert(is_top(ranks_of(beams), Seq::<int>::empty(), num));
}

/// Searches for the best transcription.
///
/// `next` is the model: given the beams that can still grow, it proposes tokens for each.
/// `is_finished` tells whether a beam is complete. At most `max_depth` times the beams grow by one
/// token each, and the `beam_size` best of those that are not complete go on. The search ends early
/// when none is left, or when the best complete one leads the others by far. The answer is the best
/// complete beam, or else the best of the rest. Where `beam_size` is zero, no beam may be left to
/// go on.
pub fn beam_search<
    N: Fn(&Vec<BeamNode<BeamSearchToken>>) -> Continuations,
    G: Fn(&[BeamSearchToken]) -> bool,
>(
    initial_beams: Vec<BeamNode<BeamSearchToken>>,
    next: N,
    is_finished: G,
    beam_size: usize,
    max_depth: usize,
) -> (tokens: Vec<BeamSearchToken>)
    requires
        beam_size > 0 || max_depth == 0 || initial_beams@.len() == 0 || none_grows(
            next,
            answers_of(is_finished),
            beams_of(initial_beams@),
        ),
        forall|beams: &Vec<BeamNode<BeamSearchToken>>|
            beams@.len() > 0 ==> #[trigger] call_requires(next, (beams,)),
        forall|toks: &[BeamSearchToken]|
            toks@.len() > 0 ==> #[trigger] call_requires(is_finished, (toks,)),
    ensures
        finds(
            next,
            answers_of(is_finished),
            beams_of(initial_beams@),
            beam_size,
            max_depth,
            tokens@,
        ),
{
    let ghost initial = beams_of(initial_beams@);
    let ghost done = answers_of(is_finished);
    let ghost mut trace: Seq<Exchange> = Seq::empty();
    let mut active = initial_beams;
    let mut best: Option<BeamNode<BeamSearchToken>> = None;
    let mut depth: usize = 0;
    while depth < max_depth
        invariant_except_break
            depth > 0 ==> !leads(search_after(initial, trace, beam_size, depth as int)),
        invariant
            beam_size > 0 || max_depth == 0 || initial.len() == 0 || none_grows(
                next,
                done,
                initial,
            ),
            beam_size == 0 && depth > 0 ==> active@.len() == 0,
            forall|beams: &Vec<BeamNode<BeamSearchToken>>|
                beams@.len() > 0 ==> #[trigger] call_requires(next, (beams,)),
            forall|toks: &[BeamSearchToken]|
                toks@.len() > 0 ==> #[trigger] call_requires(is_finished, (toks,)),
            done == answers_of(is_finished),
            depth <= max_depth,
            trace.len() == depth,
            search_after(initial, trace, beam_size, depth as int) == (Search {
                active: beams_of(active@),
                best: view_of(best),
            }),
            is_search_so_far(next, done, initial, trace, beam_size),
        ensures
            is_search(next, done, initial, trace, beam_size, max_depth),
        decreases max_depth - depth,
    {
        if active.len() == 0 {
            break;
        }
        let continuations = next(&active);
        proof {
            if beam_size == 0 {
                lemma_none_grows(next, done, initial, active, continuations);
            }
        }
        let (next_active, newly_finished) = beam_search_step(
            &active,
            &continuations,
            &is_finished,
            beam_size,
        );
        proof {
            let grown = children(beams_of(active@), conts_of(continuations@));
            let marks = choose|marks: Seq<bool>|
                {
                    &&& #[trigger] is_marking(done, grown, marks)
                    &&& beams_of(next_active@) == best_of(growing(grown, marks), beam_size as int)
                    &&& beams_of(newly_finished@) == complete(grown, marks)
                };
            let exchange = Exchange { shown: active, proposed: continuations, marks };
            lemma_search_goes_on(next, done, initial, trace, exchange, beam_size);
            if beam_size == 0 {
                lemma_best_of_none(growing(grown, marks), 0);
            }
            trace = trace.push(exchange);
        }
        best = keep_better(best, &newly_finished);
        active = next_active;
        depth = depth + 1;
        if is_leading(&active, &best) {
            break;
        }
    }
    match best {
        Some(node) => node.seq,
        None => if active.len() > 0 {
            let place = find_best(&active);
            copy_node(&active[place]).seq
        } else {
            Vec::new()
        },
    }
}

/// Where there are scores, one of them is the last one of the greatest.
pub proof fn lemma_last_max_exists(scores: Seq<i64>)
    requires
        scores.len() > 0,
    ensures
        is_last_max(scores, last_max(scores)),
    decreases scores.len(),
{
    let last = scores.len() - 1;
    if scores.len() == 1 {
        assert(is_last_max(scores, 0));
    } else {
        let front = scores.drop_last();
        lemma_last_max_exists(front);
        let at = last_max(front);
        assert(forall|j: int| 0 <= j < last ==> front[j] == #[trigger] scores[j]);
        if scores[last] >= front[at] {
            assert(is_last_max(scores, last));
        } else {
            assert(is_last_max(scores, at));
        }
    }
}

proof fn lemma_best_of(beams: Seq<Beam>, num: int)
    requires
        num > 0,
    ensures
        best_of(beams, num).len() <= num,
        forall|i: int|
            0 <= i < best_of(beams, num).len() ==> beams.contains(#[trigger] best_of(beams, num)[i]),
{
    let scores = ranks_of(beams);
    lemma_top_exists(scores, num);
    let places = top_places(scores, num);
    assert forall|i: int| 0 <= i < best_of(beams, num).len() implies beams.contains(
        #[trigger] best_of(beams, num)[i],
    ) by {
        assert(0 <= places[i] < scores.len());
        assert(best_of(beams, num)[i] == beams[places[i]]);
    }
}

proof fn lemma_children_grow(
    beams: Seq<Beam>,
    conts: Seq<Seq<(BeamSearchToken, LogProb)>>,
    n: int,
    len: int,
)
    requires
        n <= beams.len(),
        n <= conts.len(),
        forall|i: int| 0 <= i < beams.len() ==> (#[trigger] beams[i]).seq.len() == len,
    ensures
        forall|i: int|
            0 <= i < first_children(beams, conts, n).len() ==> (#[trigger] first_children(
                beams,
                conts,
                n,
            )[i]).seq.len() == len + 1,
    decreases n,
{
    if n > 0 {
        lemma_children_grow(beams, conts, n - 1, len);
        let earlier = first_children(beams, conts, n - 1);
        let own = children_of(beams[n - 1], conts[n - 1]);
        let all = first_children(beams, conts, n);
        assert forall|i: int| 0 <= i < all.len() implies (#[trigger] all[i]).seq.len() == len
            + 1 by {
            if i < earlier.len() {
                assert(all[i] == earlier[i]);
            } else {
                assert(all[i] == own[i - earlier.len()]);
                assert(beams[n - 1].seq.len() == len);
            }
        }
    }
}

/// After each round at most as many beams go on as the search is wide, none of them was called
/// complete, and each is longer than the beams it started from by one token a round.
pub proof fn law_active_beams<N: Fn(&Vec<BeamNode<BeamSearchToken>>) -> Continuations>(
    next: N,
    done: spec_fn(Seq<BeamSearchToken>, bool) -> bool,
    initial: Seq<Beam>,
    trace: Seq<Exchange>,
    beam_size: usize,
    n: int,
    len: int,
)
    requires
        is_search_so_far(next, done, initial, trace, beam_size),
        beam_size > 0,
        0 <= n <= trace.len(),
        forall|i: int| 0 <= i < initial.len() ==> (#[trigger] initial[i]).seq.len() == len,
    ensures
        ({
            let active = search_after(initial, trace, beam_size, n).active;
            &&& n > 0 ==> active.len() <= beam_size
            &&& forall|i: int|
                0 <= i < active.len() ==> (#[trigger] active[i]).seq.len() == len + n && (n > 0
                    ==> done(active[i].seq, false))
        }),
    decreases n,
{
    if n > 0 {
        law_active_beams(next, done, initial, trace, beam_size, n - 1, len);
        let before = search_after(initial, trace, beam_size, n - 1);
        let exchange = trace[n - 1];
        let conts = conts_of(exchange.proposed@);
        let pairs = if before.active.len() < conts.len() {
            before.active.len() as int
        } else {
            conts.len() as int
        };
        lemma_children_grow(before.active, conts, pairs, len + n - 1);
        let grown = grown_by(before, exchange);
        let open = growing(grown, exchange.marks);
        lemma_best_of(open, beam_size as int);
        let active = search_after(initial, trace, beam_size, n).active;
        assert(active == best_of(open, beam_size as int));
        assert(is_round(next, done, before, exchange));
        assert forall|i: int| 0 <= i < active.len() implies (#[trigger] active[i]).seq.len() == len
            + n && done(active[i].seq, false) by {
            assert(open.contains(active[i]));
            let k = choose|k: int| 0 <= k < open.len() && open[k] == active[i];
            let at = lemma_marked_is(grown, exchange.marks, false, k);
            assert(done(grown[at].seq, exchange.marks[at]));
        }
    }
}

/// The best complete beam of a search is one that was called complete in some round, and none of
/// those is better.
pub proof fn law_best_complete_beam<N: Fn(&Vec<BeamNode<BeamSearchToken>>) -> Continuations>(
    next: N,
    done: spec_fn(Seq<BeamSearchToken>, bool) -> bool,
    initial: Seq<Beam>,
    trace: Seq<Exchange>,
    beam_size: usize,
    n: int,
)
    requires
        is_search_so_far(next, done, initial, trace, beam_size),
        0 <= n <= trace.len(),
    ensures
        ({
            let best = search_after(initial, trace, beam_size, n).best;
            &&& best is Some ==> done(best.unwrap().seq, true) && exists|i: int|
                0 <= i < n && (#[trigger] newly_complete(initial, trace, beam_size, i)).contains(
                    best.unwrap(),
                )
            &&& forall|i: int, beam: Beam|
                0 <= i < n && (#[trigger] newly_complete(initial, trace, beam_size, i).contains(
                    beam,
                )) ==> best is Some && beam.log_prob.rank <= best.unwrap().log_prob.rank
        }),
    decreases n,
{
    if n > 0 {
        law_best_complete_beam(next, done, initial, trace, beam_size, n - 1);
        let newly = newly_complete(initial, trace, beam_size, n - 1);
        let before = search_after(initial, trace, beam_size, n - 1);
        let best = search_after(initial, trace, beam_size, n).best;
        let exchange = trace[n - 1];
        assert(best == better(before.best, newly));
        assert(is_round(next, done, before, exchange));
        if newly.len() > 0 {
            let ranks = ranks_of(newly);
            lemma_last_max_exists(ranks);
            let top = best_beam(newly);
            let grown = grown_by(before, exchange);
            assert(newly[last_max(ranks)] == top);
            assert(newly.contains(top));
            let at = lemma_marked_is(grown, exchange.marks, true, last_max(ranks));
            assert(done(grown[at].seq, exchange.marks[at]));
            assert forall|beam: Beam| newly.contains(beam) implies beam.log_prob.rank
                <= top.log_prob.rank by {
                let at = choose|at: int| 0 <= at < newly.len() && newly[at] == beam;
                assert(ranks[at] <= ranks[last_max(ranks)]);
            }
        }
    }
}

/// The beams that are called complete in the round after the first `n`.
pub open spec fn newly_complete(
    initial: Seq<Beam>,
    trace: Seq<Exchange>,
    beam_size: usize,
    n: int,
) -> Seq<Beam> {
    complete(grown_by(search_after(initial, trace, beam_size, n), trace[n]), trace[n].marks)
}

/// A search that has gone through some rounds finds the best of the beams that were called complete
/// in any of them, also where a beam that can still grow is better. Where there are none, it finds
/// the best of the beams that can still grow, and where there are none of those either, nothing.
pub proof fn law_outcome<N: Fn(&Vec<BeamNode<BeamSearchToken>>) -> Continuations>(
    next: N,
    done: spec_fn(Seq<BeamSearchToken>, bool) -> bool,
    initial: Seq<Beam>,
    trace: Seq<Exchange>,
    beam_size: usize,
)
    requires
        is_search_so_far(next, done, initial, trace, beam_size),
    ensures
        ({
            let end = search_after(initial, trace, beam_size, trace.len() as int);
            if exists|i: int, beam: Beam|
                0 <= i < trace.len() && #[trigger] newly_complete(
                    initial,
                    trace,
                    beam_size,
                    i,
                ).contains(beam) {
                &&& end.best is Some
                &&& outcome(end) == end.best.unwrap().seq
                &&& exists|i: int|
                    0 <= i < trace.len() && (#[trigger] newly_complete(
                        initial,
                        trace,
                        beam_size,
                        i,
                    )).contains(end.best.unwrap())
                &&& forall|i: int, beam: Beam|
                    0 <= i < trace.len() && (#[trigger] newly_complete(
                        initial,
                        trace,
                        beam_size,
                        i,
                    ).contains(beam)) ==> beam.log_prob.rank <= end.best.unwrap().log_prob.rank
            } else if end.active.len() > 0 {
                &&& outcome(end) == best_beam(end.active).seq
                &&& end.active.contains(best_beam(end.active))
                &&& forall|i: int|
                    0 <= i < end.active.len() ==> (#[trigger] end.active[i]).log_prob.rank
                        <= best_beam(end.active).log_prob.rank
            } else {
                outcome(end).len() == 0
            }
        }),
{
    let end = search_after(initial, trace, beam_size, trace.len() as int);
    law_best_complete_beam(next, done, initial, trace, beam_size, trace.len() as int);
    if end.active.len() > 0 {
        let ranks = ranks_of(end.active);
        lemma_last_max_exists(ranks);
        let at = last_max(ranks);
        assert(end.active[at] == best_beam(end.active));
        assert forall|i: int| 0 <= i < end.active.len() implies (
        #[trigger] end.active[i]).log_prob.rank <= best_beam(end.active).log_prob.rank by {
            assert(ranks[i] <= ranks[at]);
        }
    }
}

/// A search that begins without beams finds nothing, however wide it is.
pub proof fn law_no_beams<N: Fn(&Vec<BeamNode<BeamSearchToken>>) -> Continuations>(
    next: N,
    done: spec_fn(Seq<BeamSearchToken>, bool) -> bool,
    initial: Seq<Beam>,
    beam_size: usize,
    max_depth: usize,
    tokens: Seq<BeamSearchToken>,
)
    requires
        initial.len() == 0,
        finds(next, done, initial, beam_size, max_depth, tokens),
    ensures
        tokens.len() == 0,
{
    let trace = choose|trace: Seq<Exchange>|
        #[trigger] is_search(next, done, initial, trace, beam_size, max_depth) && tokens == outcome(
            search_after(initial, trace, beam_size, trace.len() as int),
        );
    if trace.len() > 0 {
        assert(is_round(next, done, search_after(initial, trace, beam_size, 0), trace[0]));
    }
}

/// A search that may not go on at all finds the best one of the beams it was given, the last of
/// them where several are equally good, and nothing where it was given none.
pub proof fn law_no_depth<N: Fn(&Vec<BeamNode<BeamSearchToken>>) -> Continuations>(
    next: N,
    done: spec_fn(Seq<BeamSearchToken>, bool) -> bool,
    initial: Seq<Beam>,
    beam_size: usize,
    tokens: Seq<BeamSearchToken>,
)
    requires
        finds(next, done, initial, beam_size, 0, tokens),
    ensures
        initial.len() > 0 ==> tokens == best_beam(initial).seq,
        initial.len() == 0 ==> tokens.len() == 0,
{
}

/// The places that are picked are different ones, as many as asked for or as there are, the worst
/// first. None that is left out scores more than any that is picked, and where it scores as much,
/// it stands later.
pub proof fn law_top_is_best(scores: Seq<i64>, picked: Seq<int>, num: int, k: int, i: int)
    requires
        is_top(scores, picked, num),
        num > 0,
        0 <= k < picked.len(),
        0 <= i < scores.len(),
    ensures
        picked.len() == num || picked.len() == scores.len() && scores.len() <= num,
        picked.no_duplicates(),
        0 <= picked[k] < scores.len(),
        k > 0 ==> scores[picked[k - 1]] <= scores[picked[k]],
        !picked.contains(i) ==> scores[i] <= scores[picked[k]] && (scores[i] == scores[picked[k]]
            ==> picked[k] < i),
{
    assert forall|a: int, b: int| 0 <= a < picked.len() && 0 <= b < picked.len() && a
        != b implies picked[a] != picked[b] by {
        if a < b {
            assert(worse(scores, picked[a], picked[b]));
        } else {
            assert(worse(scores, picked[b], picked[a]));
        }
    }
    if k > 0 {
        assert(worse(scores, picked[k - 1], picked[k]));
        assert(worse(scores, picked[0], picked[k]));
    }
    if !picked.contains(i) {
        assert(worse(scores, i, picked[0]));
    }
}

/// A child of a beam for each token that is proposed for it: the same tokens and then that one,
/// with the log probability that was proposed. Each child comes from one of the proposals.
pub proof fn law_children_extend(beams: Seq<Beam>, conts: Seq<Seq<(BeamSearchToken, LogProb)>>)
    ensures
        forall|i: int, j: int|
            0 <= i < beams.len() && 0 <= i < conts.len() && 0 <= j < conts[i].len() ==> children(
                beams,
                conts,
            ).contains(
                Beam { seq: beams[i].seq.push((#[trigger] conts[i][j]).0), log_prob: conts[i][j].1 },
            ),
        forall|k: int|
            0 <= k < children(beams, conts).len() ==> comes_from(
                beams,
                conts,
                #[trigger] children(beams, conts)[k],
            ),
{
    let n = if beams.len() < conts.len() {
        beams.len() as int
    } else {
        conts.len() as int
    };
    lemma_children(beams, conts, n);
}

/// Whether a beam is one of some beams with one of the tokens that are proposed for it.
pub open spec fn comes_from(
    beams: Seq<Beam>,
    conts: Seq<Seq<(BeamSearchToken, LogProb)>>,
    grown: Beam,
) -> bool {
    exists|i: int, j: int|
        0 <= i < beams.len() && 0 <= i < conts.len() && 0 <= j < conts[i].len() && grown.seq
            == beams[i].seq.push((#[trigger] conts[i][j]).0) && grown.log_prob == conts[i][j].1
}

proof fn lemma_children(beams: Seq<Beam>, conts: Seq<Seq<(BeamSearchToken, LogProb)>>, n: int)
    requires
        0 <= n <= beams.len(),
        n <= conts.len(),
    ensures
        forall|i: int, j: int|
            0 <= i < n && 0 <= j < conts[i].len() ==> first_children(beams, conts, n).contains(
                Beam { seq: beams[i].seq.push((#[trigger] conts[i][j]).0), log_prob: conts[i][j].1 },
            ),
        forall|k: int|
            0 <= k < first_children(beams, conts, n).len() ==> comes_from(
                beams,
                conts,
                #[trigger] first_children(beams, conts, n)[k],
            ),
    decreases n,
{
    if n > 0 {
        lemma_children(beams, conts, n - 1);
        let earlier = first_children(beams, conts, n - 1);
        let own = children_of(beams[n - 1], conts[n - 1]);
        let all = first_children(beams, conts, n);
        assert forall|i: int, j: int| 0 <= i < n && 0 <= j < conts[i].len() implies all.contains(
            Beam { seq: beams[i].seq.push((#[trigger] conts[i][j]).0), log_prob: conts[i][j].1 },
        ) by {
            let grown = Beam { seq: beams[i].seq.push(conts[i][j].0), log_prob: conts[i][j].1 };
            if i == n - 1 {
                assert(own[j] == grown);
                assert(all[earlier.len() + j] == grown);
            } else {
                assert(earlier.contains(grown));
                let k = choose|k: int| 0 <= k < earlier.len() && earlier[k] == grown;
                assert(all[k] == grown);
            }
        }
        assert forall|k: int| 0 <= k < all.len() implies comes_from(
            beams,
            conts,
            #[trigger] all[k],
        ) by {
            if k < earlier.len() {
                assert(all[k] == earlier[k]);
            } else {
                let j = k - earlier.len();
                assert(all[k] == own[j]);
                let cont = conts[n - 1][j];
                assert(all[k].seq == beams[n - 1].seq.push(cont.0));
            }
        }
    }
}

/// The beams that a search sorts out are exactly those that bear the mark: each of them is one of
/// the beams with that mark, and each beam with that mark is one of them.
pub proof fn law_marks_sort(beams: Seq<Beam>, marks: Seq<bool>, beam: Beam)
    requires
        marks.len() == beams.len(),
    ensures
        complete(beams, marks).contains(beam) <==> exists|i: int|
            0 <= i < beams.len() && #[trigger] beams[i] == beam && marks[i],
        growing(beams, marks).contains(beam) <==> exists|i: int|
            0 <= i < beams.len() && #[trigger] beams[i] == beam && !marks[i],
        complete(beams, marks).len() + growing(beams, marks).len() == beams.len(),
{
    lemma_marked_all(beams, marks, beam, true);
    lemma_marked_all(beams, marks, beam, false);
    lemma_marked_count(beams, marks);
}

proof fn lemma_marked_count(beams: Seq<Beam>, marks: Seq<bool>)
    requires
        beams.len() <= marks.len(),
    ensures
        marked(beams, marks, true).len() + marked(beams, marks, false).len() == beams.len(),
    decreases beams.len(),
{
    if beams.len() > 0 {
        lemma_marked_count(beams.drop_last(), marks);
    }
}

proof fn lemma_marked_all(beams: Seq<Beam>, marks: Seq<bool>, beam: Beam, mark: bool)
    requires
        beams.len() <= marks.len(),
    ensures
        marked(beams, marks, mark).contains(beam) <==> exists|i: int|
            0 <= i < beams.len() && #[trigger] beams[i] == beam && marks[i] == mark,
    decreases beams.len(),
{
    if beams.len() > 0 {
        let last = beams.len() - 1;
        let fewer = beams.drop_last();
        let front = marked(fewer, marks, mark);
        let all = marked(beams, marks, mark);
        lemma_marked_all(fewer, marks, beam, mark);
        if all.contains(beam) {
            let k = choose|k: int| 0 <= k < all.len() && all[k] == beam;
            let i = lemma_marked_is(beams, marks, mark, k);
            assert(beams[i] == beam);
        }
        if exists|i: int| 0 <= i < beams.len() && #[trigger] beams[i] == beam && marks[i] == mark {
            let i = choose|i: int|
                0 <= i < beams.len() && #[trigger] beams[i] == beam && marks[i] == mark;
            if i == last {
                assert(all[front.len() as int] == beam);
            } else {
                assert(fewer[i] == beam);
                assert(front.contains(beam));
                let k = choose|k: int| 0 <= k < front.len() && front[k] == beam;
                assert(all[k] == beam);
            }
        }
    }
}

/// A round of a search lets go on the best of the beams that it made and that are not complete: as
/// many as the search is wide, or all of them. None that is left behind is better than one that
/// goes on. The ones that are complete do not go on, and the search remembers the best of those and
/// of the ones before.
pub proof fn law_round(search: Search, exchange: Exchange, beam_size: usize, i: int, k: int)
    requires
        beam_size > 0,
        exchange.marks.len() == grown_by(search, exchange).len(),
        0 <= i < grown_by(search, exchange).len(),
        0 <= k < search_step(search, exchange, beam_size).active.len(),
    ensures
        ({
            let grown = grown_by(search, exchange);
            let after = search_step(search, exchange, beam_size);
            &&& after.active.len() <= beam_size
            &&& exists|j: int|
                0 <= j < grown.len() && #[trigger] grown[j] == after.active[k] && !exchange.marks[j]
            &&& !exchange.marks[i] && !after.active.contains(grown[i]) ==> after.active.len()
                == beam_size && grown[i].log_prob.rank <= after.active[k].log_prob.rank
            &&& k > 0 ==> after.active[k - 1].log_prob.rank <= after.active[k].log_prob.rank
        }),
{
    let grown = grown_by(search, exchange);
    let open = growing(grown, exchange.marks);
    let scores = ranks_of(open);
    let places = top_places(scores, beam_size as int);
    let active = search_step(search, exchange, beam_size).active;
    lemma_top_exists(scores, beam_size as int);
    law_top_is_best(scores, places, beam_size as int, k, places[k]);
    assert(active[k] == open[places[k]]);
    assert(open.contains(active[k]));
    law_marks_sort(grown, exchange.marks, active[k]);
    if !exchange.marks[i] && !active.contains(grown[i]) {
        law_marks_sort(grown, exchange.marks, grown[i]);
        let at = choose|at: int| 0 <= at < open.len() && open[at] == grown[i];
        if places.contains(at) {
            let l = choose|l: int| 0 <= l < places.len() && places[l] == at;
            assert(active[l] == open[at]);
        }
        if places.len() == scores.len() {
            lemma_all_places_picked(scores, places, beam_size as int, at);
        }
        law_top_is_best(scores, places, beam_size as int, k, at);
    }
}

/// A round of a search remembers a complete beam once there is one, and none is better: not the one
/// it remembered before, and none that the round made. It is one of them, and the one it remembered
/// before gives way only to a better one.
pub proof fn law_best_is_remembered(search: Search, exchange: Exchange, beam_size: usize, i: int)
    requires
        exchange.marks.len() == grown_by(search, exchange).len(),
        0 <= i < grown_by(search, exchange).len(),
    ensures
        ({
            let grown = grown_by(search, exchange);
            let best = search_step(search, exchange, beam_size).best;
            &&& exchange.marks[i] ==> best is Some && best.unwrap().log_prob.rank
                >= grown[i].log_prob.rank
            &&& search.best is Some ==> best is Some && best.unwrap().log_prob.rank
                >= search.best.unwrap().log_prob.rank
            &&& best is Some && best != search.best ==> exists|j: int|
                0 <= j < grown.len() && #[trigger] grown[j] == best.unwrap() && exchange.marks[j]
            &&& search.best is Some && best != search.best ==> best.unwrap().log_prob.rank
                > search.best.unwrap().log_prob.rank
            &&& best != search.best ==> best == Some(best_beam(complete(grown, exchange.marks)))
        }),
{
    let grown = grown_by(search, exchange);
    let newly = complete(grown, exchange.marks);
    law_marks_sort(grown, exchange.marks, grown[i]);
    if newly.len() > 0 {
        let ranks = ranks_of(newly);
        lemma_last_max_exists(ranks);
        let at = last_max(ranks);
        assert(newly[at] == best_beam(newly));
        assert(newly.contains(best_beam(newly)));
        law_marks_sort(grown, exchange.marks, best_beam(newly));
        if exchange.marks[i] {
            let l = choose|l: int| 0 <= l < newly.len() && newly[l] == grown[i];
            assert(ranks[l] <= ranks[at]);
        }
    }
}

/// The best one of some beams is one of them that no other outranks, and those after it rank lower.
pub proof fn law_best_beam(beams: Seq<Beam>)
    requires
        beams.len() > 0,
    ensures
        exists|i: int|
            #![trigger beams[i]]
            0 <= i < beams.len() && best_beam(beams) == beams[i] && forall|j: int|
                #![trigger beams[j]]
                0 <= j < beams.len() ==> beams[j].log_prob.rank <= beams[i].log_prob.rank && (j > i
                    ==> beams[j].log_prob.rank < beams[i].log_prob.rank),
{
    let ranks = ranks_of(beams);
    lemma_last_max_exists(ranks);
    let at = last_max(ranks);
    assert(beams[at] == best_beam(beams));
    assert forall|j: int| #![trigger beams[j]] 0 <= j < beams.len() implies beams[j].log_prob.rank
        <= beams[at].log_prob.rank && (j > at ==> beams[j].log_prob.rank
        < beams[at].log_prob.rank) by {
        assert(ranks[j] == beams[j].log_prob.rank);
    }
}

/// A complete beam ends the search early exactly when beams can still grow and it is ahead of the
/// best of them with the lead added.
pub proof fn law_lead_ends_search(search: Search, i: int)
    requires
        0 <= i < search.active.len(),
        forall|j: int|
            0 <= j < search.active.len() && j != i ==> (#[trigger] search.active[j]).log_prob.rank
                < search.active[i].log_prob.rank,
    ensures
        leads(search) <==> search.best is Some && search.best.unwrap().log_prob.rank
            > search.active[i].log_prob.margin_rank,
        !leads(Search { active: Seq::empty(), best: search.best }),
{
    law_best_beam(search.active);
}

/// A whole search stops before it has used up its depth only when no beam can grow any more, or
/// when a complete beam leads. A search in which no beam was complete and some can still grow has
/// used it up.
pub proof fn law_search_is_thorough<N: Fn(&Vec<BeamNode<BeamSearchToken>>) -> Continuations>(
    next: N,
    done: spec_fn(Seq<BeamSearchToken>, bool) -> bool,
    initial: Seq<Beam>,
    trace: Seq<Exchange>,
    beam_size: usize,
    max_depth: usize,
)
    requires
        is_search(next, done, initial, trace, beam_size, max_depth),
    ensures
        ({
            let end = search_after(initial, trace, beam_size, trace.len() as int);
            &&& trace.len() <= max_depth
            &&& end.active.len() > 0 && end.best is None ==> trace.len() == max_depth
            &&& trace.len() < max_depth ==> end.active.len() == 0 || end.best is Some && exists|i: int|
                0 <= i < end.active.len() && end.best.unwrap().log_prob.rank > (
                #[trigger] end.active[i]).log_prob.margin_rank
        }),
{
    let end = search_after(initial, trace, beam_size, trace.len() as int);
    if end.active.len() > 0 {
        let ranks = ranks_of(end.active);
        lemma_last_max_exists(ranks);
        assert(end.active[last_max(ranks)] == best_beam(end.active));
    }
}

/// Whether a token sequence begins with the tokens of one of some beams, and holds `more` tokens
/// after them.
pub open spec fn continues(toks: Seq<BeamSearchToken>, initial: Seq<Beam>, more: int) -> bool {
    exists|i: int|
        0 <= i < initial.len() && toks.len() == (#[trigger] initial[i]).seq.len() + more && toks.take(
            initial[i].seq.len() as int,
        ) == initial[i].seq
}

proof fn lemma_growth(initial: Seq<Beam>, trace: Seq<Exchange>, beam_size: usize, n: int)
    requires
        0 <= n <= trace.len(),
        beam_size > 0,
        forall|i: int|
            0 <= i < n ==> (#[trigger] trace[i]).marks.len() == grown_by(
                search_after(initial, trace, beam_size, i),
                trace[i],
            ).len(),
    ensures
        forall|k: int|
            #![trigger search_after(initial, trace, beam_size, n).active[k]]
            0 <= k < search_after(initial, trace, beam_size, n).active.len() ==> continues(
                search_after(initial, trace, beam_size, n).active[k].seq,
                initial,
                n,
            ),
        search_after(initial, trace, beam_size, n).best is Some ==> exists|more: int|
            0 < more <= n && #[trigger] continues(
                search_after(initial, trace, beam_size, n).best.unwrap().seq,
                initial,
                more,
            ),
    decreases n,
{
    let now = search_after(initial, trace, beam_size, n);
    if n > 0 {
        lemma_growth(initial, trace, beam_size, n - 1);
        let before = search_after(initial, trace, beam_size, n - 1);
        let exchange = trace[n - 1];
        let conts = conts_of(exchange.proposed@);
        let grown = grown_by(before, exchange);
        law_children_extend(before.active, conts);
        assert forall|k: int| 0 <= k < grown.len() implies continues(
            (#[trigger] grown[k]).seq,
            initial,
            n,
        ) by {
            assert(comes_from(before.active, conts, grown[k]));
            let (i, j) = choose|i: int, j: int|
                0 <= i < before.active.len() && 0 <= i < conts.len() && 0 <= j < conts[i].len()
                    && grown[k].seq == before.active[i].seq.push((#[trigger] conts[i][j]).0)
                    && grown[k].log_prob == conts[i][j].1;
            let parent = before.active[i].seq;
            assert(continues(parent, initial, n - 1));
            let root = choose|r: int|
                0 <= r < initial.len() && parent.len() == (#[trigger] initial[r]).seq.len() + (n - 1)
                    && parent.take(initial[r].seq.len() as int) == initial[r].seq;
            assert(grown[k].seq.take(initial[root].seq.len() as int) =~= parent.take(
                initial[root].seq.len() as int,
            ));
        }
        assert forall|k: int|
            #![trigger now.active[k]]
            0 <= k < now.active.len() implies continues(now.active[k].seq, initial, n) by {
            if grown.len() == 0 {
                lemma_best_of(growing(grown, exchange.marks), beam_size as int);
                law_marks_sort(grown, exchange.marks, now.active[k]);
            } else {
                law_round(before, exchange, beam_size, 0, k);
            }
        }
        if now.best is Some && now.best != before.best {
            if grown.len() > 0 {
                law_best_is_remembered(before, exchange, beam_size, 0);
            } else {
                law_marks_sort(grown, exchange.marks, now.best.unwrap());
            }
            assert(continues(now.best.unwrap().seq, initial, n));
        } else if now.best is Some {
            let more = choose|more: int|
                0 < more <= n - 1 && #[trigger] continues(before.best.unwrap().seq, initial, more);
            assert(continues(now.best.unwrap().seq, initial, more));
        }
    } else {
        assert forall|k: int|
            #![trigger now.active[k]]
            0 <= k < now.active.len() implies continues(now.active[k].seq, initial, n) by {
            assert(initial[k].seq.take(initial[k].seq.len() as int) =~= initial[k].seq);
        }
    }
}

/// What a search finds continues one of the beams that it started from, by at most as many tokens
/// as it may go deep. Where it finds fewer tokens than that, the search called them complete, or
/// found nothing.
pub proof fn law_finds_continuation<N: Fn(&Vec<BeamNode<BeamSearchToken>>) -> Continuations>(
    next: N,
    done: spec_fn(Seq<BeamSearchToken>, bool) -> bool,
    initial: Seq<Beam>,
    beam_size: usize,
    max_depth: usize,
    tokens: Seq<BeamSearchToken>,
)
    requires
        beam_size > 0,
        finds(next, done, initial, beam_size, max_depth, tokens),
    ensures
        tokens.len() == 0 || exists|more: int|
            0 <= more <= max_depth && #[trigger] continues(tokens, initial, more),
        tokens.len() == 0 || continues(tokens, initial, max_depth as int) || done(tokens, true),
{
    let trace = choose|trace: Seq<Exchange>|
        #[trigger] is_search(next, done, initial, trace, beam_size, max_depth) && tokens == outcome(
            search_after(initial, trace, beam_size, trace.len() as int),
        );
    let n = trace.len() as int;
    let end = search_after(initial, trace, beam_size, n);
    assert forall|i: int| 0 <= i < n implies (#[trigger] trace[i]).marks.len() == grown_by(
        search_after(initial, trace, beam_size, i),
        trace[i],
    ).len() by {
        assert(is_round(next, done, search_after(initial, trace, beam_size, i), trace[i]));
    }
    lemma_growth(initial, trace, beam_size, n);
    law_search_is_thorough(next, done, initial, trace, beam_size, max_depth);
    law_best_complete_beam(next, done, initial, trace, beam_size, n);
    if end.best is None && end.active.len() > 0 {
        let ranks = ranks_of(end.active);
        lemma_last_max_exists(ranks);
        assert(end.active[last_max(ranks)] == best_beam(end.active));
        assert(continues(tokens, initial, n));
    }
}

/// In each round the model is shown just the beams that can still grow, there is at least one, and
/// what it says to them is what they grow by; each beam that this makes is called complete, or not,
/// as is allowed. A round after the first is gone through only while no complete beam leads.
pub proof fn law_rounds_go_on<N: Fn(&Vec<BeamNode<BeamSearchToken>>) -> Continuations>(
    next: N,
    done: spec_fn(Seq<BeamSearchToken>, bool) -> bool,
    initial: Seq<Beam>,
    trace: Seq<Exchange>,
    beam_size: usize,
    i: int,
)
    requires
        is_search_so_far(next, done, initial, trace, beam_size),
        0 <= i < trace.len(),
    ensures
        ({
            let before = search_after(initial, trace, beam_size, i);
            let grown = grown_by(before, trace[i]);
            &&& before.active.len() > 0
            &&& trace[i].shown@.len() == before.active.len()
            &&& forall|k: int|
                0 <= k < before.active.len() ==> (#[trigger] before.active[k]) == trace[i].shown@[k]@
            &&& call_ensures(next, (&trace[i].shown,), trace[i].proposed)
            &&& forall|k: int|
                0 <= k < grown.len() ==> done((#[trigger] grown[k]).seq, trace[i].marks[k])
            &&& i > 0 ==> !leads(before)
        }),
        search_after(initial, trace, beam_size, 0).active == initial,
        search_after(initial, trace, beam_size, 0).best is None,
{
    let before = search_after(initial, trace, beam_size, i);
    let grown = grown_by(before, trace[i]);
    assert(is_round(next, done, before, trace[i]));
    assert forall|k: int| 0 <= k < before.active.len() implies (#[trigger] before.active[k])
        == trace[i].shown@[k]@ by {
        assert(beams_of(trace[i].shown@)[k] == trace[i].shown@[k]@);
    }
    assert forall|k: int| 0 <= k < grown.len() implies done(
        (#[trigger] grown[k]).seq,
        trace[i].marks[k],
    ) by {}
}

/// How many tokens are proposed for the first `n` beams.
pub open spec fn proposals_before(conts: Seq<Seq<(BeamSearchToken, LogProb)>>, n: int) -> nat
    decreases n,
{
    if n <= 0 {
        0
    } else {
        proposals_before(conts, n - 1) + conts[n - 1].len()
    }
}

/// The children stand in the order of their parents, and those of one parent in the order of its
/// proposals.
pub proof fn law_children_keep_order(
    beams: Seq<Beam>,
    conts: Seq<Seq<(BeamSearchToken, LogProb)>>,
    i: int,
    j: int,
)
    requires
        beams.len() == conts.len(),
        0 <= i < conts.len(),
        0 <= j < conts[i].len(),
    ensures
        ({
            let at = proposals_before(conts, i) + j;
            let all = children(beams, conts);
            &&& all.len() == proposals_before(conts, conts.len() as int)
            &&& 0 <= at < all.len()
            &&& all[at].seq == beams[i].seq.push(conts[i][j].0)
            &&& all[at].log_prob == conts[i][j].1
        }),
{
    lemma_children_order(beams, conts, conts.len() as int, i, j);
}

proof fn lemma_children_order(
    beams: Seq<Beam>,
    conts: Seq<Seq<(BeamSearchToken, LogProb)>>,
    n: int,
    i: int,
    j: int,
)
    requires
        0 <= i < n,
        n <= beams.len(),
        n <= conts.len(),
        0 <= j < conts[i].len(),
    ensures
        ({
            let at = proposals_before(conts, i) + j;
            let all = first_children(beams, conts, n);
            &&& all.len() == proposals_before(conts, n)
            &&& at < all.len()
            &&& all[at] == child(beams[i], conts[i][j])
        }),
    decreases n,
{
    lemma_children_len(beams, conts, n);
    lemma_children_len(beams, conts, n - 1);
    let at = proposals_before(conts, i) + j;
    let earlier = first_children(beams, conts, n - 1);
    let own = children_of(beams[n - 1], conts[n - 1]);
    let all = first_children(beams, conts, n);
    if i == n - 1 {
        assert(all[at] == own[j]);
    } else {
        lemma_children_order(beams, conts, n - 1, i, j);
        assert(all[at] == earlier[at]);
    }
}

proof fn lemma_children_len(beams: Seq<Beam>, conts: Seq<Seq<(BeamSearchToken, LogProb)>>, n: int)
    ensures
        first_children(beams, conts, n).len() == proposals_before(conts, n),
    decreases n,
{
    if n > 0 {
        lemma_children_len(beams, conts, n - 1);
    }
}

/// The beams that are complete, and those that can still grow, stand in the order in which they were
/// made.
pub proof fn law_marks_keep_order(beams: Seq<Beam>, marks: Seq<bool>)
    requires
        marks.len() == beams.len(),
    ensures
        complete(beams, marks) == Seq::new(beams.len(), |i: int| i).filter(
            |i: int| marks[i],
        ).map_values(|i: int| beams[i]),
        growing(beams, marks) == Seq::new(beams.len(), |i: int| i).filter(
            |i: int| !marks[i],
        ).map_values(|i: int| beams[i]),
{
    lemma_marked_order(beams, marks, true, |i: int| marks[i]);
    lemma_marked_order(beams, marks, false, |i: int| !marks[i]);
}

proof fn lemma_marked_order(
    beams: Seq<Beam>,
    marks: Seq<bool>,
    mark: bool,
    bears: spec_fn(int) -> bool,
)
    requires
        beams.len() <= marks.len(),
        forall|i: int| 0 <= i < beams.len() ==> bears(i) == (#[trigger] marks[i] == mark),
    ensures
        marked(beams, marks, mark) == Seq::new(beams.len(), |i: int| i).filter(bears).map_values(
            |i: int| beams[i],
        ),
    decreases beams.len(),
{
    reveal(Seq::filter);
    let all = Seq::new(beams.len(), |i: int| i);
    let place = |i: int| beams[i];
    if beams.len() > 0 {
        let last = beams.len() - 1;
        let front = beams.drop_last();
        let fewer = Seq::new(front.len(), |i: int| i);
        lemma_marked_order(front, marks, mark, bears);
        assert(all.drop_last() =~= fewer);
        assert(all.last() == last);
        let kept = fewer.filter(bears);
        assert forall|k: int| 0 <= k < kept.len() implies 0 <= #[trigger] kept[k] < last by {
            lemma_filter_within(fewer, bears, k);
        }
        assert(kept.map_values(|i: int| front[i]) =~= kept.map_values(place));
        assert(marks[last] == mark <==> bears(last));
        if bears(last) {
            assert(all.filter(bears) == kept.push(last));
            assert(all.filter(bears).map_values(place) =~= kept.map_values(place).push(beams.last()));
        } else {
            assert(all.filter(bears) == kept);
        }
    } else {
        assert(all.filter(bears).map_values(place) =~= Seq::empty());
    }
}

proof fn lemma_filter_within(places: Seq<int>, bears: spec_fn(int) -> bool, k: int)
    requires
        0 <= k < places.filter(bears).len(),
    ensures
        places.contains(places.filter(bears)[k]),
    decreases places.len(),
{
    reveal(Seq::filter);
    if places.len() > 0 {
        let front = places.drop_last();
        let kept = front.filter(bears);
        if k < kept.len() {
            lemma_filter_within(front, bears, k);
            let at = choose|at: int| 0 <= at < front.len() && front[at] == kept[k];
            assert(places[at] == kept[k]);
        } else {
            assert(places[places.len() - 1] == places.last());
        }
    }
}

} // verus!

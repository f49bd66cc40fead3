use vstd::prelude::*;

use crate::info::parse_spec;
use crate::info::InfoModel;
use crate::info::SFEvalInfo;
use crate::score::abs_score;
use crate::score::Color;
use crate::score::GameOutcome;

verus! {

/// Represents a single continuation in a Stockfish evaluation.
#[derive(Debug)]
pub struct Continuation {
    /// In UCI format.
    pub continuation: Vec<String>,

    /// Evaluation score of the continuation.
    pub score: crate::score::EvaluationScore,
}

/// Mathematical image of one continuation.
#[verifier::ext_equal]
pub struct ContModel {
    pub moves: Seq<Seq<char>>,
    pub score: crate::score::EvaluationScore,
}

impl View for Continuation {
    type V = ContModel;

    open spec fn view(&self) -> ContModel {
        ContModel { moves: self.continuation@.map_values(|t: String| t@), score: self.score }
    }
}

/// Summary of Stockfish's evaluation of a given position.
#[derive(Debug)]
pub struct StockfishEval {
    /// Evaluation depth
    pub eval_depth: usize,

    /// Number of nodes evaluated
    pub n_nodes: usize,

    /// Sorted list of continuations, sorted by evaluation score, best first.
    pub continuations: Vec<Continuation>,

    /// Current game outcome. `None` if game is not over, even if the position is a forced mate.
    pub outcome: Option<GameOutcome>,
}

/// Mathematical image of a summary evaluation.
#[verifier::ext_equal]
pub struct EvalModel {
    pub eval_depth: usize,
    pub n_nodes: usize,
    pub continuations: Seq<ContModel>,
    pub outcome: Option<GameOutcome>,
}

impl View for StockfishEval {
    type V = EvalModel;

    open spec fn view(&self) -> EvalModel {
        EvalModel {
            eval_depth: self.eval_depth,
            n_nodes: self.n_nodes,
            continuations: self.continuations@.map_values(|c: Continuation| c@),
            outcome: self.outcome,
        }
    }
}

impl StockfishEval {
    /// First move of the best continuation, if there is one.
    pub fn get_best_move(&self) -> (r: Option<String>)
        ensures
            match r {
                Some(m) => self@.continuations.len() > 0 && self@.continuations[0].moves.len() > 0
                    && m@ == self@.continuations[0].moves[0],
                None => self@.continuations.len() == 0 || self@.continuations[0].moves.len() == 0,
            },
    {
        if self.continuations.len() == 0 {
            return None;
        }
        let first = &self.continuations[0];
        if first.continuation.len() == 0 {
            return None;
        }
        Some(first.continuation[0].clone())
    }
}

// ---------------------------------------------------------------------------
// The derived evaluation, as a function of the accumulated records.
// ---------------------------------------------------------------------------
/// The largest depth among the records.
pub open spec fn max_depth_of(s: Seq<InfoModel>) -> usize
    decreases s.len(),
{
    if s.len() == 0 {
        0
    } else {
        let m = max_depth_of(s.drop_last());
        if s.last().depth >= m {
            s.last().depth
        } else {
            m
        }
    }
}

/// The node count of the record that established the largest depth: the last
/// record whose depth is maximal.
pub open spec fn nodes_at_top(s: Seq<InfoModel>) -> usize
    decreases s.len(),
{
    if s.len() == 0 {
        0
    } else if s.last().depth >= max_depth_of(s.drop_last()) {
        s.last().n_nodes
    } else {
        nodes_at_top(s.drop_last())
    }
}

/// The continuation a record contributes, its score moved to the absolute
/// frame.
pub open spec fn cont_of(r: InfoModel, turn: Color) -> ContModel {
    ContModel { moves: r.moves, score: abs_score(r.score, turn) }
}

/// The working list after placing, in arrival order, every record of depth
/// `d`: a rank beyond the list's length appends, any other rank overwrites
/// the entry at that rank.
pub open spec fn ranked(s: Seq<InfoModel>, d: usize, turn: Color) -> Seq<ContModel>
    decreases s.len(),
{
    if s.len() == 0 {
        Seq::empty()
    } else {
        let prev = ranked(s.drop_last(), d, turn);
        let r = s.last();
        if r.depth == d {
            if r.multipv > prev.len() {
                prev.push(cont_of(r, turn))
            } else {
                prev.update(r.multipv - 1, cont_of(r, turn))
            }
        } else {
            prev
        }
    }
}

/// The evaluation derived from the records: nothing when there are none,
/// else the ranked continuations at the deepest depth seen.
pub open spec fn derive_model(s: Seq<InfoModel>, turn: Color, outcome: Option<GameOutcome>) -> Option<
    EvalModel,
> {
    if s.len() == 0 {
        None
    } else {
        Some(
            EvalModel {
                eval_depth: max_depth_of(s),
                n_nodes: nodes_at_top(s),
                continuations: ranked(s, max_depth_of(s), turn),
                outcome,
            },
        )
    }
}

/// The records a sequence of raw lines contributes, in order, unparsable
/// lines dropped.
pub open spec fn parsed_all(lines: Seq<Seq<char>>) -> Seq<InfoModel>
    decreases lines.len(),
{
    if lines.len() == 0 {
        Seq::empty()
    } else {
        let rest = parsed_all(lines.drop_last());
        match parse_spec(lines.last()) {
            Some(m) => rest.push(m),
            None => rest,
        }
    }
}

// ---------------------------------------------------------------------------
// Laws of the rank-overwrite reduction.
// ---------------------------------------------------------------------------
/// Length of the working list for records of depth `d`: an entry is added
/// exactly when a record's rank lies beyond the list so far.
pub open spec fn rank_count(s: Seq<InfoModel>, d: usize) -> int
    decreases s.len(),
{
    if s.len() == 0 {
        0
    } else {
        let p = rank_count(s.drop_last(), d);
        if s.last().depth == d && s.last().multipv > p {
            p + 1
        } else {
            p
        }
    }
}

/// Some record of depth `d` carries rank `rk`.
pub open spec fn has_rank(s: Seq<InfoModel>, d: usize, rk: int) -> bool {
    exists|i: int| 0 <= i < s.len() && (#[trigger] s[i]).depth == d && s[i].multipv == rk
}

/// The latest record of depth `d` with rank `rk`.
pub open spec fn last_at_rank(s: Seq<InfoModel>, d: usize, rk: int) -> InfoModel
    decreases s.len(),
{
    if s.len() == 0 {
        vstd::pervasive::arbitrary()
    } else if s.last().depth == d && s.last().multipv == rk {
        s.last()
    } else {
        last_at_rank(s.drop_last(), d, rk)
    }
}

/// Ranks at depth `d` arrive without gaps: each is at least one and at most
/// one past the length of the working list at its arrival.
pub open spec fn contiguous_ranks(s: Seq<InfoModel>, d: usize) -> bool {
    forall|i: int|
        0 <= i < s.len() && (#[trigger] s[i]).depth == d ==> 1 <= s[i].multipv <= rank_count(
            s.take(i),
            d,
        ) + 1
}

/// Under gap-free ranks, the working list holds exactly one entry per rank
/// of depth `d` — a rank occurs among the records if and only if it is
/// between one and the list's length — and the entry at position `p` comes
/// from the latest record with rank `p + 1`.
#[verifier::rlimit(80)]
pub proof fn lemma_ranked_entries(s: Seq<InfoModel>, d: usize, turn: Color)
    requires
        contiguous_ranks(s, d),
    ensures
        ranked(s, d, turn).len() == rank_count(s, d),
        forall|p: int|
            0 <= p < rank_count(s, d) ==> ranked(s, d, turn)[p] == cont_of(
                last_at_rank(s, d, p + 1),
                turn,
            ),
        forall|rk: int|
            #![trigger has_rank(s, d, rk)]
            has_rank(s, d, rk) <==> 1 <= rk <= rank_count(s, d),
    decreases s.len(),
{
    if s.len() == 0 {
        assert forall|rk: int| #![trigger has_rank(s, d, rk)]
            has_rank(s, d, rk) implies false by {
            let i = choose|i: int|
                0 <= i < s.len() && (#[trigger] s[i]).depth == d && s[i].multipv == rk;
        }
    } else {
        let s0 = s.drop_last();
        let r = s.last();
        assert forall|i: int| 0 <= i < s0.len() && (#[trigger] s0[i]).depth == d implies 1
            <= s0[i].multipv <= rank_count(s0.take(i), d) + 1 by {
            assert(s0[i] == s[i]);
            assert(s0.take(i) =~= s.take(i));
        }
        lemma_ranked_entries(s0, d, turn);
        let prev = ranked(s0, d, turn);
        let p = rank_count(s0, d);
        if r.depth == d {
            assert(s.take(s.len() - 1) =~= s0);
            assert(1 <= r.multipv <= p + 1);
            if r.multipv > p {
                assert(rank_count(s, d) == p + 1);
                assert(ranked(s, d, turn) == prev.push(cont_of(r, turn)));
            } else {
                assert(rank_count(s, d) == p);
                assert(ranked(s, d, turn) == prev.update(r.multipv - 1, cont_of(r, turn)));
            }
            assert forall|q: int|
                0 <= q < rank_count(s, d) implies ranked(s, d, turn)[q] == cont_of(
                last_at_rank(s, d, q + 1),
                turn,
            ) by {
                if r.multipv == q + 1 {
                    assert(last_at_rank(s, d, q + 1) == r);
                    assert(ranked(s, d, turn)[q] == cont_of(r, turn));
                } else {
                    assert(last_at_rank(s, d, q + 1) == last_at_rank(s0, d, q + 1));
                    assert(0 <= q < p);
                    assert(ranked(s, d, turn)[q] == prev[q]);
                }
            }
            assert forall|rk: int| #![trigger has_rank(s, d, rk)]
                1 <= rk <= rank_count(s, d) implies has_rank(s, d, rk) by {
                if rk == r.multipv {
                    assert(s[s.len() - 1].depth == d && s[s.len() - 1].multipv == rk);
                } else {
                    assert(1 <= rk <= p);
                    assert(has_rank(s0, d, rk));
                    let i = choose|i: int|
                        0 <= i < s0.len() && (#[trigger] s0[i]).depth == d && s0[i].multipv == rk;
                    assert(s[i] == s0[i]);
                }
            }
            assert forall|rk: int| #![trigger has_rank(s, d, rk)]
                has_rank(s, d, rk) implies 1 <= rk <= rank_count(s, d) by {
                let i = choose|i: int|
                    0 <= i < s.len() && (#[trigger] s[i]).depth == d && s[i].multipv == rk;
                if i < s.len() - 1 {
                    assert(s0[i] == s[i]);
                    assert(has_rank(s0, d, rk));
                } else {
                    assert(rk == r.multipv);
                }
            }
        } else {
            assert(ranked(s, d, turn) == prev);
            assert(rank_count(s, d) == p);
            assert forall|q: int|
                0 <= q < rank_count(s, d) implies ranked(s, d, turn)[q] == cont_of(
                last_at_rank(s, d, q + 1),
                turn,
            ) by {
                assert(last_at_rank(s, d, q + 1) == last_at_rank(s0, d, q + 1));
                assert(ranked(s, d, turn)[q] == prev[q]);
            }
            assert forall|rk: int| #![trigger has_rank(s, d, rk)]
                1 <= rk <= rank_count(s, d) implies has_rank(s, d, rk) by {
                assert(has_rank(s0, d, rk));
                let i = choose|i: int|
                    0 <= i < s0.len() && (#[trigger] s0[i]).depth == d && s0[i].multipv == rk;
                assert(s[i] == s0[i]);
            }
            assert forall|rk: int| #![trigger has_rank(s, d, rk)]
                has_rank(s, d, rk) implies 1 <= rk <= rank_count(s, d) by {
                let i = choose|i: int|
                    0 <= i < s.len() && (#[trigger] s[i]).depth == d && s[i].multipv == rk;
                assert(i < s.len() - 1);
                assert(s0[i] == s[i]);
                assert(has_rank(s0, d, rk));
            }
        }
    }
}

/// Best-first ordering: when the ranks at the deepest depth arrive without
/// gaps, the derived evaluation has exactly one continuation per rank, and
/// the continuation at position `i` is the converted latest record of rank
/// `i + 1`.
pub proof fn lemma_best_first_ordering(
    s: Seq<InfoModel>,
    turn: Color,
    outcome: Option<GameOutcome>,
)
    requires
        s.len() > 0,
        contiguous_ranks(s, max_depth_of(s)),
    ensures
        derive_model(s, turn, outcome) is Some,
        derive_model(s, turn, outcome)->Some_0.continuations == ranked(s, max_depth_of(s), turn),
        ranked(s, max_depth_of(s), turn).len() == rank_count(s, max_depth_of(s)),
        forall|i: int|
            0 <= i < rank_count(s, max_depth_of(s)) ==> ranked(s, max_depth_of(s), turn)[i]
                == cont_of(last_at_rank(s, max_depth_of(s), i + 1), turn),
        forall|rk: int|
            #![trigger has_rank(s, max_depth_of(s), rk)]
            has_rank(s, max_depth_of(s), rk) <==> 1 <= rk <= rank_count(s, max_depth_of(s)),
{
    let d = max_depth_of(s);
    lemma_ranked_entries(s, d, turn);
}

/// Accumulation determinism: two record streams with the same deepest
/// depth, the same node count for the record establishing it, gap-free
/// ranks, and — rank by rank — the same latest record at that depth, derive
/// the same evaluation, in whatever order their records arrived.
pub proof fn lemma_accumulation_deterministic(
    s1: Seq<InfoModel>,
    s2: Seq<InfoModel>,
    turn: Color,
    outcome: Option<GameOutcome>,
)
    requires
        s1.len() > 0,
        s2.len() > 0,
        max_depth_of(s1) == max_depth_of(s2),
        nodes_at_top(s1) == nodes_at_top(s2),
        contiguous_ranks(s1, max_depth_of(s1)),
        contiguous_ranks(s2, max_depth_of(s2)),
        rank_count(s1, max_depth_of(s1)) == rank_count(s2, max_depth_of(s2)),
        forall|rk: int|
            1 <= rk <= rank_count(s1, max_depth_of(s1)) ==> #[trigger] last_at_rank(
                s1,
                max_depth_of(s1),
                rk,
            ) == last_at_rank(s2, max_depth_of(s2), rk),
    ensures
        derive_model(s1, turn, outcome) == derive_model(s2, turn, outcome),
{
    let d = max_depth_of(s1);
    lemma_ranked_entries(s1, d, turn);
    lemma_ranked_entries(s2, d, turn);
    assert(ranked(s1, d, turn) =~= ranked(s2, d, turn));
    assert(derive_model(s1, turn, outcome)->Some_0 =~= derive_model(s2, turn, outcome)->Some_0);
}

fn clone_moves(v: &Vec<String>) -> (r: Vec<String>)
    ensures
        r@.map_values(|t: String| t@) == v@.map_values(|t: String| t@),
{
    let mut r: Vec<String> = Vec::new();
    let mut j: usize = 0;
    proof {
        assert(r@.map_values(|t: String| t@) =~= v@.map_values(|t: String| t@).take(0));
    }
    while j < v.len()
        invariant
            0 <= j <= v@.len(),
            r@.map_values(|t: String| t@) =~= v@.map_values(|t: String| t@).take(j as int),
        decreases v@.len() - j,
    {
        let ghost prev = r@;
        r.push(v[j].clone());
        proof {
            assert(r@.drop_last() =~= prev);
            assert(r@.map_values(|t: String| t@) =~= prev.map_values(|t: String| t@).push(
                r@.last()@,
            ));
            assert(v@.map_values(|t: String| t@).take(j + 1) =~= v@.map_values(
                |t: String| t@,
            ).take(j as int).push(v@[j as int]@));
        }
        j += 1;
    }
    proof {
        assert(v@.map_values(|t: String| t@).take(v@.len() as int) =~= v@.map_values(
            |t: String| t@,
        ));
    }
    r
}

/// Helper object for extracting useful information out of the evaluation
/// output, a stream of lines that each look like
/// ```plain
/// info depth 7 seldepth 9 multipv 1 score cp 16 nodes 560 nps 186666 pv d2d4 g8f6 c2c4
/// ```
#[derive(Debug)]
pub struct SFEvalOutputAccumulator {
    info: Vec<SFEvalInfo>,
}

impl View for SFEvalOutputAccumulator {
    type V = Seq<InfoModel>;

    closed spec fn view(&self) -> Seq<InfoModel> {
        self.info@.map_values(|r: SFEvalInfo| r@)
    }
}

impl SFEvalOutputAccumulator {
    /// Every accumulated record satisfies the record invariant.
    pub open spec fn wf(&self) -> bool {
        forall|i: int| 0 <= i < self@.len() ==> (#[trigger] self@[i]).wf()
    }

    pub fn new() -> (r: Self)
        ensures
            r@ == Seq::<InfoModel>::empty(),
            r.wf(),
    {
        let r = Self { info: Vec::new() };
        proof {
            assert(r@ =~= Seq::<InfoModel>::empty());
        }
        r
    }

    pub fn clear(&mut self)
        ensures
            final(self)@ == Seq::<InfoModel>::empty(),
            final(self).wf(),
    {
        self.info.clear();
        proof {
            assert(self@ =~= Seq::<InfoModel>::empty());
        }
    }

    /// Append the record of one raw line, if the line carries one.
    pub fn process_line(&mut self, line: &str)
        ensures
            final(self)@ == match parse_spec(line@) {
                Some(m) => old(self)@.push(m),
                None => old(self)@,
            },
            old(self).wf() ==> final(self).wf(),
    {
        let ghost prev = self@;
        if let Some(rec) = SFEvalInfo::parse(line) {
            self.info.push(rec);
            proof {
                assert(self@ =~= prev.push(rec@));
            }
        }
    }

    /// Append the records of a batch of raw lines, in order.
    pub fn process_lines(&mut self, lines: &[String])
        ensures
            final(self)@ == old(self)@ + parsed_all(lines@.map_values(|t: String| t@)),
            old(self).wf() ==> final(self).wf(),
    {
        let ghost lv = lines@.map_values(|t: String| t@);
        let mut k: usize = 0;
        proof {
            assert(self@ + parsed_all(lv.take(0)) =~= self@);
        }
        while k < lines.len()
            invariant
                0 <= k <= lines@.len(),
                lv == lines@.map_values(|t: String| t@),
                self@ == old(self)@ + parsed_all(lv.take(k as int)),
                old(self).wf() ==> self.wf(),
            decreases lines@.len() - k,
        {
            proof {
                assert(lv[k as int] == lines@[k as int]@);
                assert(lv.take(k + 1).drop_last() =~= lv.take(k as int));
                assert(lv.take(k + 1).last() == lv[k as int]);
            }
            self.process_line(lines[k].as_str());
            proof {
                if parse_spec(lv[k as int]) is Some {
                    assert(self@ =~= old(self)@ + parsed_all(lv.take(k + 1)));
                } else {
                    assert(self@ =~= old(self)@ + parsed_all(lv.take(k + 1)));
                }
            }
            k += 1;
        }
        proof {
            assert(lv.take(lv.len() as int) =~= lv);
        }
    }

    /// Derive a summary evaluation from the information accumulated.
    pub fn derive_evaluation(&self, turn: Color, outcome: Option<GameOutcome>) -> (r: Option<
        StockfishEval,
    >)
        requires
            self.wf(),
        ensures
            match r {
                Some(e) => derive_model(self@, turn, outcome) == Some(e@),
                None => derive_model(self@, turn, outcome) is None,
            },
    {
        let ghost s = self@;
        let n = self.info.len();
        if n == 0 {
            return None;
        }
        proof {
            assert(s[0] == self.info@[0]@);
            assert(s.take(1).drop_last() =~= s.take(0));
            assert(s.take(1).last() == s[0]);
            assert(s.take(0) =~= Seq::<InfoModel>::empty());
            assert(max_depth_of(s.take(0)) == 0);
            assert(max_depth_of(s.take(1)) == s[0].depth);
            assert(nodes_at_top(s.take(1)) == s[0].n_nodes);
        }
        let mut depth: usize = self.info[0].depth;
        let mut n_nodes: usize = self.info[0].n_nodes;
        let mut i: usize = 1;
        while i < n
            invariant
                1 <= i <= n == s.len(),
                s == self@,
                n == self.info@.len(),
                depth == max_depth_of(s.take(i as int)),
                n_nodes == nodes_at_top(s.take(i as int)),
            decreases n - i,
        {
            proof {
                assert(s[i as int] == self.info@[i as int]@);
                assert(s.take(i + 1).drop_last() =~= s.take(i as int));
                assert(s.take(i + 1).last() == s[i as int]);
            }
            if self.info[i].depth >= depth {
                depth = self.info[i].depth;
                n_nodes = self.info[i].n_nodes;
            }
            i += 1;
        }
        proof {
            assert(s.take(n as int) =~= s);
        }
        let mut conts: Vec<Continuation> = Vec::new();
        let mut i: usize = 0;
        proof {
            assert(s.take(0) =~= Seq::<InfoModel>::empty());
            assert(conts@.map_values(|c: Continuation| c@) =~= ranked(s.take(0), depth, turn));
        }
        while i < n
            invariant
                0 <= i <= n == s.len(),
                s == self@,
                n == self.info@.len(),
                self.wf(),
                conts@.map_values(|c: Continuation| c@) == ranked(s.take(i as int), depth, turn),
            decreases n - i,
        {
            proof {
                assert(s[i as int] == self.info@[i as int]@);
                assert(s.take(i + 1).drop_last() =~= s.take(i as int));
                assert(s.take(i + 1).last() == s[i as int]);
            }
            let rec = &self.info[i];
            if rec.depth == depth {
                proof {
                    assert(s[i as int].wf());
                }
                let c = Continuation {
                    continuation: clone_moves(&rec.continuation),
                    score: rec.score.make_absolute(turn),
                };
                let ghost prevc = conts@;
                if rec.multipv > conts.len() {
                    conts.push(c);
                    proof {
                        assert(conts@.drop_last() =~= prevc);
                        assert(conts@.map_values(|c: Continuation| c@) =~= prevc.map_values(
                            |c: Continuation| c@,
                        ).push(conts@.last()@));
                        assert(conts@.last()@ == cont_of(s[i as int], turn));
                    }
                } else {
                    let idx = rec.multipv - 1;
                    conts[idx] = c;
                    proof {
                        assert(conts@[idx as int]@ == cont_of(s[i as int], turn));
                        assert(conts@.map_values(|c: Continuation| c@) =~= prevc.map_values(
                            |c: Continuation| c@,
                        ).update(idx as int, conts@[idx as int]@));
                    }
                }
            }
            i += 1;
        }
        proof {
            assert(s.take(n as int) =~= s);
        }
        let r = StockfishEval { eval_depth: depth, n_nodes, continuations: conts, outcome };
        proof {
            assert(derive_model(s, turn, outcome) == Some(r@)) by {
                assert(r@ =~= EvalModel {
                    eval_depth: max_depth_of(s),
                    n_nodes: nodes_at_top(s),
                    continuations: ranked(s, max_depth_of(s), turn),
                    outcome,
                });
            }
        }
        Some(r)
    }
}

} // verus!


use vstd::prelude::*;
use vstd::string::StringExecFns;

use crate::score::score_wf;
use crate::score::EvaluationScore;
use crate::text::parse_i32;
use crate::text::parse_i32_spec;
use crate::text::parse_usize;
use crate::text::parse_usize_spec;
use crate::text::split_sp;
use crate::text::tokenize;

verus! {

/// Represents Stockfish output of the form
/// ```plain
/// info depth {n} seldepth {i} ...
/// ```
/// etc.
#[derive(Debug)]
pub struct SFEvalInfo {
    pub depth: usize,
    pub continuation: Vec<String>,
    pub score: EvaluationScore,
    pub n_nodes: usize,
    pub multipv: usize,
}

/// Mathematical image of one parsed analysis record.
#[verifier::ext_equal]
pub struct InfoModel {
    pub depth: usize,
    pub moves: Seq<Seq<char>>,
    pub score: EvaluationScore,
    pub n_nodes: usize,
    pub multipv: usize,
}

impl InfoModel {
    /// The record invariant: the rank is positive and the score payload can
    /// be negated.
    pub open spec fn wf(self) -> bool {
        self.multipv >= 1 && score_wf(self.score)
    }
}

impl View for SFEvalInfo {
    type V = InfoModel;

    open spec fn view(&self) -> InfoModel {
        InfoModel {
            depth: self.depth,
            moves: self.continuation@.map_values(|t: String| t@),
            score: self.score,
            n_nodes: self.n_nodes,
            multipv: self.multipv,
        }
    }
}

/// The running state of a scan over the tokens of one line.
#[verifier::ext_equal]
pub struct ScanState {
    pub depth: usize,
    pub multipv: usize,
    pub n_nodes: usize,
    pub score: Option<EvaluationScore>,
    pub moves: Seq<Seq<char>>,
}

/// One left-to-right pass over the tokens from position `i`, each recognized
/// keyword reading its value token(s); `None` when a value token is missing
/// or fails to parse as a number.
pub open spec fn scan(toks: Seq<Seq<char>>, i: int, st: ScanState) -> Option<ScanState>
    decreases toks.len() - i,
{
    if i < 0 || i >= toks.len() {
        Some(st)
    } else {
        let t = toks[i];
        let nxt = if t == "depth"@ {
            if i + 1 < toks.len() && parse_usize_spec(toks[i + 1]) is Some {
                Some(ScanState { depth: parse_usize_spec(toks[i + 1])->Some_0, ..st })
            } else {
                None
            }
        } else if t == "multipv"@ {
            if i + 1 < toks.len() && parse_usize_spec(toks[i + 1]) is Some {
                Some(ScanState { multipv: parse_usize_spec(toks[i + 1])->Some_0, ..st })
            } else {
                None
            }
        } else if t == "nodes"@ {
            if i + 1 < toks.len() && parse_usize_spec(toks[i + 1]) is Some {
                Some(ScanState { n_nodes: parse_usize_spec(toks[i + 1])->Some_0, ..st })
            } else {
                None
            }
        } else if t == "score"@ {
            if i + 2 < toks.len() && parse_i32_spec(toks[i + 2]) is Some {
                let v = parse_i32_spec(toks[i + 2])->Some_0;
                Some(
                    ScanState {
                        score: Some(
                            if toks[i + 1] == "mate"@ {
                                EvaluationScore::Mate(v)
                            } else {
                                EvaluationScore::CentipawnAdvantage(v)
                            },
                        ),
                        ..st
                    },
                )
            } else {
                None
            }
        } else if t == "pv"@ {
            Some(ScanState { moves: toks.skip(i + 1), ..st })
        } else {
            Some(st)
        };
        match nxt {
            None => None,
            Some(st2) => scan(toks, i + 1, st2),
        }
    }
}

/// What one raw engine line means: `None` for a line that carries no usable
/// analysis record — no score, a missing or malformed value token, or a rank
/// below one.
pub open spec fn parse_spec(s: Seq<char>) -> Option<InfoModel> {
    let init = ScanState {
        depth: 0,
        multipv: 0,
        n_nodes: 0,
        score: None,
        moves: Seq::empty(),
    };
    match scan(split_sp(s), 0, init) {
        None => None,
        Some(st) => match st.score {
            None => None,
            Some(sc) => if st.multipv >= 1 {
                Some(
                    InfoModel {
                        depth: st.depth,
                        moves: st.moves,
                        score: sc,
                        n_nodes: st.n_nodes,
                        multipv: st.multipv,
                    },
                )
            } else {
                None
            },
        },
    }
}

/// The scan-state score, where present, can be negated.
pub open spec fn score_opt_wf(o: Option<EvaluationScore>) -> bool {
    match o {
        Some(sc) => score_wf(sc),
        None => true,
    }
}

/// A scan never produces a score whose payload cannot be negated: every
/// score it writes was parsed with magnitude at most `i32::MAX`.
proof fn lemma_scan_score_wf(toks: Seq<Seq<char>>, i: int, st: ScanState)
    requires
        score_opt_wf(st.score),
    ensures
        match scan(toks, i, st) {
            Some(st2) => score_opt_wf(st2.score),
            None => true,
        },
    decreases toks.len() - i,
{
    if i < 0 || i >= toks.len() {
    } else {
        if scan(toks, i, st) is Some {
            // the step either keeps the score, or writes one in range
            let t = toks[i];
            if t == "depth"@ {
                let st2 = ScanState { depth: parse_usize_spec(toks[i + 1])->Some_0, ..st };
                assert(scan(toks, i, st) == scan(toks, i + 1, st2));
                lemma_scan_score_wf(toks, i + 1, st2);
            } else if t == "multipv"@ {
                let st2 = ScanState { multipv: parse_usize_spec(toks[i + 1])->Some_0, ..st };
                assert(scan(toks, i, st) == scan(toks, i + 1, st2));
                lemma_scan_score_wf(toks, i + 1, st2);
            } else if t == "nodes"@ {
                let st2 = ScanState { n_nodes: parse_usize_spec(toks[i + 1])->Some_0, ..st };
                assert(scan(toks, i, st) == scan(toks, i + 1, st2));
                lemma_scan_score_wf(toks, i + 1, st2);
            } else if t == "score"@ {
                crate::text::lemma_parse_i32_range(toks[i + 2]);
                let v = parse_i32_spec(toks[i + 2])->Some_0;
                let st2 = ScanState {
                    score: Some(
                        if toks[i + 1] == "mate"@ {
                            EvaluationScore::Mate(v)
                        } else {
                            EvaluationScore::CentipawnAdvantage(v)
                        },
                    ),
                    ..st
                };
                assert(scan(toks, i, st) == scan(toks, i + 1, st2));
                lemma_scan_score_wf(toks, i + 1, st2);
            } else if t == "pv"@ {
                let st2 = ScanState { moves: toks.skip(i + 1), ..st };
                assert(scan(toks, i, st) == scan(toks, i + 1, st2));
                lemma_scan_score_wf(toks, i + 1, st2);
            } else {
                assert(scan(toks, i, st) == scan(toks, i + 1, st));
                lemma_scan_score_wf(toks, i + 1, st);
            }
        }
    }
}

/// Every record the parser yields satisfies the record invariant.
proof fn lemma_parse_spec_wf(s: Seq<char>)
    ensures
        match parse_spec(s) {
            Some(m) => m.wf(),
            None => true,
        },
{
    let init = ScanState {
        depth: 0,
        multipv: 0,
        n_nodes: 0,
        score: None,
        moves: Seq::empty(),
    };
    lemma_scan_score_wf(split_sp(s), 0, init);
}

impl SFEvalInfo {
    /// Parse a line of Stockfish output into an `SFEvalInfo` struct.
    pub fn parse(line: &str) -> (r: Option<Self>)
        ensures
            match r {
                Some(rec) => parse_spec(line@) == Some(rec@) && rec@.wf(),
                None => parse_spec(line@) is None,
            },
    {
        let toks = tokenize(line);
        let ghost tv = toks@.map_values(|t: String| t@);
        let kw_depth = <String as StringExecFns>::from_str("depth");
        let kw_multipv = <String as StringExecFns>::from_str("multipv");
        let kw_nodes = <String as StringExecFns>::from_str("nodes");
        let kw_score = <String as StringExecFns>::from_str("score");
        let kw_mate = <String as StringExecFns>::from_str("mate");
        let kw_pv = <String as StringExecFns>::from_str("pv");
        let ghost init = ScanState {
            depth: 0,
            multipv: 0,
            n_nodes: 0,
            score: None,
            moves: Seq::empty(),
        };
        let mut depth: usize = 0;
        let mut multipv: usize = 0;
        let mut n_nodes: usize = 0;
        let mut score: Option<EvaluationScore> = None;
        let mut cont: Vec<String> = Vec::new();
        let mut i: usize = 0;
        proof {
            assert(cont@.map_values(|t: String| t@) =~= Seq::<Seq<char>>::empty());
        }
        while i < toks.len()
            invariant
                0 <= i <= toks.len(),
                tv == toks@.map_values(|t: String| t@),
                tv == split_sp(line@),
                init == (ScanState {
                    depth: 0,
                    multipv: 0,
                    n_nodes: 0,
                    score: None,
                    moves: Seq::<Seq<char>>::empty(),
                }),
                kw_depth@ == "depth"@,
                kw_multipv@ == "multipv"@,
                kw_nodes@ == "nodes"@,
                kw_score@ == "score"@,
                kw_mate@ == "mate"@,
                kw_pv@ == "pv"@,
                scan(tv, 0, init) == scan(
                    tv,
                    i as int,
                    ScanState {
                        depth,
                        multipv,
                        n_nodes,
                        score,
                        moves: cont@.map_values(|t: String| t@),
                    },
                ),
            decreases toks.len() - i,
        {
            let ghost cur = ScanState {
                depth,
                multipv,
                n_nodes,
                score,
                moves: cont@.map_values(|t: String| t@),
            };
            proof {
                assert(tv[i as int] == toks@[i as int]@);
                if i + 1 < toks.len() {
                    assert(tv[i as int + 1] == toks@[i as int + 1]@);
                }
                if toks.len() - i > 2 {
                    assert(tv[i as int + 2] == toks@[i as int + 2]@);
                }
            }
            if toks[i] == kw_depth {
                if i + 1 < toks.len() {
                    match parse_usize(toks[i + 1].as_str()) {
                        Some(v) => {
                            depth = v;
                        },
                        None => {
                            proof {
                                assert(scan(tv, i as int, cur) is None);
                            }
                            return None;
                        },
                    }
                } else {
                    proof {
                        assert(scan(tv, i as int, cur) is None);
                    }
                    return None;
                }
            } else if toks[i] == kw_multipv {
                if i + 1 < toks.len() {
                    match parse_usize(toks[i + 1].as_str()) {
                        Some(v) => {
                            multipv = v;
                        },
                        None => {
                            proof {
                                assert(scan(tv, i as int, cur) is None);
                            }
                            return None;
                        },
                    }
                } else {
                    proof {
                        assert(scan(tv, i as int, cur) is None);
                    }
                    return None;
                }
            } else if toks[i] == kw_nodes {
                if i + 1 < toks.len() {
                    match parse_usize(toks[i + 1].as_str()) {
                        Some(v) => {
                            n_nodes = v;
                        },
                        None => {
                            proof {
                                assert(scan(tv, i as int, cur) is None);
                            }
                            return None;
                        },
                    }
                } else {
                    proof {
                        assert(scan(tv, i as int, cur) is None);
                    }
                    return None;
                }
            } else if toks[i] == kw_score {
                if toks.len() - i > 2 {
                    match parse_i32(toks[i + 2].as_str()) {
                        Some(v) => {
                            if toks[i + 1] == kw_mate {
                                score = Some(EvaluationScore::Mate(v));
                            } else {
                                score = Some(EvaluationScore::CentipawnAdvantage(v));
                            }
                        },
                        None => {
                            proof {
                                assert(scan(tv, i as int, cur) is None);
                            }
                            return None;
                        },
                    }
                } else {
                    proof {
                        assert(scan(tv, i as int, cur) is None);
                    }
                    return None;
                }
            } else if toks[i] == kw_pv {
                let mut rest: Vec<String> = Vec::new();
                let mut j: usize = i + 1;
                proof {
                    assert(rest@.map_values(|t: String| t@) =~= tv.subrange(
                        i as int + 1,
                        i as int + 1,
                    ));
                }
                while j < toks.len()
                    invariant
                        i as int + 1 <= j as int <= toks.len(),
                        tv == toks@.map_values(|t: String| t@),
                        rest@.map_values(|t: String| t@) =~= tv.subrange(i as int + 1, j as int),
                    decreases toks.len() - j,
                {
                    let ghost prev = rest@;
                    rest.push(toks[j].clone());
                    proof {
                        assert(toks@[j as int]@ == tv[j as int]);
                        assert(rest@.drop_last() =~= prev);
                        assert(rest@.map_values(|t: String| t@) =~= prev.map_values(
                            |t: String| t@,
                        ).push(rest@.last()@));
                        assert(tv.subrange(i as int + 1, j as int + 1) =~= tv.subrange(
                            i as int + 1,
                            j as int,
                        ).push(tv[j as int]));
                    }
                    j += 1;
                }
                cont = rest;
                proof {
                    assert(cont@.map_values(|t: String| t@) =~= tv.skip(i as int + 1));
                }
            }
            i += 1;
        }
        proof {
            assert(scan(
                tv,
                i as int,
                ScanState {
                    depth,
                    multipv,
                    n_nodes,
                    score,
                    moves: cont@.map_values(|t: String| t@),
                },
            ) == Some(
                ScanState {
                    depth,
                    multipv,
                    n_nodes,
                    score,
                    moves: cont@.map_values(|t: String| t@),
                },
            ));
            lemma_parse_spec_wf(line@);
        }
        match score {
            None => None,
            Some(sc) => {
                if multipv >= 1 {
                    let rec = SFEvalInfo {
                        depth,
                        continuation: cont,
                        score: sc,
                        n_nodes,
                        multipv,
                    };
                    Some(rec)
                } else {
                    None
                }
            },
        }
    }
}

} // verus!

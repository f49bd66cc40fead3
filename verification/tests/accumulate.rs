use stockfish::accumulator::SFEvalOutputAccumulator;
use stockfish::score::Color;
use stockfish::score::EvaluationScore;

#[test]
fn no_records_derive_nothing() {
    let acc = SFEvalOutputAccumulator::new();
    assert!(acc.derive_evaluation(Color::White, None).is_none());
}

#[test]
fn deepest_depth_wins() {
    let mut acc = SFEvalOutputAccumulator::new();
    acc.process_line("info depth 5 multipv 1 score cp 10 nodes 100 pv a2a3");
    acc.process_line("info depth 7 multipv 1 score cp 16 nodes 560 pv d2d4 g8f6");
    let e = acc.derive_evaluation(Color::White, None).expect("evaluation");
    assert_eq!(e.eval_depth, 7);
    assert_eq!(e.n_nodes, 560);
    assert_eq!(e.continuations.len(), 1);
    assert_eq!(e.continuations[0].continuation, vec!["d2d4", "g8f6"]);
    assert_eq!(e.continuations[0].score, EvaluationScore::CentipawnAdvantage(16));
    assert!(e.outcome.is_none());
}

#[test]
fn last_write_wins_per_rank() {
    let mut acc = SFEvalOutputAccumulator::new();
    acc.process_line("info depth 9 multipv 1 score cp 10 nodes 100 pv a2a3");
    acc.process_line("info depth 9 multipv 1 score cp 22 nodes 200 pv d2d4");
    let e = acc.derive_evaluation(Color::White, None).expect("evaluation");
    assert_eq!(e.continuations.len(), 1);
    assert_eq!(e.continuations[0].continuation, vec!["d2d4"]);
    assert_eq!(e.continuations[0].score, EvaluationScore::CentipawnAdvantage(22));
    assert_eq!(e.n_nodes, 200);
}

#[test]
fn ranks_come_out_best_first() {
    let mut acc = SFEvalOutputAccumulator::new();
    acc.process_line("info depth 6 multipv 1 score cp 31 nodes 900 pv e2e4");
    acc.process_line("info depth 6 multipv 2 score cp 12 nodes 900 pv d2d4");
    acc.process_line("info depth 6 multipv 3 score cp -4 nodes 900 pv g1f3");
    let e = acc.derive_evaluation(Color::White, None).expect("evaluation");
    assert_eq!(e.continuations.len(), 3);
    assert_eq!(e.continuations[0].continuation, vec!["e2e4"]);
    assert_eq!(e.continuations[1].continuation, vec!["d2d4"]);
    assert_eq!(e.continuations[2].continuation, vec!["g1f3"]);
}

#[test]
fn same_records_in_another_overwrite_preserving_order_agree() {
    // two arrival orders whose latest record per rank at the deepest depth
    // coincide derive the same evaluation
    let mut a = SFEvalOutputAccumulator::new();
    a.process_line("info depth 6 multipv 1 score cp 5 nodes 70 pv b1c3");
    a.process_line("info depth 6 multipv 1 score cp 31 nodes 900 pv e2e4");
    a.process_line("info depth 6 multipv 2 score cp 12 nodes 900 pv d2d4");

    let mut b = SFEvalOutputAccumulator::new();
    b.process_line("info depth 6 multipv 1 score cp 31 nodes 850 pv e2e4");
    b.process_line("info depth 6 multipv 2 score cp 9 nodes 860 pv d2d4");
    b.process_line("info depth 6 multipv 1 score cp 31 nodes 880 pv e2e4");
    b.process_line("info depth 6 multipv 2 score cp 12 nodes 900 pv d2d4");

    let ea = a.derive_evaluation(Color::Black, None).expect("evaluation");
    let eb = b.derive_evaluation(Color::Black, None).expect("evaluation");
    assert_eq!(ea.eval_depth, eb.eval_depth);
    assert_eq!(ea.n_nodes, eb.n_nodes);
    assert_eq!(ea.continuations.len(), eb.continuations.len());
    for (x, y) in ea.continuations.iter().zip(eb.continuations.iter()) {
        assert_eq!(x.continuation, y.continuation);
        assert_eq!(x.score, y.score);
    }
}

#[test]
fn scores_reported_in_absolute_frame() {
    let mut acc = SFEvalOutputAccumulator::new();
    acc.process_line("info depth 4 multipv 1 score cp 16 nodes 50 pv e7e5");
    let e = acc.derive_evaluation(Color::Black, None).expect("evaluation");
    assert_eq!(e.continuations[0].score, EvaluationScore::CentipawnAdvantage(-16));
}

#[test]
fn shallower_lines_do_not_pollute_deepest() {
    let mut acc = SFEvalOutputAccumulator::new();
    acc.process_line("info depth 6 multipv 2 score cp 1 nodes 10 pv h2h4");
    acc.process_line("info depth 7 multipv 1 score cp 30 nodes 700 pv e2e4");
    let e = acc.derive_evaluation(Color::White, None).expect("evaluation");
    assert_eq!(e.continuations.len(), 1);
    assert_eq!(e.continuations[0].continuation, vec!["e2e4"]);
}

#[test]
fn clear_forgets_everything() {
    let mut acc = SFEvalOutputAccumulator::new();
    acc.process_line("info depth 5 multipv 1 score cp 10 nodes 100 pv a2a3");
    acc.clear();
    assert!(acc.derive_evaluation(Color::White, None).is_none());
}

#[test]
fn process_lines_takes_a_batch() {
    let mut acc = SFEvalOutputAccumulator::new();
    let lines = vec![
        String::from("info depth 3 multipv 1 score cp 8 nodes 40 pv c2c4"),
        String::from("bestmove c2c4"),
        String::from("info depth 4 multipv 1 score cp 9 nodes 80 pv c2c4 e7e6"),
    ];
    acc.process_lines(&lines);
    let e = acc.derive_evaluation(Color::White, None).expect("evaluation");
    assert_eq!(e.eval_depth, 4);
    assert_eq!(e.continuations[0].continuation, vec!["c2c4", "e7e6"]);
}

#[test]
fn best_move_is_first_of_best_line() {
    let mut acc = SFEvalOutputAccumulator::new();
    acc.process_line("info depth 6 multipv 2 score cp 1 nodes 10 pv h2h4 a7a5");
    acc.process_line("info depth 6 multipv 1 score cp 30 nodes 700 pv e2e4 e7e5");
    let e = acc.derive_evaluation(Color::White, None).expect("evaluation");
    assert_eq!(e.get_best_move(), Some(String::from("e2e4")));
}

#[test]
fn best_move_of_empty_evaluation_is_none() {
    let mut acc = SFEvalOutputAccumulator::new();
    acc.process_line("info depth 1 multipv 1 score cp 0 nodes 1");
    let e = acc.derive_evaluation(Color::White, None).expect("evaluation");
    // a record can carry an empty continuation; then there is no best move
    assert_eq!(e.get_best_move(), None);
}

#[test]
fn rank_gap_appends_at_next_free_slot() {
    // a gap in the reported ranks is tolerated: the record is appended at
    // the next free slot rather than at its nominal rank
    let mut acc = SFEvalOutputAccumulator::new();
    acc.process_line("info depth 6 multipv 1 score cp 30 nodes 100 pv e2e4");
    acc.process_line("info depth 6 multipv 5 score cp 1 nodes 100 pv h2h3");
    let e = acc.derive_evaluation(Color::White, None).expect("evaluation");
    assert_eq!(e.continuations.len(), 2);
    assert_eq!(e.continuations[1].continuation, vec!["h2h3"]);
}

#[test]
fn caller_supplied_outcome_is_passed_through() {
    let mut acc = SFEvalOutputAccumulator::new();
    acc.process_line("info depth 2 multipv 1 score mate 1 nodes 5 pv d8h4");
    let e = acc
        .derive_evaluation(Color::Black, Some(stockfish::score::GameOutcome::BlackWin))
        .expect("evaluation");
    assert_eq!(e.outcome, Some(stockfish::score::GameOutcome::BlackWin));
    assert_eq!(e.continuations[0].score, EvaluationScore::Mate(-1));
}

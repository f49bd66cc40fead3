use std::sync::mpsc;

use stockfish::score::Color;
use stockfish::score::EvaluationScore;
use stockfish::score::GameOutcome;
use stockfish::supervisor::EvalConstraint;
use stockfish::supervisor::Position;
use stockfish::supervisor::PositionStatus;
use stockfish::supervisor::Stockfish;
use stockfish::supervisor::StockfishError;
use stockfish::supervisor::validate_fen;

const START_FEN: &str = "rnbqkbnr/pppppppp/8/8/8/8/PPPPPPPP/RNBQKBNR w KQkq - 0 1";
const START_FEN_BLACK: &str = "rnbqkbnr/pppppppp/8/8/8/8/PPPPPPPP/RNBQKBNR b KQkq - 0 1";
const FOOLS_MATE_FEN: &str = "rnb1kbnr/pppp1ppp/8/4p3/6Pq/5P2/PPPPP2P/RNBQKBNR w KQkq - 0 3";
const STALEMATE_FEN: &str = "k7/8/1Q6/8/8/8/8/7K b - - 0 1";

/// A supervisor wired to two in-memory channel ends, with the test holding
/// the far ends: `feed` plays the engine's output, `sent` observes the
/// commands the supervisor writes.
fn harness() -> (Stockfish, mpsc::Sender<String>, mpsc::Receiver<String>) {
    let (feed, rx) = mpsc::channel::<String>();
    let (tx, sent) = mpsc::channel::<String>();
    (Stockfish::new(rx, tx), feed, sent)
}

#[test]
fn poll_before_any_start_is_rejected() {
    let (mut sup, _feed, _sent) = harness();
    match sup.get_current_evaluation() {
        Err(StockfishError::NotEvaluating) => {},
        other => panic!("expected NotEvaluating, got {:?}", other),
    }
}

#[test]
fn start_with_malformed_fen_is_rejected() {
    let (mut sup, _feed, _sent) = harness();
    match sup.restart_evaluation("this is not a position") {
        Err(StockfishError::InvalidInput) => {},
        other => panic!("expected InvalidInput, got {:?}", other),
    }
    // still idle: polling is refused
    assert!(matches!(sup.get_current_evaluation(), Err(StockfishError::NotEvaluating)));
}

#[test]
fn start_with_illegal_position_is_rejected() {
    let (mut sup, _feed, _sent) = harness();
    // two kings are required; this position has none for black
    match sup.restart_evaluation("8/8/8/8/8/8/8/K7 w - - 0 1") {
        Err(StockfishError::InvalidInput) => {},
        other => panic!("expected InvalidInput, got {:?}", other),
    }
}

#[test]
fn start_sends_position_then_go() {
    let (mut sup, _feed, sent) = harness();
    sup.restart_evaluation(START_FEN).expect("start should succeed");
    let first = sent.recv().expect("a command");
    assert_eq!(first, format!("position fen {}", START_FEN));
    let second = sent.recv().expect("a second command");
    assert_eq!(second, "go");
}

#[test]
fn poll_reduces_fed_lines() {
    let (mut sup, feed, _sent) = harness();
    sup.restart_evaluation(START_FEN).expect("start should succeed");
    feed.send(String::from("info depth 7 multipv 1 score cp 16 nodes 560 pv d2d4 g8f6")).unwrap();
    feed.send(String::from("info depth 7 multipv 2 score cp 2 nodes 560 pv e2e4")).unwrap();
    let e = sup
        .get_current_evaluation()
        .expect("poll should succeed")
        .expect("an evaluation should be available");
    assert_eq!(e.eval_depth, 7);
    assert_eq!(e.continuations.len(), 2);
    assert_eq!(e.continuations[0].continuation, vec!["d2d4", "g8f6"]);
    // white to move: relative and absolute frames agree
    assert_eq!(e.continuations[0].score, EvaluationScore::CentipawnAdvantage(16));
    assert!(e.outcome.is_none());
    assert_eq!(e.get_best_move(), Some(String::from("d2d4")));
}

#[test]
fn poll_converts_to_absolute_frame_for_black() {
    let (mut sup, feed, _sent) = harness();
    sup.restart_evaluation(START_FEN_BLACK).expect("start should succeed");
    feed.send(String::from("info depth 5 multipv 1 score cp 16 nodes 100 pv e7e5")).unwrap();
    let e = sup.get_current_evaluation().expect("poll").expect("evaluation");
    assert_eq!(e.continuations[0].score, EvaluationScore::CentipawnAdvantage(-16));
}

#[test]
fn poll_with_no_lines_yet_has_no_evaluation() {
    let (mut sup, _feed, _sent) = harness();
    sup.restart_evaluation(START_FEN).expect("start should succeed");
    let r = sup.get_current_evaluation().expect("poll should succeed");
    assert!(r.is_none());
}

#[test]
fn stop_then_poll_is_rejected() {
    let (mut sup, feed, _sent) = harness();
    sup.restart_evaluation(START_FEN).expect("start should succeed");
    feed.send(String::from("readyok")).unwrap();
    sup.stop_evaluation();
    match sup.get_current_evaluation() {
        Err(StockfishError::NotEvaluating) => {},
        other => panic!("expected NotEvaluating, got {:?}", other),
    }
}

#[test]
fn restart_while_busy_discards_previous_cycle() {
    let (mut sup, feed, _sent) = harness();
    sup.restart_evaluation(START_FEN).expect("start should succeed");
    feed.send(String::from("info depth 9 multipv 1 score cp 77 nodes 900 pv a2a4")).unwrap();
    // accumulate cycle-1 records
    let _ = sup.get_current_evaluation().expect("poll should succeed");
    // restart: the internal stop waits for a ready acknowledgment
    feed.send(String::from("readyok")).unwrap();
    sup.restart_evaluation(START_FEN_BLACK).expect("restart should succeed");
    feed.send(String::from("info depth 2 multipv 1 score cp 5 nodes 10 pv e7e5")).unwrap();
    let e = sup.get_current_evaluation().expect("poll").expect("evaluation");
    // nothing of cycle 1 remains
    assert_eq!(e.eval_depth, 2);
    assert_eq!(e.continuations.len(), 1);
    assert_eq!(e.continuations[0].continuation, vec!["e7e5"]);
}

#[test]
fn checkmate_outcome_takes_priority() {
    let (mut sup, feed, _sent) = harness();
    sup.restart_evaluation(FOOLS_MATE_FEN).expect("start should succeed");
    // even accumulated analysis is ignored on a finished game
    feed.send(String::from("info depth 1 multipv 1 score mate 0 nodes 1 pv h4h2")).unwrap();
    // close the engine's side so that the internal stop's ready wait ends
    drop(feed);
    let e = sup.get_current_evaluation().expect("poll").expect("evaluation");
    assert_eq!(e.outcome, Some(GameOutcome::BlackWin));
    assert!(e.continuations.is_empty());
    assert_eq!(e.eval_depth, 0);
    assert_eq!(e.n_nodes, 0);
    // the supervisor went idle
    assert!(matches!(sup.get_current_evaluation(), Err(StockfishError::NotEvaluating)));
}

#[test]
fn stalemate_is_a_draw() {
    let (mut sup, feed, _sent) = harness();
    sup.restart_evaluation(STALEMATE_FEN).expect("start should succeed");
    // close the engine's side so that the internal stop's ready wait ends
    drop(feed);
    let e = sup.get_current_evaluation().expect("poll").expect("evaluation");
    assert_eq!(e.outcome, Some(GameOutcome::Draw));
    assert!(e.continuations.is_empty());
}

#[test]
fn thread_count_command_is_forwarded_verbatim() {
    let (mut sup, _feed, sent) = harness();
    sup.set_n_threads(4);
    assert_eq!(sent.recv().unwrap(), "setoption name Threads value 4");
    let n = sup.auto_set_n_threads();
    assert!(n >= 1);
    assert_eq!(sent.recv().unwrap(), format!("setoption name Threads value {}", n));
}

#[test]
fn validate_fen_reads_side_and_status() {
    assert_eq!(
        validate_fen(START_FEN),
        Some(Position { side_to_move: Color::White, status: PositionStatus::Ongoing })
    );
    assert_eq!(
        validate_fen(START_FEN_BLACK),
        Some(Position { side_to_move: Color::Black, status: PositionStatus::Ongoing })
    );
    assert_eq!(
        validate_fen(FOOLS_MATE_FEN),
        Some(Position { side_to_move: Color::White, status: PositionStatus::Checkmate })
    );
    assert_eq!(
        validate_fen(STALEMATE_FEN),
        Some(Position { side_to_move: Color::Black, status: PositionStatus::Stalemate })
    );
    assert_eq!(validate_fen("nonsense"), None);
}

#[test]
fn default_constraint_is_depth_25() {
    match EvalConstraint::default() {
        EvalConstraint::MaxDepth(d) => assert_eq!(d, 25),
        EvalConstraint::MaxTimeMillis(_) => panic!("expected a depth constraint"),
    }
}

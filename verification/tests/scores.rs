use stockfish::score::Color;
use stockfish::score::EvaluationScore;

#[test]
fn relative_score_unchanged_for_white() {
    let s = EvaluationScore::CentipawnAdvantage(16);
    assert_eq!(s.make_absolute(Color::White), EvaluationScore::CentipawnAdvantage(16));
    let m = EvaluationScore::Mate(4);
    assert_eq!(m.make_absolute(Color::White), EvaluationScore::Mate(4));
}

#[test]
fn relative_score_negated_for_black() {
    let s = EvaluationScore::CentipawnAdvantage(16);
    assert_eq!(s.make_absolute(Color::Black), EvaluationScore::CentipawnAdvantage(-16));
    let m = EvaluationScore::Mate(-2);
    assert_eq!(m.make_absolute(Color::Black), EvaluationScore::Mate(2));
}

#[test]
fn score_kind_predicates() {
    assert!(EvaluationScore::Mate(3).is_forced_mate());
    assert!(!EvaluationScore::Mate(3).is_material_advantage());
    assert!(EvaluationScore::CentipawnAdvantage(-5).is_material_advantage());
    assert!(!EvaluationScore::CentipawnAdvantage(-5).is_forced_mate());
}

#[test]
fn metric_of_scores() {
    assert_eq!(EvaluationScore::CentipawnAdvantage(-37).as_metric(), -37);
    assert_eq!(EvaluationScore::Mate(2).as_metric(), 10000);
    assert_eq!(EvaluationScore::Mate(-1).as_metric(), -10000);
}

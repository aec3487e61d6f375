use opening_analysis::counts::{
    accumulate_openings, collect_opening_stats, extract_fen, first_token, label_games,
    tally_results, AnalysisError, GameRecord, OpeningResult, Termination,
};
use opening_analysis::plot::{max_count, print_scatter_plot_svg};

fn tag(name: &str, value: &str) -> (String, String) {
    (name.to_owned(), value.to_owned())
}

fn result(w: u32, d: u32, b: u32) -> OpeningResult {
    OpeningResult { white_win_count: w, draw_count: d, black_win_count: b }
}

#[test]
fn total_games_adds_the_three_counts() {
    assert_eq!(result(10, 5, 5).total_games(), 20);
    assert_eq!(result(0, 0, 0).total_games(), 0);
}

#[test]
fn extract_fen_unique_tag() {
    let tags = vec![tag("Event", "test"), tag("FEN", "rnbq pos 1"), tag("Site", "here")];
    assert_eq!(extract_fen(&tags), Ok("rnbq pos 1".to_owned()));
}

#[test]
fn extract_fen_missing_tag() {
    let tags = vec![tag("Event", "test")];
    assert_eq!(extract_fen(&tags), Err(AnalysisError::FenTagMissing));
    assert_eq!(extract_fen(&Vec::new()), Err(AnalysisError::FenTagMissing));
}

#[test]
fn extract_fen_duplicated_tag() {
    let tags = vec![tag("FEN", "a"), tag("FEN", "b")];
    assert_eq!(extract_fen(&tags), Err(AnalysisError::TooManyFenTags));
}

#[test]
fn label_games_reads_fen_and_termination() {
    let games = vec![
        GameRecord { tags: vec![tag("FEN", "posA")], termination: Termination::WhiteWins },
        GameRecord { tags: vec![tag("FEN", "posB")], termination: Termination::Draw },
    ];
    let labelled = label_games(&games).unwrap();
    assert_eq!(labelled.len(), 2);
    assert_eq!(labelled[0].0, "posA".to_owned());
    assert_eq!(labelled[0].1, Termination::WhiteWins);
    assert_eq!(labelled[1].0, "posB".to_owned());
    assert_eq!(labelled[1].1, Termination::Draw);
}

#[test]
fn label_games_rejects_unknown_termination() {
    let games = vec![
        GameRecord { tags: vec![tag("FEN", "posA")], termination: Termination::Other },
    ];
    assert_eq!(label_games(&games), Err(AnalysisError::BadGameTermination));
}

#[test]
fn accumulate_counts_per_opening() {
    let labelled = vec![
        ("posA".to_owned(), Termination::WhiteWins),
        ("posB".to_owned(), Termination::Draw),
        ("posA".to_owned(), Termination::WhiteWins),
        ("posA".to_owned(), Termination::BlackWins),
        ("posB".to_owned(), Termination::Draw),
    ];
    let stats = accumulate_openings(&labelled);
    assert_eq!(stats.len(), 2);
    let a = stats.iter().find(|e| e.0 == "posA").unwrap();
    assert_eq!(a.1, result(2, 0, 1));
    let b = stats.iter().find(|e| e.0 == "posB").unwrap();
    assert_eq!(b.1, result(0, 2, 0));
}

#[test]
fn collect_opening_stats_end_to_end() {
    let games = vec![
        GameRecord { tags: vec![tag("FEN", "posA x")], termination: Termination::WhiteWins },
        GameRecord { tags: vec![tag("FEN", "posB y")], termination: Termination::BlackWins },
        GameRecord { tags: vec![tag("FEN", "posA x")], termination: Termination::Draw },
    ];
    let stats = collect_opening_stats(&games).unwrap();
    assert_eq!(stats.len(), 2);
    let a = stats.iter().find(|e| e.0 == "posA x").unwrap();
    assert_eq!(a.1, result(1, 1, 0));
    let b = stats.iter().find(|e| e.0 == "posB y").unwrap();
    assert_eq!(b.1, result(0, 0, 1));
}

#[test]
fn collect_opening_stats_propagates_missing_fen() {
    let games = vec![
        GameRecord { tags: vec![tag("FEN", "posA")], termination: Termination::WhiteWins },
        GameRecord { tags: vec![tag("Event", "no fen")], termination: Termination::Draw },
    ];
    assert_eq!(collect_opening_stats(&games), Err(AnalysisError::FenTagMissing));
}

#[test]
fn tally_counts_identical_triples() {
    let results = vec![result(1, 0, 0), result(0, 1, 0), result(1, 0, 0), result(1, 0, 0)];
    let tally = tally_results(&results);
    assert_eq!(tally.len(), 2);
    let a = tally.iter().find(|e| e.0 == result(1, 0, 0)).unwrap();
    assert_eq!(a.1, 3);
    let b = tally.iter().find(|e| e.0 == result(0, 1, 0)).unwrap();
    assert_eq!(b.1, 1);
}

#[test]
fn first_token_stops_at_the_first_space() {
    assert_eq!(first_token("rnbqkbnr/pppppppp w KQkq"), "rnbqkbnr/pppppppp".to_owned());
    assert_eq!(first_token("one"), "one".to_owned());
    assert_eq!(first_token(""), "".to_owned());
    assert_eq!(first_token(" leading"), "".to_owned());
}

#[test]
fn error_messages_match_the_reported_text() {
    assert_eq!(AnalysisError::FenTagMissing.message(), "FEN tag not found".to_owned());
    assert_eq!(AnalysisError::TooManyFenTags.message(), "Too many FEN tags found".to_owned());
    assert_eq!(
        AnalysisError::BadGameTermination.message(),
        "Bad game termination found".to_owned()
    );
}

#[test]
fn max_count_defaults_to_one() {
    assert_eq!(max_count(&Vec::new()), 1);
    assert_eq!(max_count(&vec![(result(1, 0, 0), 4), (result(0, 1, 0), 7)]), 7);
}

#[test]
fn scatter_marks_follow_the_proportions() {
    let wdb = vec![(result(2, 1, 1), 3u32), (result(0, 0, 5), 1u32)];
    let marks = print_scatter_plot_svg(&wdb);
    assert_eq!(marks.len(), 2);

    // First triple: total 4, black proportion 1/4, draw proportion 1/4.
    let cx = marks[0].cx.num as f64 / marks[0].cx.den as f64;
    assert!((cx - 400.0 * (0.25 + 0.25 / 2.0)).abs() < 1e-9);
    let cy = marks[0].cy.num as f64 / marks[0].cy.den as f64;
    assert!((cy - 400.0 * (1.0 - 0.25 * 0.8660254037844386)).abs() < 1e-9);
    // Radius squared: (SIDE / 2 / NUM_TICKS)^2 * count / max_count.
    let r2 = marks[0].r_squared.num as f64 / marks[0].r_squared.den as f64;
    let r = r2.sqrt();
    assert!((r - 20.0 * (3.0f64 / 3.0).sqrt()).abs() < 1e-9);

    // Second triple: all black wins, smallest count.
    let cx2 = marks[1].cx.num as f64 / marks[1].cx.den as f64;
    assert!((cx2 - 400.0).abs() < 1e-9);
    let cy2 = marks[1].cy.num as f64 / marks[1].cy.den as f64;
    assert!((cy2 - 400.0).abs() < 1e-9);
    let r2b = marks[1].r_squared.num as f64 / marks[1].r_squared.den as f64;
    assert!((r2b.sqrt() - 20.0 * (1.0f64 / 3.0).sqrt()).abs() < 1e-9);
}

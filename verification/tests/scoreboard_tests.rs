use tetris_core::scoreboard::{parse_highscore_line, parse_i32, HighScore, ScoreBoard, ScoreUpdated};

fn board() -> ScoreBoard {
    ScoreBoard::new(Vec::new())
}

#[test]
fn new_board_is_empty() {
    let sb = board();
    assert_eq!(sb.highscores.len(), 0);
    assert_eq!(sb.formatted_highscores, "");
}

#[test]
fn format_empty_board_uses_placeholder() {
    let mut sb = board();
    sb.format_highscores(";");
    assert_eq!(sb.formatted_highscores, "no highscores yet");
}

#[test]
fn first_score_enters_the_board() {
    let mut sb = board();
    let r = sb.update_highscore("alice", 100);
    assert_eq!(r, ScoreUpdated::NewHighScore);
    assert_eq!(sb.highscores.len(), 1);
    assert_eq!(sb.highscores[0].username, "alice");
    assert_eq!(sb.highscores[0].score, 100);
    assert_eq!(sb.formatted_highscores, "alice: 100");
}

#[test]
fn lower_score_does_not_improve() {
    let mut sb = board();
    sb.update_highscore("alice", 100);
    let r = sb.update_highscore("alice", 50);
    assert_eq!(r, ScoreUpdated::NotImproved);
    assert_eq!(sb.highscores.len(), 1);
    assert_eq!(sb.highscores[0].score, 100);
}

#[test]
fn equal_score_does_not_improve() {
    let mut sb = board();
    sb.update_highscore("alice", 100);
    let r = sb.update_highscore("alice", 100);
    assert_eq!(r, ScoreUpdated::NotImproved);
}

#[test]
fn higher_score_replaces_the_entry() {
    let mut sb = board();
    sb.update_highscore("alice", 100);
    let r = sb.update_highscore("alice", 150);
    assert_eq!(r, ScoreUpdated::NewHighScore);
    assert_eq!(sb.highscores.len(), 1);
    assert_eq!(sb.highscores[0].score, 150);
}

#[test]
fn entries_are_sorted_best_first() {
    let mut sb = board();
    sb.update_highscore("low", 10);
    sb.update_highscore("high", 300);
    sb.update_highscore("mid", 50);
    let scores: Vec<i32> = sb.highscores.iter().map(|h| h.score).collect();
    assert_eq!(scores, vec![300, 50, 10]);
    assert_eq!(sb.formatted_highscores, "high: 300;mid: 50;low: 10");
}

#[test]
fn empty_username_becomes_unknown() {
    let mut sb = board();
    sb.update_highscore("", 42);
    assert_eq!(sb.highscores[0].username, "unknown");
}

#[test]
fn nul_characters_are_stripped_from_names() {
    // Graphical front ends hand over NUL-padded text buffers; the board
    // stores and queries the cleaned name.
    let mut sb = board();
    sb.update_highscore("al\0ice\0\0", 42);
    assert_eq!(sb.highscores[0].username, "alice");
    assert_eq!(sb.get_users_highscore("alice\0\0\0"), 42);
    assert_eq!(sb.formatted_highscores, "alice: 42");
}

#[test]
fn all_nul_username_becomes_unknown() {
    let mut sb = board();
    sb.update_highscore("\0\0\0", 7);
    assert_eq!(sb.highscores[0].username, "unknown");
}

#[test]
fn format_strips_nul_from_stored_entries() {
    let mut sb = ScoreBoard::new(vec![HighScore { username: "a\0b".to_string(), score: 3 }]);
    sb.format_highscores(";");
    assert_eq!(sb.formatted_highscores, "ab: 3");
}

#[test]
fn format_with_custom_delimiter() {
    let mut sb = ScoreBoard::new(vec![
        HighScore { username: "a".to_string(), score: 1 },
        HighScore { username: "b".to_string(), score: 2 },
    ]);
    sb.format_highscores(" | ");
    assert_eq!(sb.formatted_highscores, "a: 1 | b: 2");
}

#[test]
fn negative_scores_format_with_sign() {
    let mut sb = board();
    sb.update_highscore("debt", -5);
    assert_eq!(sb.formatted_highscores, "debt: -5");
}

#[test]
fn get_users_highscore_finds_or_defaults() {
    let mut sb = board();
    sb.update_highscore("alice", 100);
    sb.update_highscore("bob", 70);
    assert_eq!(sb.get_users_highscore("alice"), 100);
    assert_eq!(sb.get_users_highscore("bob"), 70);
    assert_eq!(sb.get_users_highscore("carol"), 0);
}

#[test]
fn render_writes_one_line_per_entry() {
    let sb = ScoreBoard::new(vec![
        HighScore { username: "a".to_string(), score: 1 },
        HighScore { username: "b".to_string(), score: 23 },
    ]);
    assert_eq!(sb.render_highscores(), "a: 1\nb: 23\n");
}

#[test]
fn parse_reads_a_stored_line() {
    let h = parse_highscore_line("bob: 42").unwrap();
    assert_eq!(h.username, "bob");
    assert_eq!(h.score, 42);
}

#[test]
fn parse_takes_the_first_separator() {
    let h = parse_highscore_line("a: b: 5");
    // The remainder "b: 5" is not an integer, so the line denotes nothing.
    assert!(h.is_none());
}

#[test]
fn parse_rejects_malformed_lines() {
    assert!(parse_highscore_line("no separator").is_none());
    assert!(parse_highscore_line("x: 12a").is_none());
    assert!(parse_highscore_line("x: ").is_none());
    assert!(parse_highscore_line("x: 99999999999").is_none());
    assert!(parse_highscore_line("").is_none());
}

#[test]
fn parse_accepts_negative_scores() {
    let h = parse_highscore_line("x: -7").unwrap();
    assert_eq!(h.score, -7);
}

#[test]
fn parse_i32_range_edges() {
    assert_eq!(parse_i32("2147483647"), Some(i32::MAX));
    assert_eq!(parse_i32("2147483648"), None);
    assert_eq!(parse_i32("-2147483648"), Some(i32::MIN));
    assert_eq!(parse_i32("-2147483649"), None);
    assert_eq!(parse_i32("0"), Some(0));
    assert_eq!(parse_i32("007"), Some(7));
    assert_eq!(parse_i32("-"), None);
    assert_eq!(parse_i32(""), None);
}

#[test]
fn render_and_parse_round_trip() {
    let sb = ScoreBoard::new(vec![
        HighScore { username: "alice".to_string(), score: 300 },
        HighScore { username: "bob".to_string(), score: -12 },
        HighScore { username: "unknown".to_string(), score: 0 },
    ]);
    let stored = sb.render_highscores();
    let parsed: Vec<HighScore> = stored
        .lines()
        .map(|line| parse_highscore_line(line).unwrap())
        .collect();
    assert_eq!(parsed.len(), 3);
    for (orig, back) in sb.highscores.iter().zip(parsed.iter()) {
        assert_eq!(orig.username, back.username);
        assert_eq!(orig.score, back.score);
    }
}

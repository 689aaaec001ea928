use d1_driver::splitter::{chars_of, lex_step, split_unprepared_sql, LexState};

#[test]
fn doubled_quote_does_not_end_string() {
    let r = split_unprepared_sql("SELECT 'it''s; fine'; SELECT 2;");
    assert_eq!(r, vec!["SELECT 'it''s; fine'", " SELECT 2"]);
}

#[test]
fn semicolon_in_line_comment_does_not_split() {
    let r = split_unprepared_sql("-- comment with ; inside\nSELECT 1;");
    assert_eq!(r.len(), 1);
    assert!(r[0].contains("SELECT 1"));
    assert_eq!(r[0], "-- comment with ; inside\nSELECT 1");
}

#[test]
fn empty_statement_between_semicolons_is_dropped() {
    let r = split_unprepared_sql("SELECT 1;;SELECT 2;");
    assert_eq!(r, vec!["SELECT 1", "SELECT 2"]);
}

#[test]
fn whitespace_only_gives_nothing() {
    assert!(split_unprepared_sql("").is_empty());
    assert!(split_unprepared_sql("  \n\t ").is_empty());
    assert!(split_unprepared_sql(" ; ;\n;").is_empty());
    assert!(split_unprepared_sql("\u{a0}\u{3000}").is_empty());
}

#[test]
fn comments_only_give_nothing() {
    assert!(split_unprepared_sql("-- just a note").is_empty());
    assert!(split_unprepared_sql("/* a; b */ \n -- c; d\n").is_empty());
}

#[test]
fn comment_only_pieces_are_kept_beside_statements() {
    assert_eq!(split_unprepared_sql("/* one */; -- two\n;"), vec!["/* one */", " -- two\n"]);
    assert_eq!(split_unprepared_sql("a;--"), vec!["a", "--"]);
    assert_eq!(split_unprepared_sql("a;--;"), vec!["a", "--;"]);
    assert_eq!(split_unprepared_sql("SELECT 1; -- done"), vec!["SELECT 1", " -- done"]);
}

#[test]
fn no_semicolon_gives_whole_text() {
    assert_eq!(split_unprepared_sql("  SELECT 1 "), vec!["  SELECT 1 "]);
    assert_eq!(split_unprepared_sql("SELECT 'a' -- b"), vec!["SELECT 'a' -- b"]);
}

#[test]
fn semicolons_inside_literals_and_comments_do_not_split() {
    let r = split_unprepared_sql("SELECT ';' AS \"a;b\" /* x; y */ FROM t -- z; w");
    assert_eq!(r.len(), 1);
    let r = split_unprepared_sql("INSERT INTO t VALUES ('a;b'); SELECT \"c\"\"d;\" FROM t");
    assert_eq!(r, vec!["INSERT INTO t VALUES ('a;b')", " SELECT \"c\"\"d;\" FROM t"]);
}

#[test]
fn line_comment_ends_at_newline() {
    let r = split_unprepared_sql("SELECT 1 -- a\n; SELECT 2");
    assert_eq!(r, vec!["SELECT 1 -- a\n", " SELECT 2"]);
}

#[test]
fn unterminated_block_comment_absorbs_rest() {
    let r = split_unprepared_sql("SELECT 1; SELECT 2 /* ; SELECT 3");
    assert_eq!(r, vec!["SELECT 1", " SELECT 2 /* ; SELECT 3"]);
}

#[test]
fn unterminated_string_absorbs_rest() {
    let r = split_unprepared_sql("SELECT 'a; SELECT 2");
    assert_eq!(r, vec!["SELECT 'a; SELECT 2"]);
}

#[test]
fn non_ascii_text_is_kept() {
    let r = split_unprepared_sql("SELECT 'é;ü'; SELECT '日本'");
    assert_eq!(r, vec!["SELECT 'é;ü'", " SELECT '日本'"]);
}

#[test]
fn chars_of_gives_each_character() {
    assert_eq!(chars_of("aé;"), vec!['a', 'é', ';']);
}

#[test]
fn lex_step_moves() {
    let s: Vec<char> = "--x".chars().collect();
    assert_eq!(lex_step(&s, 0, LexState::Normal), (LexState::LineComment, 2, LexState::LineComment));
    let s: Vec<char> = "''".chars().collect();
    assert_eq!(lex_step(&s, 0, LexState::SingleQuote), (LexState::SingleQuote, 2, LexState::SingleQuote));
    assert_eq!(lex_step(&s, 1, LexState::SingleQuote), (LexState::Normal, 1, LexState::SingleQuote));
    let s: Vec<char> = "*/".chars().collect();
    assert_eq!(lex_step(&s, 0, LexState::BlockComment), (LexState::Normal, 2, LexState::BlockComment));
    let s: Vec<char> = "\n".chars().collect();
    assert_eq!(lex_step(&s, 0, LexState::LineComment), (LexState::Normal, 1, LexState::LineComment));
}

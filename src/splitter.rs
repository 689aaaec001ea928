use vstd::prelude::*;
use vstd::string::StrSliceExecFns;

verus! {

broadcast use vstd::string::group_string_axioms;

/// The lexical states of the statement scanner.
#[derive(Clone, Copy, Debug, PartialEq, Eq, Structural)]
pub enum LexState {
    Normal,
    SingleQuote,
    DoubleQuote,
    LineComment,
    BlockComment,
}

/// Unicode `White_Space`, the set that `str::trim` strips.
pub open spec fn is_white_space(c: char) -> bool {
    ('\u{9}' <= c && c <= '\u{d}') || c == ' ' || c == '\u{85}' || c == '\u{a0}'
        || c == '\u{1680}' || ('\u{2000}' <= c && c <= '\u{200a}') || c == '\u{2028}'
        || c == '\u{2029}' || c == '\u{202f}' || c == '\u{205f}' || c == '\u{3000}'
}

/// Whether `s[i]` and `s[i + 1]` are `a` and `b`.
pub open spec fn pair_at(s: Seq<char>, i: int, a: char, b: char) -> bool {
    0 <= i && i + 1 < s.len() && s[i] == a && s[i + 1] == b
}

/// One move of the scanner at position `i` in state `st`: the next state, how many
/// characters the move consumes, and the state in which those characters are read.
/// Comment openers are read as part of the comment they open.
pub open spec fn step(s: Seq<char>, i: int, st: LexState) -> (LexState, int, LexState) {
    match st {
        LexState::Normal => {
            if s[i] == '\'' {
                (LexState::SingleQuote, 1, LexState::Normal)
            } else if s[i] == '"' {
                (LexState::DoubleQuote, 1, LexState::Normal)
            } else if pair_at(s, i, '-', '-') {
                (LexState::LineComment, 2, LexState::LineComment)
            } else if pair_at(s, i, '/', '*') {
                (LexState::BlockComment, 2, LexState::BlockComment)
            } else {
                (LexState::Normal, 1, LexState::Normal)
            }
        },
        LexState::SingleQuote => {
            if pair_at(s, i, '\'', '\'') {
                (LexState::SingleQuote, 2, LexState::SingleQuote)
            } else if s[i] == '\'' {
                (LexState::Normal, 1, LexState::SingleQuote)
            } else {
                (LexState::SingleQuote, 1, LexState::SingleQuote)
            }
        },
        LexState::DoubleQuote => {
            if pair_at(s, i, '"', '"') {
                (LexState::DoubleQuote, 2, LexState::DoubleQuote)
            } else if s[i] == '"' {
                (LexState::Normal, 1, LexState::DoubleQuote)
            } else {
                (LexState::DoubleQuote, 1, LexState::DoubleQuote)
            }
        },
        LexState::LineComment => {
            if s[i] == '\n' {
                (LexState::Normal, 1, LexState::LineComment)
            } else {
                (LexState::LineComment, 1, LexState::LineComment)
            }
        },
        LexState::BlockComment => {
            if pair_at(s, i, '*', '/') {
                (LexState::Normal, 2, LexState::BlockComment)
            } else {
                (LexState::BlockComment, 1, LexState::BlockComment)
            }
        },
    }
}

/// The state in which each character from position `i` on is read, scanning from state `st`.
pub open spec fn lex_from(s: Seq<char>, i: int, st: LexState) -> Seq<LexState>
    decreases s.len() - i,
{
    if i < 0 || i >= s.len() {
        Seq::empty()
    } else {
        let (next, width, read_in) = step(s, i, st);
        Seq::new(width as nat, |_k: int| read_in) + lex_from(s, i + width, next)
    }
}

/// The state in which each character of `s` is read by a scan from the start.
pub open spec fn lex_states(s: Seq<char>) -> Seq<LexState> {
    lex_from(s, 0, LexState::Normal)
}

/// A semicolon read outside any quoted string, quoted identifier or comment.
pub open spec fn is_split_point(s: Seq<char>, j: int) -> bool {
    0 <= j < s.len() && s[j] == ';' && lex_states(s)[j] == LexState::Normal
}

/// A character read outside quotes and comments that is not whitespace (an opening
/// quote and a separator count): text without one is only whitespace and comments.
pub open spec fn is_content(s: Seq<char>, j: int) -> bool {
    0 <= j < s.len() && lex_states(s)[j] == LexState::Normal && !is_white_space(s[j])
}

/// Whether `s[start..end]` holds a content character.
pub open spec fn has_content(s: Seq<char>, start: int, end: int) -> bool
    decreases end - start,
{
    if end <= start {
        false
    } else {
        has_content(s, start, end - 1) || is_content(s, end - 1)
    }
}

/// Whether `s[start..end]` is non-blank: something is left of it after trimming whitespace.
pub open spec fn has_text(s: Seq<char>, start: int, end: int) -> bool
    decreases end - start,
{
    if end <= start {
        false
    } else {
        has_text(s, start, end - 1) || !is_white_space(s[end - 1])
    }
}

/// The non-blank pieces of `s` between split points, for a piece that began at `start`
/// and has been scanned up to `i`.
pub open spec fn pieces_from(s: Seq<char>, start: int, i: int) -> Seq<Seq<char>>
    decreases s.len() - i,
{
    if i >= s.len() {
        if has_text(s, start, s.len() as int) {
            seq![s.subrange(start, s.len() as int)]
        } else {
            Seq::empty()
        }
    } else if is_split_point(s, i) {
        let rest = pieces_from(s, i + 1, i + 1);
        if has_text(s, start, i) {
            seq![s.subrange(start, i)] + rest
        } else {
            rest
        }
    } else {
        pieces_from(s, start, i + 1)
    }
}

/// The statements of `s`, in order: the text between split points, pieces that are
/// whitespace only dropped. Text made only of whitespace and comments holds none.
pub open spec fn statements(s: Seq<char>) -> Seq<Seq<char>> {
    if has_content(s, 0, s.len() as int) {
        pieces_from(s, 0, 0)
    } else {
        Seq::empty()
    }
}

pub proof fn lemma_lex_from_len(s: Seq<char>, i: int, st: LexState)
    requires
        0 <= i <= s.len(),
    ensures
        lex_from(s, i, st).len() == s.len() - i,
    decreases s.len() - i,
{
    if i < s.len() {
        let (next, width, read_in) = step(s, i, st);
        lemma_lex_from_len(s, i + width, next);
    }
}

fn white_space(c: char) -> (r: bool)
    ensures
        r == is_white_space(c),
{
    ('\u{9}' <= c && c <= '\u{d}') || c == ' ' || c == '\u{85}' || c == '\u{a0}'
        || c == '\u{1680}' || ('\u{2000}' <= c && c <= '\u{200a}') || c == '\u{2028}'
        || c == '\u{2029}' || c == '\u{202f}' || c == '\u{205f}' || c == '\u{3000}'
}

fn pair_at_exec(s: &Vec<char>, i: usize, a: char, b: char) -> (r: bool)
    requires
        i < s@.len(),
    ensures
        r == pair_at(s@, i as int, a, b),
{
    s.len() - i > 1 && s[i] == a && s[i + 1] == b
}

/// One move of the scanner (see `step`).
pub fn lex_step(s: &Vec<char>, i: usize, st: LexState) -> (r: (LexState, usize, LexState))
    requires
        i < s@.len(),
    ensures
        (r.0, r.1 as int, r.2) == step(s@, i as int, st),
{
    match st {
        LexState::Normal => {
            if s[i] == '\'' {
                (LexState::SingleQuote, 1, LexState::Normal)
            } else if s[i] == '"' {
                (LexState::DoubleQuote, 1, LexState::Normal)
            } else if pair_at_exec(s, i, '-', '-') {
                (LexState::LineComment, 2, LexState::LineComment)
            } else if pair_at_exec(s, i, '/', '*') {
                (LexState::BlockComment, 2, LexState::BlockComment)
            } else {
                (LexState::Normal, 1, LexState::Normal)
            }
        },
        LexState::SingleQuote => {
            if pair_at_exec(s, i, '\'', '\'') {
                (LexState::SingleQuote, 2, LexState::SingleQuote)
            } else if s[i] == '\'' {
                (LexState::Normal, 1, LexState::SingleQuote)
            } else {
                (LexState::SingleQuote, 1, LexState::SingleQuote)
            }
        },
        LexState::DoubleQuote => {
            if pair_at_exec(s, i, '"', '"') {
                (LexState::DoubleQuote, 2, LexState::DoubleQuote)
            } else if s[i] == '"' {
                (LexState::Normal, 1, LexState::DoubleQuote)
            } else {
                (LexState::DoubleQuote, 1, LexState::DoubleQuote)
            }
        },
        LexState::LineComment => {
            if s[i] == '\n' {
                (LexState::Normal, 1, LexState::LineComment)
            } else {
                (LexState::LineComment, 1, LexState::LineComment)
            }
        },
        LexState::BlockComment => {
            if pair_at_exec(s, i, '*', '/') {
                (LexState::Normal, 2, LexState::BlockComment)
            } else {
                (LexState::BlockComment, 1, LexState::BlockComment)
            }
        },
    }
}

/// The characters of `sql`, in order.
pub fn chars_of(sql: &str) -> (r: Vec<char>)
    ensures
        r@ == sql@,
{
    let mut out: Vec<char> = Vec::new();
    for c in it: sql.chars()
        invariant
            it.seq() == sql@,
            out@ == it.seq().take(it.index() as int),
    {
        out.push(c);
    }
    proof {
        assert(out@ =~= sql@);
    }
    out
}


proof fn lemma_lex_prefix(s: Seq<char>, done: Seq<LexState>, i: int, st: LexState)
    requires
        0 <= i < s.len(),
        done.len() == i,
        lex_states(s) == done + lex_from(s, i, st),
    ensures
        ({
            let (next, width, read_in) = step(s, i, st);
            &&& lex_states(s) == (done + Seq::new(width as nat, |_k: int| read_in)) + lex_from(
                s,
                i + width,
                next,
            )
            &&& lex_states(s)[i] == read_in
            &&& width == 2 ==> lex_states(s)[i + 1] == read_in
        }),
{
    let (next, width, read_in) = step(s, i, st);
    let mid = Seq::new(width as nat, |_k: int| read_in);
    let rest = lex_from(s, i + width, next);
    assert(lex_from(s, i, st) == mid + rest);
    assert(done + (mid + rest) =~= (done + mid) + rest);
    assert((done + mid + rest)[i] == mid[0]);
    if width == 2 {
        assert((done + mid + rest)[i + 1] == mid[1]);
    }
}

/// Splits `sql` into its statements, in source order. A statement is the text between
/// two semicolons that stand outside quoted strings, quoted identifiers and comments;
/// pieces that are whitespace only are dropped, and text made only of whitespace and
/// comments gives no statement.
pub fn split_unprepared_sql<'a>(sql: &'a str) -> (r: Vec<&'a str>)
    ensures
        r@.len() == statements(sql@).len(),
        forall|k: int| 0 <= k < r@.len() ==> #[trigger] r@[k]@ == statements(sql@)[k],
{
    let chars = chars_of(sql);
    let n = chars.len();
    let ghost s = sql@;
    let mut st = LexState::Normal;
    let mut start: usize = 0;
    let mut i: usize = 0;
    let mut text = false;
    let mut any_content = false;
    let mut out: Vec<&'a str> = Vec::new();
    let ghost mut done: Seq<LexState> = Seq::empty();
    let ghost mut found: Seq<Seq<char>> = Seq::empty();
    proof {
        assert(done + lex_from(s, 0, LexState::Normal) =~= lex_from(s, 0, LexState::Normal));
        assert(found + pieces_from(s, 0, 0) =~= pieces_from(s, 0, 0));
    }
    while i < n
        invariant
            chars@ == s,
            s == sql@,
            n == s.len(),
            start <= i <= n,
            done.len() == i,
            lex_states(s) == done + lex_from(s, i as int, st),
            text == has_text(s, start as int, i as int),
            any_content == has_content(s, 0, i as int),
            pieces_from(s, 0, 0) == found + pieces_from(s, start as int, i as int),
            out@.len() == found.len(),
            forall|k: int| 0 <= k < out@.len() ==> #[trigger] out@[k]@ == found[k],
        decreases n - i,
    {
        let (next, width, read_in) = lex_step(&chars, i, st);
        proof {
            lemma_lex_prefix(s, done, i as int, st);
            lemma_lex_from_len(s, i as int + width, next);
        }
        if read_in == LexState::Normal && !white_space(chars[i]) {
            any_content = true;
        }
        proof {
            assert(has_content(s, 0, i + 1) == (has_content(s, 0, i as int) || is_content(s, i as int)));
            if width == 2 {
                assert(!is_content(s, i + 1));
                assert(has_content(s, 0, i + 2) == has_content(s, 0, i + 1));
            }
        }
        if read_in == LexState::Normal && chars[i] == ';' {
            let ghost old_found = found;
            if text {
                out.push(sql.substring_char(start, i));
                proof {
                    found = found.push(s.subrange(start as int, i as int));
                }
            }
            proof {
                assert(is_split_point(s, i as int));
                if text {
                    assert(old_found + (seq![s.subrange(start as int, i as int)] + pieces_from(
                        s,
                        i + 1,
                        i + 1,
                    )) =~= found + pieces_from(s, i + 1, i + 1));
                } else {
                    assert(found + pieces_from(s, start as int, i as int) == found + pieces_from(s, i + 1, i + 1));
                }
            }
            start = i + 1;
            text = false;
        } else {
            if !white_space(chars[i]) || (width == 2 && !white_space(chars[i + 1])) {
                text = true;
            }
            proof {
                assert(!is_split_point(s, i as int));
                assert(pieces_from(s, start as int, i as int) == pieces_from(s, start as int, i + 1));
                assert(has_text(s, start as int, i + 1) == (has_text(s, start as int, i as int) || !is_white_space(s[i as int])));
                if width == 2 {
                    assert(!is_split_point(s, i + 1));
                    assert(pieces_from(s, start as int, i + 1) == pieces_from(s, start as int, i + 2));
                    assert(has_text(s, start as int, i + 2) == (has_text(s, start as int, i + 1) || !is_white_space(s[i + 1])));
                }
            }
        }
        proof {
            done = done + Seq::new(width as nat, |_k: int| read_in);
        }
        i = i + width;
        st = next;
    }
    proof {
        lemma_lex_from_len(s, i as int, st);
    }
    if text {
        let ghost old_found = found;
        out.push(sql.substring_char(start, n));
        proof {
            found = found.push(s.subrange(start as int, n as int));
            assert(found =~= old_found + pieces_from(s, start as int, i as int));
        }
    } else {
        proof {
            assert(found =~= found + pieces_from(s, start as int, i as int));
        }
    }
    if any_content {
        out
    } else {
        Vec::new()
    }
}

/// Whether every character of `s` read outside quotes and comments is whitespace:
/// the text holds nothing but whitespace and comments.
pub open spec fn only_whitespace_and_comments(s: Seq<char>) -> bool {
    forall|j: int|
        0 <= j < s.len() && #[trigger] lex_states(s)[j] == LexState::Normal ==> is_white_space(
            s[j],
        )
}

proof fn lemma_no_content(s: Seq<char>, start: int, end: int)
    requires
        forall|j: int| start <= j < end ==> !#[trigger] is_content(s, j),
    ensures
        !has_content(s, start, end),
    decreases end - start,
{
    if end > start {
        lemma_no_content(s, start, end - 1);
    }
}

proof fn lemma_content_is_text(s: Seq<char>, start: int, end: int)
    requires
        has_content(s, start, end),
    ensures
        has_text(s, start, end),
    decreases end - start,
{
    if end > start && has_content(s, start, end - 1) {
        lemma_content_is_text(s, start, end - 1);
    }
}

proof fn lemma_no_split_one_piece(s: Seq<char>, start: int, i: int)
    requires
        0 <= start <= i <= s.len(),
        forall|j: int| i <= j < s.len() ==> !is_split_point(s, j),
    ensures
        pieces_from(s, start, i) == (if has_text(s, start, s.len() as int) {
            seq![s.subrange(start, s.len() as int)]
        } else {
            Seq::empty()
        }),
    decreases s.len() - i,
{
    if i < s.len() {
        assert(!is_split_point(s, i));
        lemma_no_split_one_piece(s, start, i + 1);
    }
}

/// Text made of nothing but whitespace and comments holds no statement.
pub proof fn whitespace_and_comments_hold_no_statement(s: Seq<char>)
    requires
        only_whitespace_and_comments(s),
    ensures
        statements(s) == Seq::<Seq<char>>::empty(),
{
    lemma_lex_from_len(s, 0, LexState::Normal);
    assert forall|j: int| 0 <= j < s.len() implies !#[trigger] is_content(s, j) by {
        if lex_states(s)[j] == LexState::Normal {
            assert(is_white_space(s[j]));
        }
    }
    lemma_no_content(s, 0, s.len() as int);
}

/// Text without a semicolon is one statement, the whole text, unless it is made only
/// of whitespace and comments, in which case it holds none.
pub proof fn text_without_semicolon_is_one_statement(s: Seq<char>)
    requires
        !s.contains(';'),
    ensures
        statements(s) == (if only_whitespace_and_comments(s) {
            Seq::<Seq<char>>::empty()
        } else {
            seq![s]
        }),
{
    lemma_lex_from_len(s, 0, LexState::Normal);
    assert forall|j: int| 0 <= j < s.len() implies !is_split_point(s, j) by {
        if s[j] == ';' {
            assert(s.contains(';'));
        }
    }
    if only_whitespace_and_comments(s) {
        whitespace_and_comments_hold_no_statement(s);
    } else {
        let j = choose|j: int|
            0 <= j < s.len() && #[trigger] lex_states(s)[j] == LexState::Normal
                && !is_white_space(s[j]);
        assert(is_content(s, j));
        if !has_content(s, 0, s.len() as int) {
            lemma_content_at(s, 0, s.len() as int, j);
        }
        lemma_content_is_text(s, 0, s.len() as int);
        lemma_no_split_one_piece(s, 0, 0);
        assert(s.subrange(0, s.len() as int) =~= s);
    }
}

proof fn lemma_content_at(s: Seq<char>, start: int, end: int, j: int)
    requires
        start <= j < end,
        is_content(s, j),
    ensures
        has_content(s, start, end),
    decreases end - start,
{
    if j < end - 1 {
        lemma_content_at(s, start, end - 1, j);
    }
}

/// Whether the character at `k` ends a quoted string, quoted identifier or comment
/// that is open in state `st` (any quote character counts, doubled or not).
pub open spec fn may_close(s: Seq<char>, k: int, st: LexState) -> bool {
    match st {
        LexState::SingleQuote => s[k] == '\'',
        LexState::DoubleQuote => s[k] == '"',
        LexState::LineComment => s[k] == '\n',
        LexState::BlockComment => pair_at(s, k, '*', '/'),
        LexState::Normal => true,
    }
}

proof fn lemma_open_run(s: Seq<char>, i: int, j: int, st: LexState)
    requires
        0 <= i <= j < s.len(),
        st != LexState::Normal,
        forall|k: int| i <= k <= j ==> !#[trigger] may_close(s, k, st),
    ensures
        lex_from(s, i, st)[j - i] == st,
    decreases j - i,
{
    assert(!may_close(s, i, st));
    assert(step(s, i, st) == (st, 1int, st));
    lemma_lex_from_len(s, i + 1, st);
    let head = Seq::new(1, |_k: int| st);
    assert(lex_from(s, i, st) == head + lex_from(s, i + 1, st));
    if i < j {
        lemma_open_run(s, i + 1, j, st);
        assert((head + lex_from(s, i + 1, st))[j - i] == lex_from(s, i + 1, st)[j - i - 1]);
    }
}

/// Once the scanner has reached position `i` inside a quoted string, a quoted
/// identifier or a comment, no semicolon up to the character that could end it
/// splits the text.
pub proof fn semicolon_inside_open_literal_does_not_split(
    s: Seq<char>,
    i: int,
    j: int,
    st: LexState,
)
    requires
        0 <= i <= j < s.len(),
        st != LexState::Normal,
        lex_states(s) == lex_states(s).take(i) + lex_from(s, i, st),
        forall|k: int| i <= k <= j ==> !#[trigger] may_close(s, k, st),
    ensures
        !is_split_point(s, j),
{
    lemma_open_run(s, i, j, st);
    lemma_lex_from_len(s, 0, LexState::Normal);
    let pre = lex_states(s).take(i);
    assert((pre + lex_from(s, i, st))[j] == lex_from(s, i, st)[j - i]);
}

} // verus!

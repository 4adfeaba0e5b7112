//! Classifying one raw line: ordered matchers, first match wins, `Other` as fallback.
use vstd::prelude::*;

use crate::common::{LedgerLine, LineView, PostingLine, PostingView};
use crate::text::{all_ws, is_ws, is_ws_char, lemma_trim_empty_iff_all_ws, trim, trim_end, trim_end_of, trim_of};

verus! {

/// Why a single matcher did not accept a line: the line, and a reason.
#[derive(Debug, PartialEq, Eq)]
pub enum ParseError {
    Fail(String, String),
}

/// `r` is the failure of a matcher on `line`, for the given reason.
pub open spec fn is_failure(r: Result<LedgerLine, ParseError>, line: Seq<char>, reason: Seq<char>) -> bool {
    match r {
        Err(ParseError::Fail(l, m)) => l@ == line && m@ == reason,
        Ok(_) => false,
    }
}

/// `r` is a success that holds the classified line `v`.
pub open spec fn is_success(r: Result<LedgerLine, ParseError>, v: LineView) -> bool {
    match r {
        Ok(x) => x@ == v,
        Err(_) => false,
    }
}

/// A character that may be part of an account, commodity or amount.
pub open spec fn is_tok(c: char) -> bool {
    !is_ws(c) && c != ';'
}

/// An ASCII decimal digit.
pub open spec fn is_digit(c: char) -> bool {
    0x30 <= (c as u32) && (c as u32) <= 0x39
}

/// The end of the run of spaces that starts at `i`, looking no further than `end`.
pub open spec fn space_end(s: Seq<char>, i: int, end: int) -> int
    decreases end - i,
{
    if 0 <= i < end && s[i] == ' ' {
        space_end(s, i + 1, end)
    } else {
        i
    }
}

/// The end of the token that starts at `i`, looking no further than `end`.
pub open spec fn tok_end(s: Seq<char>, i: int, end: int) -> int
    decreases end - i,
{
    if 0 <= i < end && is_tok(s[i]) {
        tok_end(s, i + 1, end)
    } else {
        i
    }
}

/// The position of the first `;` at or after `i`, or the length of `s`.
pub open spec fn semi_pos(s: Seq<char>, i: int) -> int
    decreases s.len() - i,
{
    if 0 <= i < s.len() && s[i] != ';' {
        semi_pos(s, i + 1)
    } else {
        i
    }
}

/// The line starts with a date: four digits, `-`, two digits, `-`, two digits.
pub open spec fn is_head(s: Seq<char>) -> bool {
    &&& s.len() >= 10
    &&& is_digit(s[0]) && is_digit(s[1]) && is_digit(s[2]) && is_digit(s[3])
    &&& s[4] == '-'
    &&& is_digit(s[5]) && is_digit(s[6])
    &&& s[7] == '-'
    &&& is_digit(s[8]) && is_digit(s[9])
}

/// The token `s[g..e]` is the equality marker `=`.
pub open spec fn is_eq_marker(s: Seq<char>, g: int, e: int) -> bool {
    e == g + 1 && s[g] == '='
}

/// The line is indented by two spaces or more and its text starts with `;`.
pub open spec fn is_posting_comment(s: Seq<char>) -> bool {
    let ind = space_end(s, 0, s.len() as int);
    2 <= ind < s.len() && s[ind] == ';'
}

/// The text of an indented comment: what follows its `;`, trailing whitespace cut.
pub open spec fn posting_comment_text(s: Seq<char>) -> Seq<char> {
    trim_end(s.subrange(space_end(s, 0, s.len() as int) + 1, s.len() as int))
}

/// The posting that a line holds, if it is one.
///
/// A posting is indented by two spaces or more and starts with its account, a
/// token of characters that are neither whitespace nor `;`. The first `;` after
/// the account starts the comment, which runs to the end of the line. Before it,
/// after two spaces or more, stand one to three tokens separated by spaces:
/// an amount, after three spaces or more; a commodity and an amount (`=` and an
/// amount when the first is `=`); or `=`, a commodity and an amount. Spaces
/// alone mean that the posting has an account only. Other whitespace separates
/// nothing: a line with a tab between its fields is no posting.
///
/// This reads the line from left to right; `law_posting_of_is_posting_line`
/// states the same grammar as a layout: indentation, account, fields after
/// their runs of spaces, trailing spaces, then the comment.
pub open spec fn posting_of(s: Seq<char>) -> Option<PostingView> {
    let n = s.len() as int;
    let ind = space_end(s, 0, n);
    if !(2 <= ind < n && is_tok(s[ind])) {
        None
    } else {
        let ae = tok_end(s, ind, n);
        let account = s.subrange(ind, ae);
        let semi = semi_pos(s, ae);
        let comment = if semi < n { Some(s.subrange(semi + 1, n)) } else { None };
        let g1 = space_end(s, ae, semi);
        let e1 = tok_end(s, g1, semi);
        let g2 = space_end(s, e1, semi);
        let e2 = tok_end(s, g2, semi);
        let g3 = space_end(s, e2, semi);
        let e3 = tok_end(s, g3, semi);
        let g4 = space_end(s, e3, semi);
        if g1 == semi {
            Some(PostingView { account, equality: false, commodity: None, amount: None, comment })
        } else if g1 - ae < 2 {
            None
        } else if g2 == semi {
            if g1 - ae < 3 {
                None
            } else {
                Some(
                    PostingView {
                        account,
                        equality: false,
                        commodity: None,
                        amount: Some(s.subrange(g1, e1)),
                        comment,
                    },
                )
            }
        } else if g3 == semi {
            if is_eq_marker(s, g1, e1) {
                Some(
                    PostingView {
                        account,
                        equality: true,
                        commodity: None,
                        amount: Some(s.subrange(g2, e2)),
                        comment,
                    },
                )
            } else {
                Some(
                    PostingView {
                        account,
                        equality: false,
                        commodity: Some(s.subrange(g1, e1)),
                        amount: Some(s.subrange(g2, e2)),
                        comment,
                    },
                )
            }
        } else if g4 == semi && is_eq_marker(s, g1, e1) {
            Some(
                PostingView {
                    account,
                    equality: true,
                    commodity: Some(s.subrange(g2, e2)),
                    amount: Some(s.subrange(g3, e3)),
                    comment,
                },
            )
        } else {
            None
        }
    }
}

/// The classification of a line: the first category that matches, in order.
pub open spec fn classify(s: Seq<char>) -> LineView {
    if all_ws(s) {
        LineView::Empty
    } else if s.len() > 0 && s[0] == ';' {
        LineView::Comment(trim_end(s.drop_first()))
    } else if is_head(s) {
        LineView::TransactionHead(trim(s))
    } else if posting_of(s) is Some {
        LineView::Posting(posting_of(s)->0)
    } else if is_posting_comment(s) {
        LineView::PostingComment(posting_comment_text(s))
    } else {
        LineView::Other(s)
    }
}

fn is_tok_char(c: char) -> (r: bool)
    ensures
        r == is_tok(c),
{
    !is_ws_char(c) && c != ';'
}

fn is_digit_char(c: char) -> (r: bool)
    ensures
        r == is_digit(c),
{
    0x30 <= (c as u32) && (c as u32) <= 0x39
}

fn scan_spaces(s: &str, i: usize, end: usize) -> (r: usize)
    requires
        i <= end <= s@.len(),
    ensures
        r == space_end(s@, i as int, end as int),
        i <= r <= end,
{
    let mut j = i;
    while j < end && s.get_char(j) == ' '
        invariant
            i <= j <= end,
            end <= s@.len(),
            space_end(s@, i as int, end as int) == space_end(s@, j as int, end as int),
        decreases end - j,
    {
        j = j + 1;
    }
    j
}

fn scan_tok(s: &str, i: usize, end: usize) -> (r: usize)
    requires
        i <= end <= s@.len(),
    ensures
        r == tok_end(s@, i as int, end as int),
        i <= r <= end,
{
    let mut j = i;
    while j < end && is_tok_char(s.get_char(j))
        invariant
            i <= j <= end,
            end <= s@.len(),
            tok_end(s@, i as int, end as int) == tok_end(s@, j as int, end as int),
        decreases end - j,
    {
        j = j + 1;
    }
    j
}

fn scan_semi(s: &str, i: usize, n: usize) -> (r: usize)
    requires
        i <= n,
        n == s@.len(),
    ensures
        r == semi_pos(s@, i as int),
        i <= r <= n,
{
    let mut j = i;
    while j < n && s.get_char(j) != ';'
        invariant
            i <= j <= n,
            n == s@.len(),
            semi_pos(s@, i as int) == semi_pos(s@, j as int),
        decreases n - j,
    {
        j = j + 1;
    }
    j
}

fn fail(line: &str, reason: &str) -> (r: Result<LedgerLine, ParseError>)
    ensures
        is_failure(r, line@, reason@),
{
    Err(ParseError::Fail(line.to_owned(), reason.to_owned()))
}

/// Matches a line made of whitespace only.
pub fn parse_line_empty(line: &str) -> (r: Result<LedgerLine, ParseError>)
    ensures
        all_ws(line@) ==> is_success(r, LineView::Empty),
        !all_ws(line@) ==> is_failure(r, line@, "Not empty"@),
{
    let t = trim_of(line);
    proof {
        lemma_trim_empty_iff_all_ws(line@);
    }
    if t.as_str().unicode_len() == 0 {
        Ok(LedgerLine::Empty)
    } else {
        fail(line, "Not empty")
    }
}

/// Matches a top-level comment: a line whose first character is `;`.
pub fn parse_line_comment(line: &str) -> (r: Result<LedgerLine, ParseError>)
    ensures
        line@.len() > 0 && line@[0] == ';' ==> is_success(
            r,
            LineView::Comment(trim_end(line@.drop_first())),
        ),
        !(line@.len() > 0 && line@[0] == ';') ==> is_failure(r, line@, "Could not parse comment"@),
{
    let n = line.unicode_len();
    if n > 0 && line.get_char(0) == ';' {
        let rest = line.substring_char(1, n);
        assert(rest@ =~= line@.drop_first());
        Ok(LedgerLine::Comment(trim_end_of(rest)))
    } else {
        fail(line, "Could not parse comment")
    }
}

/// Matches a transaction head: a line that starts with a date.
pub fn parse_line_transaction_head(line: &str) -> (r: Result<LedgerLine, ParseError>)
    ensures
        is_head(line@) ==> is_success(r, LineView::TransactionHead(trim(line@))),
        !is_head(line@) ==> is_failure(r, line@, "Could not parse transaction head"@),
{
    let n = line.unicode_len();
    if n >= 10 && is_digit_char(line.get_char(0)) && is_digit_char(line.get_char(1))
        && is_digit_char(line.get_char(2)) && is_digit_char(line.get_char(3))
        && line.get_char(4) == '-' && is_digit_char(line.get_char(5)) && is_digit_char(
        line.get_char(6),
    ) && line.get_char(7) == '-' && is_digit_char(line.get_char(8)) && is_digit_char(
        line.get_char(9),
    ) {
        Ok(LedgerLine::TransactionHead(trim_of(line)))
    } else {
        fail(line, "Could not parse transaction head")
    }
}

/// Matches an indented comment: two spaces or more, then `;`.
pub fn parse_line_posting_comment(line: &str) -> (r: Result<LedgerLine, ParseError>)
    ensures
        is_posting_comment(line@) ==> is_success(
            r,
            LineView::PostingComment(posting_comment_text(line@)),
        ),
        !is_posting_comment(line@) ==> is_failure(r, line@, "Could not parse posting comment"@),
{
    let n = line.unicode_len();
    let ind = scan_spaces(line, 0, n);
    if ind >= 2 && ind < n && line.get_char(ind) == ';' {
        Ok(LedgerLine::PostingComment(trim_end_of(line.substring_char(ind + 1, n))))
    } else {
        fail(line, "Could not parse posting comment")
    }
}

fn text_between(line: &str, from: usize, to: usize) -> (r: String)
    requires
        from <= to <= line@.len(),
    ensures
        r@ == line@.subrange(from as int, to as int),
{
    line.substring_char(from, to).to_owned()
}

/// Matches a posting and takes it apart into its fields.
pub fn parse_line_posting(line: &str) -> (r: Result<LedgerLine, ParseError>)
    ensures
        posting_of(line@) is Some ==> is_success(r, LineView::Posting(posting_of(line@)->0)),
        posting_of(line@) is None ==> is_failure(r, line@, "Could not parse posting"@),
{
    let n = line.unicode_len();
    let ind = scan_spaces(line, 0, n);
    if !(ind >= 2 && ind < n && is_tok_char(line.get_char(ind))) {
        return fail(line, "Could not parse posting");
    }
    let ae = scan_tok(line, ind, n);
    let account = text_between(line, ind, ae);
    let semi = scan_semi(line, ae, n);
    let comment = if semi < n {
        Some(text_between(line, semi + 1, n))
    } else {
        None
    };
    let g1 = scan_spaces(line, ae, semi);
    if g1 == semi {
        return Ok(
            LedgerLine::Posting(
                PostingLine { account, equality: false, commodity: None, amount: None, comment },
            ),
        );
    }
    if g1 - ae < 2 {
        return fail(line, "Could not parse posting");
    }
    let e1 = scan_tok(line, g1, semi);
    let g2 = scan_spaces(line, e1, semi);
    if g2 == semi {
        if g1 - ae < 3 {
            return fail(line, "Could not parse posting");
        }
        let amount = Some(text_between(line, g1, e1));
        return Ok(
            LedgerLine::Posting(
                PostingLine { account, equality: false, commodity: None, amount, comment },
            ),
        );
    }
    let marker = e1 == g1 + 1 && line.get_char(g1) == '=';
    let e2 = scan_tok(line, g2, semi);
    let g3 = scan_spaces(line, e2, semi);
    if g3 == semi {
        let amount = Some(text_between(line, g2, e2));
        if marker {
            return Ok(
                LedgerLine::Posting(
                    PostingLine { account, equality: true, commodity: None, amount, comment },
                ),
            );
        } else {
            let commodity = Some(text_between(line, g1, e1));
            return Ok(
                LedgerLine::Posting(
                    PostingLine { account, equality: false, commodity, amount, comment },
                ),
            );
        }
    }
    let e3 = scan_tok(line, g3, semi);
    let g4 = scan_spaces(line, e3, semi);
    if g4 == semi && marker {
        let commodity = Some(text_between(line, g2, e2));
        let amount = Some(text_between(line, g3, e3));
        Ok(
            LedgerLine::Posting(
                PostingLine { account, equality: true, commodity, amount, comment },
            ),
        )
    } else {
        fail(line, "Could not parse posting")
    }
}

/// Classifies one raw line. Classification is total: a line that no category
/// matches is kept verbatim as `Other`, so the result is always `Ok`.
pub fn parse_line(line: &str) -> (r: Result<LedgerLine, ParseError>)
    ensures
        is_success(r, classify(line@)),
{
    if let Ok(x) = parse_line_empty(line) {
        return Ok(x);
    }
    if let Ok(x) = parse_line_comment(line) {
        return Ok(x);
    }
    if let Ok(x) = parse_line_transaction_head(line) {
        return Ok(x);
    }
    if let Ok(x) = parse_line_posting(line) {
        return Ok(x);
    }
    if let Ok(x) = parse_line_posting_comment(line) {
        return Ok(x);
    }
    Ok(LedgerLine::Other(line.to_owned()))
}

/// An indented line that is neither blank, a comment nor a posting: the line
/// that the strict policy refuses.
pub open spec fn is_unreadable_posting(s: Seq<char>) -> bool {
    classify(s) is Other && space_end(s, 0, s.len() as int) >= 2
}

/// Classifies one raw line under the strict policy: an indented line that no
/// category matches is refused, where `parse_line` keeps it as `Other`.
pub fn parse_line_strict(line: &str) -> (r: Result<LedgerLine, ParseError>)
    ensures
        is_unreadable_posting(line@) ==> is_failure(r, line@, "Could not parse posting"@),
        !is_unreadable_posting(line@) ==> is_success(r, classify(line@)),
{
    match parse_line(line) {
        Ok(LedgerLine::Other(x)) => {
            let n = line.unicode_len();
            if scan_spaces(line, 0, n) >= 2 {
                fail(line, "Could not parse posting")
            } else {
                Ok(LedgerLine::Other(x))
            }
        },
        r => r,
    }
}

/// What `space_end` returns: the end of a run of spaces.
pub proof fn lemma_space_end(s: Seq<char>, i: int, end: int)
    requires
        0 <= i <= end <= s.len(),
    ensures
        i <= space_end(s, i, end) <= end,
        forall|k: int| i <= k < space_end(s, i, end) ==> #[trigger] s[k] == ' ',
        space_end(s, i, end) < end ==> s[space_end(s, i, end)] != ' ',
    decreases end - i,
{
    if i < end && s[i] == ' ' {
        lemma_space_end(s, i + 1, end);
    }
}

/// What `tok_end` returns: the end of a run of token characters.
pub proof fn lemma_tok_end(s: Seq<char>, i: int, end: int)
    requires
        0 <= i <= end <= s.len(),
    ensures
        i <= tok_end(s, i, end) <= end,
        forall|k: int| i <= k < tok_end(s, i, end) ==> is_tok(#[trigger] s[k]),
        tok_end(s, i, end) < end ==> !is_tok(s[tok_end(s, i, end)]),
    decreases end - i,
{
    if i < end && is_tok(s[i]) {
        lemma_tok_end(s, i + 1, end);
    }
}

/// What `semi_pos` returns: the first `;`, or the end.
pub proof fn lemma_semi_pos(s: Seq<char>, i: int)
    requires
        0 <= i <= s.len(),
    ensures
        i <= semi_pos(s, i) <= s.len(),
        forall|k: int| i <= k < semi_pos(s, i) ==> #[trigger] s[k] != ';',
        semi_pos(s, i) < s.len() ==> s[semi_pos(s, i)] == ';',
    decreases s.len() - i,
{
    if i < s.len() && s[i] != ';' {
        lemma_semi_pos(s, i + 1);
    }
}

/// A run of token characters from `i` to `j` that nothing else extends ends at `j`.
pub proof fn lemma_tok_end_at(s: Seq<char>, i: int, j: int, end: int)
    requires
        0 <= i <= j <= end <= s.len(),
        forall|k: int| i <= k < j ==> is_tok(#[trigger] s[k]),
        j == end || !is_tok(s[j]),
    ensures
        tok_end(s, i, end) == j,
    decreases j - i,
{
    if i < j {
        lemma_tok_end_at(s, i + 1, j, end);
    }
}

/// A run of spaces from `i` to `j` that nothing else extends ends at `j`.
pub proof fn lemma_space_end_at(s: Seq<char>, i: int, j: int, end: int)
    requires
        0 <= i <= j <= end <= s.len(),
        forall|k: int| i <= k < j ==> #[trigger] s[k] == ' ',
        j == end || s[j] != ' ',
    ensures
        space_end(s, i, end) == j,
    decreases j - i,
{
    if i < j {
        lemma_space_end_at(s, i + 1, j, end);
    }
}

/// The first `;` at or after `i` is at `j` (or there is none, and `j` is the end).
pub proof fn lemma_semi_pos_at(s: Seq<char>, i: int, j: int)
    requires
        0 <= i <= j <= s.len(),
        forall|k: int| i <= k < j ==> #[trigger] s[k] != ';',
        j == s.len() || s[j] == ';',
    ensures
        semi_pos(s, i) == j,
    decreases j - i,
{
    if i < j {
        lemma_semi_pos_at(s, i + 1, j);
    }
}

} // verus!

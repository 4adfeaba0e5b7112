//! Rendering a classified line back to canonical text.
use vstd::prelude::*;

use crate::common::{opt_view, LedgerLine, LineView, PostingLine, PostingView};
use crate::parse::{classify, is_success, parse_line};
use crate::text::{pad_left, pad_right, push_spaces, trim_end, trim_end_of};

verus! {

/// Width of the account column; a longer account is not cut.
pub const ACCOUNT_WIDTH: usize = 70;

/// Width of the right-justified column of equality marker and commodity.
pub const COMMODITY_WIDTH: usize = 5;

/// Width of the right-justified amount column.
pub const AMOUNT_WIDTH: usize = 10;

/// The characters of an optional text, or nothing.
pub open spec fn or_empty(o: Option<Seq<char>>) -> Seq<char> {
    match o {
        Some(t) => t,
        None => Seq::empty(),
    }
}

/// The text of the commodity column: `"= "` when the posting asserts a balance,
/// then the commodity.
pub open spec fn commodity_cell(p: PostingView) -> Seq<char> {
    (if p.equality { seq!['=', ' '] } else { Seq::empty() }) + or_empty(p.commodity)
}

/// The trailing comment as rendered: `" ;"` and the comment text.
pub open spec fn comment_cell(c: Option<Seq<char>>) -> Seq<char> {
    match c {
        Some(t) => seq![' ', ';'] + t,
        None => Seq::empty(),
    }
}

/// A posting before its trailing whitespace is cut.
pub open spec fn posting_columns(p: PostingView) -> Seq<char> {
    seq![' ', ' '] + pad_right(p.account, ACCOUNT_WIDTH as int) + pad_left(
        commodity_cell(p),
        COMMODITY_WIDTH as int,
    ) + pad_left(or_empty(p.amount), AMOUNT_WIDTH as int) + comment_cell(p.comment)
}

/// The canonical text of a posting.
pub open spec fn format_posting(p: PostingView) -> Seq<char> {
    trim_end(posting_columns(p))
}

/// The canonical text of a classified line.
pub open spec fn format_spec(l: LineView) -> Seq<char> {
    match l {
        LineView::Empty => Seq::empty(),
        LineView::Comment(t) => seq![';'] + t,
        LineView::TransactionHead(t) => t,
        LineView::Posting(p) => format_posting(p),
        LineView::PostingComment(t) => seq![' ', ' ', ';'] + t,
        LineView::Other(t) => t,
    }
}

/// Appends `s`, then spaces up to `width` characters in all.
fn push_left_justified(out: &mut String, s: &str, width: usize)
    ensures
        final(out)@ == old(out)@ + pad_right(s@, width as int),
{
    let n = s.unicode_len();
    out.append(s);
    let pad: usize = if n < width { width - n } else { 0 };
    push_spaces(out, pad);
    assert(final(out)@ =~= old(out)@ + pad_right(s@, width as int));
}

/// Appends spaces, then `s`, so that `width` characters at least are added.
fn push_right_justified(out: &mut String, s: &str, width: usize)
    ensures
        final(out)@ == old(out)@ + pad_left(s@, width as int),
{
    let n = s.unicode_len();
    let pad: usize = if n < width { width - n } else { 0 };
    push_spaces(out, pad);
    out.append(s);
    assert(final(out)@ =~= old(out)@ + pad_left(s@, width as int));
}

fn format_posting_line(p: &PostingLine) -> (r: String)
    ensures
        r@ == format_posting(p@),
{
    proof {
        reveal_strlit("  ");
        reveal_strlit("= ");
        reveal_strlit(" ;");
        reveal_strlit("");
    }
    let mut out = String::new();
    out.append("  ");
    push_left_justified(&mut out, p.account.as_str(), ACCOUNT_WIDTH);
    let mut cell = String::new();
    if p.equality {
        cell.append("= ");
    }
    match &p.commodity {
        Some(c) => cell.append(c.as_str()),
        None => {},
    }
    assert(cell@ =~= commodity_cell(p@));
    push_right_justified(&mut out, cell.as_str(), COMMODITY_WIDTH);
    match &p.amount {
        Some(a) => push_right_justified(&mut out, a.as_str(), AMOUNT_WIDTH),
        None => {
            push_right_justified(&mut out, "", AMOUNT_WIDTH);
            assert(""@ =~= or_empty(p@.amount));
        },
    }
    match &p.comment {
        Some(c) => {
            out.append(" ;");
            out.append(c.as_str());
        },
        None => {},
    }
    assert(out@ =~= posting_columns(p@));
    trim_end_of(out.as_str())
}

/// Renders a classified line as canonical text.
pub fn format_line(line: &LedgerLine) -> (r: String)
    ensures
        r@ == format_spec(line@),
{
    proof {
        reveal_strlit(";");
        reveal_strlit("  ;");
    }
    match line {
        LedgerLine::Empty => String::new(),
        LedgerLine::Comment(x) => {
            let mut out = String::new();
            out.append(";");
            out.append(x.as_str());
            out
        },
        LedgerLine::TransactionHead(x) => x.clone(),
        LedgerLine::Posting(posting) => format_posting_line(posting),
        LedgerLine::PostingComment(x) => {
            let mut out = String::new();
            out.append("  ;");
            out.append(x.as_str());
            out
        },
        LedgerLine::Other(x) => x.clone(),
    }
}

/// Normalizes the lines of a file, each on its own: classify, then format.
pub fn format_lines(lines: &Vec<String>) -> (r: Vec<String>)
    ensures
        r.len() == lines.len(),
        forall|i: int| 0 <= i < lines.len() ==> #[trigger] r[i]@ == format_spec(classify(lines[i]@)),
{
    let mut out: Vec<String> = Vec::new();
    for i in 0..lines.len()
        invariant
            out.len() == i,
            forall|j: int| 0 <= j < i ==> #[trigger] out[j]@ == format_spec(classify(lines[j]@)),
    {
        let parsed = parse_line(lines[i].as_str());
        match parsed {
            Ok(x) => out.push(format_line(&x)),
            Err(_) => {},
        }
    }
    out
}

} // verus!

//! The tagged line: what one line of a ledger file is, once classified.
use vstd::prelude::*;

verus! {

/// An indented posting line, decomposed into its fields.
#[derive(PartialEq, Eq, Debug, Clone)]
pub struct PostingLine {
    pub account: String,
    pub commodity: Option<String>,
    pub equality: bool,
    pub amount: Option<String>,
    pub comment: Option<String>,
}

/// One classified line of a ledger file.
#[derive(PartialEq, Eq, Debug, Clone)]
pub enum LedgerLine {
    Empty,
    Comment(String),
    TransactionHead(String),
    Posting(PostingLine),
    PostingComment(String),
    Other(String),
}

/// The fields of a posting as character sequences.
pub struct PostingView {
    pub account: Seq<char>,
    pub equality: bool,
    pub commodity: Option<Seq<char>>,
    pub amount: Option<Seq<char>>,
    pub comment: Option<Seq<char>>,
}

/// A classified line with its text as character sequences.
pub enum LineView {
    Empty,
    Comment(Seq<char>),
    TransactionHead(Seq<char>),
    Posting(PostingView),
    PostingComment(Seq<char>),
    Other(Seq<char>),
}

/// The characters of an optional string.
pub open spec fn opt_view(o: Option<String>) -> Option<Seq<char>> {
    match o {
        Some(s) => Some(s@),
        None => None,
    }
}

impl View for PostingLine {
    type V = PostingView;

    open spec fn view(&self) -> PostingView {
        PostingView {
            account: self.account@,
            equality: self.equality,
            commodity: opt_view(self.commodity),
            amount: opt_view(self.amount),
            comment: opt_view(self.comment),
        }
    }
}

impl View for LedgerLine {
    type V = LineView;

    open spec fn view(&self) -> LineView {
        match self {
            LedgerLine::Empty => LineView::Empty,
            LedgerLine::Comment(t) => LineView::Comment(t@),
            LedgerLine::TransactionHead(t) => LineView::TransactionHead(t@),
            LedgerLine::Posting(p) => LineView::Posting(p@),
            LedgerLine::PostingComment(t) => LineView::PostingComment(t@),
            LedgerLine::Other(t) => LineView::Other(t@),
        }
    }
}

} // verus!

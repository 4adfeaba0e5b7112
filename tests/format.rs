use hlef::common::{LedgerLine, PostingLine};
use hlef::format::format_line;

fn posting(
    account: &str,
    commodity: Option<&str>,
    equality: bool,
    amount: Option<&str>,
    comment: Option<&str>,
) -> LedgerLine {
    LedgerLine::Posting(PostingLine {
        account: account.to_owned(),
        commodity: commodity.map(|x| x.to_owned()),
        equality,
        amount: amount.map(|x| x.to_owned()),
        comment: comment.map(|x| x.to_owned()),
    })
}

#[test]
fn test_it_formats_empty_line() {
    assert_eq!("".to_owned(), format_line(&LedgerLine::Empty))
}

#[test]
fn test_it_formats_comment() {
    assert_eq!(
        ";foobar".to_owned(),
        format_line(&LedgerLine::Comment("foobar".to_owned()))
    )
}

#[test]
fn test_it_formats_transaction_head() {
    assert_eq!(
        "2024-01-01 ! (T20240101-00) ; foobar".to_owned(),
        format_line(&LedgerLine::TransactionHead(
            "2024-01-01 ! (T20240101-00) ; foobar".to_owned()
        ))
    )
}

#[test]
fn test_it_formats_posting() {
    let account = "asset:foobar".to_owned();
    assert_eq!(
        "  asset:foobar".to_owned(),
        format_line(&LedgerLine::Posting(PostingLine {
            account: account.clone(),
            commodity: None,
            equality: false,
            amount: None,
            comment: None
        }))
    );
    assert_eq!(
        "  asset:foobar                                                            JPY".to_owned(),
        format_line(&LedgerLine::Posting(PostingLine {
            account: account.clone(),
            commodity: Some("JPY".to_owned()),
            equality: false,
            amount: None,
            comment: None
        }))
    );
    assert_eq!(
        "  asset:foobar                                                            JPY     10000".to_owned(),
        format_line(&LedgerLine::Posting(PostingLine {
            account: account.clone(),
            commodity: Some("JPY".to_owned()),
            equality: false,
            amount: Some("10000".to_owned()),
            comment: None
        }))
    );
    assert_eq!(
        "  asset:foobar                                                          = JPY     10000".to_owned(),
        format_line(&LedgerLine::Posting(PostingLine {
            account: account.clone(),
            commodity: Some("JPY".to_owned()),
            equality: true,
            amount: Some("10000".to_owned()),
            comment: None
        }))
    );
    assert_eq!(
        "  asset:foobar                                                          = JPY     10000 ; foo".to_owned(),
        format_line(&LedgerLine::Posting(PostingLine {
            account: account.clone(),
            commodity: Some("JPY".to_owned()),
            equality: true,
            amount: Some("10000".to_owned()),
            comment: Some(" foo".to_owned())
        }))
    );
}

#[test]
fn test_it_formats_posting_comment() {
    assert_eq!(
        "  ;foobar".to_owned(),
        format_line(&LedgerLine::PostingComment("foobar".to_owned()))
    )
}

#[test]
fn test_it_formats_other() {
    assert_eq!(
        "foobar".to_owned(),
        format_line(&LedgerLine::Other("foobar".to_owned()))
    )
}

#[test]
fn account_only_posting_has_no_padding() {
    assert_eq!(
        "  assets:cash",
        format_line(&posting("assets:cash", None, false, None, None))
    );
}

#[test]
fn full_posting_fills_the_columns() {
    let expected = format!("  assets:cash{}  JPY     10000", " ".repeat(70 - 11));
    assert_eq!(
        expected,
        format_line(&posting("assets:cash", Some("JPY"), false, Some("10000"), None))
    );
}

#[test]
fn equality_marker_fills_the_commodity_column() {
    let expected = format!("  assets:cash{}= JPY     10000", " ".repeat(70 - 11));
    assert_eq!(
        expected,
        format_line(&posting("assets:cash", Some("JPY"), true, Some("10000"), None))
    );
}

#[test]
fn posting_comment_is_appended_verbatim() {
    let expected = format!("  assets:cash{}= JPY     10000 ; foo", " ".repeat(70 - 11));
    assert_eq!(
        expected,
        format_line(&posting("assets:cash", Some("JPY"), true, Some("10000"), Some(" foo")))
    );
}

#[test]
fn long_account_overflows_without_truncation() {
    let account = "a".repeat(75);
    let expected = format!("  {}  JPY         5", account);
    assert_eq!(
        expected,
        format_line(&posting(&account, Some("JPY"), false, Some("5"), None))
    );
}

#[test]
fn long_amount_overflows_its_column() {
    let expected = format!("  x{}   = 12345678901", " ".repeat(69));
    assert_eq!(
        expected,
        format_line(&posting("x", None, true, Some("12345678901"), None))
    );
}

#[test]
fn posting_trailing_comment_whitespace_is_cut() {
    let expected = format!("  x{}                ; note", " ".repeat(69));
    assert_eq!(
        expected,
        format_line(&posting("x", None, false, None, Some(" note \t ")))
    );
}

use hlef::common::{LedgerLine, PostingLine};
use hlef::format::{format_line, format_lines};
use hlef::parse::{
    parse_line, parse_line_comment, parse_line_empty, parse_line_posting,
    parse_line_posting_comment, parse_line_transaction_head, ParseError,
};

fn classify(line: &str) -> LedgerLine {
    parse_line(line).unwrap()
}

fn normalize(line: &str) -> String {
    format_line(&classify(line))
}

#[test]
fn test_it_parses_empty_line() {
    for line in ["", "    "] {
        assert_eq!(Ok(LedgerLine::Empty), parse_line_empty(line))
    }
}

#[test]
fn test_it_parses_comment() {
    for line in [";foo", ";foo     "] {
        assert_eq!(
            Ok(LedgerLine::Comment("foo".to_owned())),
            parse_line_comment(line)
        )
    }

    assert_eq!(
        Ok(LedgerLine::Comment("".to_owned())),
        parse_line_comment(";")
    )
}

#[test]
fn test_it_parses_transaction_head() {
    for line in [
        "2024-01-01 ! (foo-bar) ; example",
        "2024-01-01 ! (foo-bar)",
        "2024-01-01 ! ; example",
        "2024-01-01 * (foo-bar) ; example",
    ] {
        assert_eq!(
            Ok(LedgerLine::TransactionHead(line.to_owned())),
            parse_line_transaction_head(line)
        )
    }
}

#[test]
fn test_it_parses_posting() {
    for line in [
        "  asset:foobar  JPY 0",
        "     asset:foobar    JPY        0      ",
    ] {
        assert_eq!(
            Ok(LedgerLine::Posting(PostingLine {
                account: "asset:foobar".to_owned(),
                commodity: Some("JPY".to_owned()),
                equality: false,
                amount: Some("0".to_owned()),
                comment: None
            })),
            parse_line_posting(line)
        )
    }

    for line in [
        "  asset:foobar  = JPY 0;example",
        "     asset:foobar  =  JPY        0      ;example",
    ] {
        assert_eq!(
            Ok(LedgerLine::Posting(PostingLine {
                account: "asset:foobar".to_owned(),
                commodity: Some("JPY".to_owned()),
                equality: true,
                amount: Some("0".to_owned()),
                comment: Some("example".to_owned())
            })),
            parse_line_posting(line)
        )
    }
}

#[test]
fn test_it_does_not_parse_transaction_head() {
    for line in ["  asset:foo  = JPY 0", "; example"] {
        assert!(parse_line_transaction_head(line).is_err())
    }
}

#[test]
fn test_it_parses_posting_comment() {
    for line in ["  ;foo", "     ;foo", "  ;foo     "] {
        assert_eq!(
            Ok(LedgerLine::PostingComment("foo".to_owned())),
            parse_line_posting_comment(line)
        )
    }
}

#[test]
fn blank_lines_classify_as_empty_and_format_to_nothing() {
    for line in ["", " ", "\t  \t", "   \u{3000}"] {
        assert_eq!(LedgerLine::Empty, classify(line));
        assert_eq!("", normalize(line));
    }
}

#[test]
fn comment_keeps_leading_and_cuts_trailing_whitespace() {
    assert_eq!(LedgerLine::Comment(" a ; b".to_owned()), classify("; a ; b  \t"));
    assert_eq!("; a ; b", normalize("; a ; b  \t"));
}

#[test]
fn transaction_head_is_kept_verbatim() {
    let line = "2024-01-01 ! (T1) ; note";
    assert_eq!(LedgerLine::TransactionHead(line.to_owned()), classify(line));
    assert_eq!(line, normalize(line));
}

#[test]
fn transaction_head_loses_trailing_whitespace() {
    assert_eq!(
        LedgerLine::TransactionHead("2024-01-01 x".to_owned()),
        classify("2024-01-01 x   ")
    );
}

#[test]
fn indented_comment_classifies_as_posting_comment() {
    assert_eq!(LedgerLine::PostingComment("note".to_owned()), classify("  ;note"));
    assert_eq!("  ;note", normalize("  ;note"));
}

#[test]
fn indented_comment_is_not_a_posting() {
    assert!(parse_line_posting("  ;note").is_err());
}

#[test]
fn unmatched_lines_pass_through_verbatim() {
    for line in ["foobar", " x", "  a  b c d e", "  \tx", "  acc 5", "2024-1-01 x"] {
        assert_eq!(LedgerLine::Other(line.to_owned()), classify(line));
        assert_eq!(line, normalize(line));
    }
}

#[test]
fn account_only_posting() {
    assert_eq!(
        LedgerLine::Posting(PostingLine {
            account: "assets:cash".to_owned(),
            commodity: None,
            equality: false,
            amount: None,
            comment: None
        }),
        classify("    assets:cash   ")
    );
    assert_eq!("  assets:cash", normalize("    assets:cash   "));
}

#[test]
fn posting_with_amount_only() {
    assert_eq!(
        LedgerLine::Posting(PostingLine {
            account: "a".to_owned(),
            commodity: None,
            equality: false,
            amount: Some("-3".to_owned()),
            comment: None
        }),
        classify("  a    -3")
    );
}

#[test]
fn posting_with_marker_and_amount_only() {
    assert_eq!(
        LedgerLine::Posting(PostingLine {
            account: "a".to_owned(),
            commodity: None,
            equality: true,
            amount: Some("7".to_owned()),
            comment: Some(" x ".to_owned())
        }),
        classify("  a  = 7 ; x ")
    );
}

#[test]
fn posting_comment_right_after_account() {
    assert_eq!(
        LedgerLine::Posting(PostingLine {
            account: "a".to_owned(),
            commodity: None,
            equality: false,
            amount: None,
            comment: Some("c".to_owned())
        }),
        classify("  a;c")
    );
}

#[test]
fn each_matcher_reports_its_reason() {
    assert_eq!(
        Err(ParseError::Fail("x".to_owned(), "Not empty".to_owned())),
        parse_line_empty("x")
    );
    assert_eq!(
        Err(ParseError::Fail("x".to_owned(), "Could not parse comment".to_owned())),
        parse_line_comment("x")
    );
    assert_eq!(
        Err(ParseError::Fail("x".to_owned(), "Could not parse transaction head".to_owned())),
        parse_line_transaction_head("x")
    );
    assert_eq!(
        Err(ParseError::Fail("x".to_owned(), "Could not parse posting".to_owned())),
        parse_line_posting("x")
    );
    assert_eq!(
        Err(ParseError::Fail("x".to_owned(), "Could not parse posting comment".to_owned())),
        parse_line_posting_comment("x")
    );
}

#[test]
fn formatting_a_posting_twice_changes_nothing() {
    for line in [
        "  asset:foobar  JPY 0",
        "     asset:foobar  =  JPY        0      ;example  ",
        "  a  = 7 ; x ",
        "  a;c",
        "  assets:cash",
    ] {
        let once = normalize(line);
        assert_eq!(once, normalize(&once));
    }
}

#[test]
fn formatted_posting_keeps_its_fields() {
    let line = "  assets:bank  = USD 12.50 ; checked  ";
    let first = classify(line);
    let again = classify(&format_line(&first));
    assert_eq!(
        LedgerLine::Posting(PostingLine {
            account: "assets:bank".to_owned(),
            commodity: Some("USD".to_owned()),
            equality: true,
            amount: Some("12.50".to_owned()),
            comment: Some(" checked".to_owned())
        }),
        again
    );
}

#[test]
fn whole_file_is_formatted_line_by_line() {
    let lines: Vec<String> = vec![
        "2024-01-01 * shop  ".to_owned(),
        "    expenses:food  JPY 500".to_owned(),
        "    assets:cash".to_owned(),
        "".to_owned(),
    ];
    let out = format_lines(&lines);
    assert_eq!(
        vec![
            "2024-01-01 * shop".to_owned(),
            format!("  expenses:food{}  JPY       500", " ".repeat(70 - 13)),
            "  assets:cash".to_owned(),
            "".to_owned(),
        ],
        out
    );
}

#[test]
fn one_space_after_long_account_reads_back_as_other() {
    let line = format!("  {}  JPYXY 5", "a".repeat(69));
    let once = normalize(&line);
    assert_eq!(format!("  {} JPYXY         5", "a".repeat(69)), once);
    assert_eq!(LedgerLine::Other(once.clone()), classify(&once));
    assert_eq!(once, normalize(&once));
}

#[test]
fn account_running_into_commodity_reads_back_differently() {
    let line = format!("  {}  JPYXY 5", "a".repeat(70));
    let once = normalize(&line);
    assert_eq!(format!("  {}JPYXY         5", "a".repeat(70)), once);
    assert_ne!(once, normalize(&once));
}

#[test]
fn account_running_into_marker_reads_back_as_other() {
    let line = format!("  {}  = JPY 5", "a".repeat(70));
    let once = normalize(&line);
    assert_eq!(LedgerLine::Other(once.clone()), classify(&once));
    assert_eq!(once, normalize(&once));
}

#[test]
fn strict_policy_refuses_unreadable_indented_lines() {
    assert_eq!(
        Err(ParseError::Fail("  acc 5".to_owned(), "Could not parse posting".to_owned())),
        hlef::parse::parse_line_strict("  acc 5")
    );
    assert_eq!(
        Ok(LedgerLine::Other(" acc 5".to_owned())),
        hlef::parse::parse_line_strict(" acc 5")
    );
    assert_eq!(
        Ok(LedgerLine::PostingComment("x".to_owned())),
        hlef::parse::parse_line_strict("  ;x")
    );
    assert_eq!(Ok(LedgerLine::Empty), hlef::parse::parse_line_strict("   "));
}

#[test]
fn only_spaces_separate_posting_fields() {
    for line in ["  a\t\tb", "  a  JPY\t5", "  a  JPY 5\t", "  a\t ;x"] {
        assert_eq!(LedgerLine::Other(line.to_owned()), classify(line));
    }
}

#[test]
fn lone_amount_needs_three_spaces() {
    assert_eq!(LedgerLine::Other("  a  b".to_owned()), classify("  a  b"));
    assert_eq!(
        LedgerLine::Posting(PostingLine {
            account: "a".to_owned(),
            commodity: None,
            equality: false,
            amount: Some("b".to_owned()),
            comment: None
        }),
        classify("  a   b")
    );
}

#[test]
fn commodity_running_into_amount_reads_back_as_other() {
    let line = format!("  {}  JPY 1234567890", "a".repeat(70));
    let once = normalize(&line);
    assert_eq!(format!("  {}  JPY1234567890", "a".repeat(70)), once);
    assert_eq!(LedgerLine::Other(once.clone()), classify(&once));
    assert_eq!(once, normalize(&once));
}

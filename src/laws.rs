//! What holds of classification and formatting together.
use vstd::prelude::*;

use crate::common::{LineView, PostingView};
use crate::format::{
    commodity_cell, comment_cell, format_posting, format_spec, or_empty, posting_columns,
    ACCOUNT_WIDTH, AMOUNT_WIDTH, COMMODITY_WIDTH,
};
use crate::parse::{
    classify, is_eq_marker, is_head, is_posting_comment, is_tok, lemma_semi_pos,
    lemma_semi_pos_at, lemma_space_end_at, lemma_tok_end, lemma_tok_end_at, lemma_space_end,
    posting_of, semi_pos, space_end, tok_end,
};
use crate::text::{
    all_ws, is_ws, lemma_trim_empty_iff_all_ws, lemma_trim_end_all_ws, lemma_trim_end_append,
    lemma_trim_end_idempotent, lemma_trim_end_min_len, pad_left, pad_right, spaces, trim, trim_end,
};

verus! {

/// A blank line classifies as `Empty`, and `Empty` renders as nothing.
pub proof fn law_blank_line(l: Seq<char>)
    requires
        trim(l).len() == 0,
    ensures
        classify(l) == LineView::Empty,
        format_spec(LineView::Empty) == Seq::<char>::empty(),
{
    lemma_trim_empty_iff_all_ws(l);
}

/// A line that starts with `;` is a comment holding the rest of the line without
/// its trailing whitespace, and renders as `;` followed by that text.
pub proof fn law_comment_line(l: Seq<char>)
    requires
        l.len() > 0,
        l[0] == ';',
    ensures
        classify(l) == LineView::Comment(trim_end(l.drop_first())),
        format_spec(classify(l)) == seq![';'] + trim_end(l.drop_first()),
{
    assert(!is_ws(l[0]));
}

/// A line that no category matches is kept as `Other` and renders unchanged.
pub proof fn law_fallback(l: Seq<char>)
    requires
        trim(l).len() != 0,
        !(l.len() > 0 && l[0] == ';'),
        !is_head(l),
        posting_of(l) is None,
        !is_posting_comment(l),
    ensures
        classify(l) == LineView::Other(l),
        format_spec(classify(l)) == l,
{
    lemma_trim_empty_iff_all_ws(l);
}

/// A non-empty run of token characters.
pub open spec fn is_token(s: Seq<char>) -> bool {
    s.len() > 0 && forall|i: int| 0 <= i < s.len() ==> is_tok(#[trigger] s[i])
}

/// The shape of every posting that classification produces: tokens where tokens
/// stand, details only together with an amount, and no bare `=` as commodity
/// without the equality marker.
pub open spec fn well_formed(p: PostingView) -> bool {
    &&& is_token(p.account)
    &&& p.commodity is Some ==> is_token(p.commodity->0)
    &&& p.amount is Some ==> is_token(p.amount->0)
    &&& (p.equality || p.commodity is Some) ==> p.amount is Some
    &&& !p.equality ==> p.commodity != Some(seq!['='])
}

/// Spaces that padding `n` characters to width `w` adds.
pub open spec fn pad_len(w: int, n: int) -> int {
    if w > n {
        w - n
    } else {
        0
    }
}

/// Spaces that the formatted posting puts between the account and the first
/// character after it.
pub open spec fn lead_gap(p: PostingView) -> int {
    let cell = commodity_cell(p);
    pad_len(ACCOUNT_WIDTH as int, p.account.len() as int) + pad_len(
        COMMODITY_WIDTH as int,
        cell.len() as int,
    ) + if cell.len() == 0 {
        pad_len(AMOUNT_WIDTH as int, or_empty(p.amount).len() as int)
    } else {
        0
    }
}

/// The formatted columns stay apart: two spaces or more after the account, and
/// one or more between a commodity and the amount. Overflowing fields can run
/// into each other and read back as other fields.
pub open spec fn columns_apart(p: PostingView) -> bool {
    p.amount is None || (lead_gap(p) >= 2 && (p.commodity is Some ==> or_empty(p.amount).len()
        < AMOUNT_WIDTH))
}

/// The posting with trailing whitespace cut from its comment.
pub open spec fn trim_comment(p: PostingView) -> PostingView {
    PostingView {
        account: p.account,
        equality: p.equality,
        commodity: p.commodity,
        amount: p.amount,
        comment: match p.comment {
            Some(c) => Some(trim_end(c)),
            None => None,
        },
    }
}

/// Every posting that classification produces is well formed.
pub proof fn lemma_posting_of_well_formed(s: Seq<char>)
    requires
        posting_of(s) is Some,
    ensures
        well_formed(posting_of(s)->0),
{
    let n = s.len() as int;
    let ind = space_end(s, 0, n);
    let ae = tok_end(s, ind, n);
    let semi = semi_pos(s, ae);
    let g1 = space_end(s, ae, semi);
    let e1 = tok_end(s, g1, semi);
    let g2 = space_end(s, e1, semi);
    let e2 = tok_end(s, g2, semi);
    let g3 = space_end(s, e2, semi);
    let e3 = tok_end(s, g3, semi);
    lemma_tok_end(s, ind, n);
    lemma_semi_pos(s, ae);
    lemma_space_end(s, ae, semi);
    lemma_tok_end(s, g1, semi);
    lemma_space_end(s, e1, semi);
    lemma_tok_end(s, g2, semi);
    lemma_space_end(s, e2, semi);
    lemma_tok_end(s, g3, semi);
    lemma_space_end(s, e3, semi);
    let p = posting_of(s)->0;
    assert(is_token(p.account)) by {
        assert(is_tok(s[ind]));
        assert forall|i: int| 0 <= i < p.account.len() implies is_tok(#[trigger] p.account[i]) by {
            assert(p.account[i] == s[ind + i]);
        }
    }
    assert forall|g: int, e: int| g < semi && #[trigger] tok_end(s, g, semi) == e && ae <= g
        && is_tok(s[g]) implies is_token(#[trigger] s.subrange(g, e)) by {
        lemma_tok_end(s, g, semi);
        assert forall|i: int| 0 <= i < e - g implies is_tok(#[trigger] s.subrange(g, e)[i]) by {
            assert(s.subrange(g, e)[i] == s[g + i]);
        }
    }
    // A gap that ends on anything but a token leaves the scan stuck short of the
    // comment, and no posting is read.
    if g1 != semi && !is_tok(s[g1]) {
        assert(e1 == g1 && g2 == g1 && e2 == g1 && g3 == g1 && e3 == g1);
        assert(space_end(s, e3, semi) == g1);
    }
    if g1 != semi && g2 != semi && !is_tok(s[g2]) {
        assert(e2 == g2 && g3 == g2 && e3 == g2);
        assert(space_end(s, e3, semi) == g2);
    }
    if g1 != semi && g2 != semi && g3 != semi && !is_tok(s[g3]) {
        assert(e3 == g3);
        assert(space_end(s, e3, semi) == g3);
    }
    if g2 != semi && g3 == semi && !is_eq_marker(s, g1, e1) {
        if s.subrange(g1, e1) == seq!['='] {
            assert(s.subrange(g1, e1)[0] == s[g1]);
        }
    }
}

/// The fields after the account, each after its run of spaces: `g1` spaces,
/// then `=` or the commodity or the amount, and so on.
pub open spec fn fields_text(p: PostingView, g1: nat, g2: nat, g3: nat) -> Seq<char> {
    let a = or_empty(p.amount);
    if p.amount is None {
        Seq::empty()
    } else if !p.equality && p.commodity is None {
        spaces(g1 as int) + a
    } else if !p.equality {
        spaces(g1 as int) + p.commodity->0 + spaces(g2 as int) + a
    } else if p.commodity is None {
        spaces(g1 as int) + seq!['='] + spaces(g2 as int) + a
    } else {
        spaces(g1 as int) + seq!['='] + spaces(g2 as int) + p.commodity->0 + spaces(g3 as int) + a
    }
}

/// The runs of spaces between the fields are long enough: three or more before
/// a lone amount, else two or more after the account and one or more between fields.
pub open spec fn gaps_fit(p: PostingView, g1: nat, g2: nat, g3: nat) -> bool {
    if p.amount is None {
        true
    } else if !p.equality && p.commodity is None {
        g1 >= 3
    } else if p.equality && p.commodity is Some {
        g1 >= 2 && g2 >= 1 && g3 >= 1
    } else {
        g1 >= 2 && g2 >= 1
    }
}

/// The comment as it stands in a line: `;` and its text.
pub open spec fn comment_text(c: Option<Seq<char>>) -> Seq<char> {
    match c {
        Some(t) => seq![';'] + t,
        None => Seq::empty(),
    }
}

/// `s` is posting `p` laid out with the given runs of spaces: indentation, the
/// account, the fields, trailing spaces, then the comment if there is one.
pub open spec fn posting_layout(
    s: Seq<char>,
    p: PostingView,
    ind: nat,
    g1: nat,
    g2: nat,
    g3: nat,
    trail: nat,
) -> bool {
    &&& ind >= 2
    &&& gaps_fit(p, g1, g2, g3)
    &&& s == spaces(ind as int) + p.account + fields_text(p, g1, g2, g3) + spaces(trail as int)
        + comment_text(p.comment)
}

/// `s` is a posting line holding `p`.
pub open spec fn is_posting_line(s: Seq<char>, p: PostingView) -> bool {
    &&& well_formed(p)
    &&& exists|ind: nat, g1: nat, g2: nat, g3: nat, trail: nat| #[trigger]
        posting_layout(s, p, ind, g1, g2, g3, trail)
}

/// Every posting that classification reads is laid out as `is_posting_line` says.
#[verifier::rlimit(100)]
pub proof fn lemma_posting_of_is_posting_line(s: Seq<char>)
    requires
        posting_of(s) is Some,
    ensures
        is_posting_line(s, posting_of(s)->0),
{
    let p = posting_of(s)->0;
    lemma_posting_of_well_formed(s);
    let n = s.len() as int;
    let ind = space_end(s, 0, n);
    let ae = tok_end(s, ind, n);
    let semi = semi_pos(s, ae);
    let g1 = space_end(s, ae, semi);
    let e1 = tok_end(s, g1, semi);
    let g2 = space_end(s, e1, semi);
    let e2 = tok_end(s, g2, semi);
    let g3 = space_end(s, e2, semi);
    let e3 = tok_end(s, g3, semi);
    lemma_space_end(s, 0, n);
    lemma_tok_end(s, ind, n);
    lemma_semi_pos(s, ae);
    lemma_space_end(s, ae, semi);
    lemma_tok_end(s, g1, semi);
    lemma_space_end(s, e1, semi);
    lemma_tok_end(s, g2, semi);
    lemma_space_end(s, e2, semi);
    lemma_tok_end(s, g3, semi);
    lemma_space_end(s, e3, semi);
    let head = spaces(ind) + s.subrange(ind, ae);
    assert(s.subrange(0, ae) =~= head);
    assert(s.subrange(semi, n) =~= comment_text(p.comment)) by {
        if semi < n {
            assert(s.subrange(semi, n) =~= seq![';'] + s.subrange(semi + 1, n));
        }
    }
    let ind_n = ind as nat;
    if g1 == semi {
        assert(s.subrange(ae, semi) =~= spaces(semi - ae));
        assert(s =~= s.subrange(0, ae) + s.subrange(ae, semi) + s.subrange(semi, n));
        assert(posting_layout(s, p, ind_n, 0, 0, 0, (semi - ae) as nat));
    } else if g2 == semi {
        assert(s.subrange(ae, semi) =~= spaces(g1 - ae) + s.subrange(g1, e1) + spaces(semi - e1));
        assert(s =~= s.subrange(0, ae) + s.subrange(ae, semi) + s.subrange(semi, n));
        assert(s =~= spaces(ind) + p.account + fields_text(p, (g1 - ae) as nat, 0, 0) + spaces(
            semi - e1,
        ) + comment_text(p.comment));
        assert(posting_layout(s, p, ind_n, (g1 - ae) as nat, 0, 0, (semi - e1) as nat));
    } else if g3 == semi {
        assert(s.subrange(ae, semi) =~= spaces(g1 - ae) + s.subrange(g1, e1) + spaces(g2 - e1)
            + s.subrange(g2, e2) + spaces(semi - e2));
        if is_eq_marker(s, g1, e1) {
            assert(s.subrange(g1, e1) =~= seq!['=']);
        }
        assert(s =~= s.subrange(0, ae) + s.subrange(ae, semi) + s.subrange(semi, n));
        assert(s =~= spaces(ind) + p.account + fields_text(p, (g1 - ae) as nat, (g2 - e1) as nat, 0)
            + spaces(semi - e2) + comment_text(p.comment));
        assert(posting_layout(s, p, ind_n, (g1 - ae) as nat, (g2 - e1) as nat, 0, (semi - e2) as nat));
    } else {
        assert(s.subrange(ae, semi) =~= spaces(g1 - ae) + s.subrange(g1, e1) + spaces(g2 - e1)
            + s.subrange(g2, e2) + spaces(g3 - e2) + s.subrange(g3, e3) + spaces(semi - e3));
        assert(s.subrange(g1, e1) =~= seq!['=']);
        assert(s =~= s.subrange(0, ae) + s.subrange(ae, semi) + s.subrange(semi, n));
        assert(s =~= spaces(ind) + p.account + fields_text(
            p,
            (g1 - ae) as nat,
            (g2 - e1) as nat,
            (g3 - e2) as nat,
        ) + spaces(semi - e3) + comment_text(p.comment));
        assert(posting_layout(
            s,
            p,
            ind_n,
            (g1 - ae) as nat,
            (g2 - e1) as nat,
            (g3 - e2) as nat,
            (semi - e3) as nat,
        ));
    }
}

/// A line laid out as posting `p` is read as `p`.
#[verifier::rlimit(100)]
proof fn lemma_posting_layout_reads(
    s: Seq<char>,
    p: PostingView,
    ind: nat,
    g1: nat,
    g2: nat,
    g3: nat,
    trail: nat,
)
    requires
        well_formed(p),
        posting_layout(s, p, ind, g1, g2, g3, trail),
    ensures
        posting_of(s) == Some(p),
{
    let n = s.len() as int;
    let acc = p.account;
    let a = or_empty(p.amount);
    let f = fields_text(p, g1, g2, g3);
    let ae: int = ind + acc.len() as int;
    let fe: int = ae + f.len() as int;
    let semi: int = fe + trail as int;
    assert(is_ws(' '));
    assert(is_tok('='));
    assert(is_tok(acc[0]));
    assert forall|k: int| 0 <= k < ind implies #[trigger] s[k] == ' ' by {
        assert(s[k] == spaces(ind as int)[k]);
    }
    assert forall|k: int| ind <= k < ae implies #[trigger] s[k] == acc[k - ind] by {}
    assert forall|k: int| ae <= k < fe implies #[trigger] s[k] == f[k - ae] by {}
    assert forall|k: int| fe <= k < semi implies #[trigger] s[k] == ' ' by {
        assert(s[k] == spaces(trail as int)[k - fe]);
    }
    assert(s.subrange(semi, n) =~= comment_text(p.comment));
    assert(semi < n ==> s[semi] == ';') by {
        if semi < n {
            assert(s[semi] == s.subrange(semi, n)[0]);
        }
    }
    lemma_space_end_at(s, 0, ind as int, n);
    assert forall|k: int| ind <= k < ae implies is_tok(#[trigger] s[k]) by {
        assert(s[k] == acc[k - ind]);
    }
    // Nothing in the fields is `;`, and they start with a space when present.
    assert forall|k: int| ae <= k < fe implies #[trigger] f[k - ae] != ';' && (k == ae ==> f[0]
        == ' ') by {
        let i = k - ae;
        if !p.equality && p.commodity is None {
            if i >= g1 {
                assert(is_tok(a[i - g1]));
            }
        } else if !p.equality {
            let c = p.commodity->0;
            if g1 <= i < g1 + c.len() {
                assert(is_tok(c[i - g1]));
            } else if i >= g1 + c.len() + g2 {
                assert(is_tok(a[i - g1 - c.len() - g2]));
            }
        } else if p.commodity is None {
            if i >= g1 + 1 + g2 {
                assert(is_tok(a[i - g1 - 1 - g2]));
            }
        } else {
            let c = p.commodity->0;
            if g1 + 1 + g2 <= i < g1 + 1 + g2 + c.len() {
                assert(is_tok(c[i - g1 - 1 - g2]));
            } else if i >= g1 + 1 + g2 + c.len() + g3 {
                assert(is_tok(a[i - g1 - 1 - g2 - c.len() - g3]));
            }
        }
    }
    assert(ae < n ==> !is_tok(s[ae]));
    lemma_tok_end_at(s, ind as int, ae, n);
    assert(s.subrange(ind as int, ae) =~= acc);
    assert forall|k: int| ae <= k < semi implies #[trigger] s[k] != ';' by {
        if k < fe {
            assert(s[k] == f[k - ae]);
        }
    }
    lemma_semi_pos_at(s, ae, semi);
    if semi < n {
        assert(s.subrange(semi + 1, n) =~= p.comment->0);
    }
    if p.amount is None {
        lemma_space_end_at(s, ae, semi, semi);
    } else {
        assert(is_tok(a[0]));
        assert(is_tok(a[a.len() - 1]));
        let ea: int = fe;
        let oa: int = fe - a.len() as int;
        assert forall|k: int| oa <= k < ea implies is_tok(#[trigger] s[k]) by {
            assert(s[k] == f[k - ae]);
            assert(f[k - ae] == a[k - oa]);
        }
        lemma_tok_end_at(s, oa, ea, semi);
        lemma_space_end_at(s, ea, semi, semi);
        assert(s.subrange(oa, ea) =~= a);
        if !p.equality && p.commodity is None {
            assert forall|k: int| ae <= k < oa implies #[trigger] s[k] == ' ' by {
                assert(s[k] == f[k - ae]);
            }
            lemma_space_end_at(s, ae, oa, semi);
        } else if !p.equality {
            let c = p.commodity->0;
            let oc: int = ae + g1 as int;
            let ec: int = oc + c.len() as int;
            assert(is_tok(c[0]));
            assert forall|k: int| ae <= k < oc implies #[trigger] s[k] == ' ' by {
                assert(s[k] == f[k - ae]);
            }
            assert forall|k: int| oc <= k < ec implies is_tok(#[trigger] s[k]) by {
                assert(s[k] == f[k - ae]);
                assert(f[k - ae] == c[k - oc]);
            }
            assert forall|k: int| ec <= k < oa implies #[trigger] s[k] == ' ' by {
                assert(s[k] == f[k - ae]);
            }
            lemma_space_end_at(s, ae, oc, semi);
            lemma_tok_end_at(s, oc, ec, semi);
            lemma_space_end_at(s, ec, oa, semi);
            assert(s.subrange(oc, ec) =~= c);
            if is_eq_marker(s, oc, ec) {
                assert(c =~= seq!['=']);
            }
        } else if p.commodity is None {
            let om: int = ae + g1 as int;
            assert forall|k: int| ae <= k < om implies #[trigger] s[k] == ' ' by {
                assert(s[k] == f[k - ae]);
            }
            assert(s[om] == f[g1 as int]);
            assert forall|k: int| om + 1 <= k < oa implies #[trigger] s[k] == ' ' by {
                assert(s[k] == f[k - ae]);
            }
            lemma_space_end_at(s, ae, om, semi);
            lemma_tok_end_at(s, om, om + 1, semi);
            lemma_space_end_at(s, om + 1, oa, semi);
        } else {
            let c = p.commodity->0;
            let om: int = ae + g1 as int;
            let oc: int = om + 1 + g2 as int;
            let ec: int = oc + c.len() as int;
            assert(is_tok(c[0]));
            assert forall|k: int| ae <= k < om implies #[trigger] s[k] == ' ' by {
                assert(s[k] == f[k - ae]);
            }
            assert(s[om] == f[g1 as int]);
            assert forall|k: int| om + 1 <= k < oc implies #[trigger] s[k] == ' ' by {
                assert(s[k] == f[k - ae]);
            }
            assert forall|k: int| oc <= k < ec implies is_tok(#[trigger] s[k]) by {
                assert(s[k] == f[k - ae]);
                assert(f[k - ae] == c[k - oc]);
            }
            assert forall|k: int| ec <= k < oa implies #[trigger] s[k] == ' ' by {
                assert(s[k] == f[k - ae]);
            }
            lemma_space_end_at(s, ae, om, semi);
            lemma_tok_end_at(s, om, om + 1, semi);
            lemma_space_end_at(s, om + 1, oc, semi);
            lemma_tok_end_at(s, oc, ec, semi);
            lemma_space_end_at(s, ec, oa, semi);
            assert(s.subrange(oc, ec) =~= c);
        }
    }
}

/// A line is read as posting `p` exactly when it is laid out as that posting:
/// indentation of two spaces or more, the account, the fields after their runs of
/// spaces, trailing spaces, then `;` and the comment if there is one.
pub proof fn law_posting_of_is_posting_line(s: Seq<char>, p: PostingView)
    ensures
        posting_of(s) == Some(p) <==> is_posting_line(s, p),
{
    if posting_of(s) == Some(p) {
        lemma_posting_of_is_posting_line(s);
    }
    if is_posting_line(s, p) {
        let (ind, g1, g2, g3, trail) = choose|ind: nat, g1: nat, g2: nat, g3: nat, trail: nat|
            posting_layout(s, p, ind, g1, g2, g3, trail);
        lemma_posting_layout_reads(s, p, ind, g1, g2, g3, trail);
    }
}

/// A formatted posting up to its comment: the account, its padding, the
/// commodity column and the amount column.
pub open spec fn posting_body(p: PostingView) -> Seq<char> {
    let cell = commodity_cell(p);
    let amt = or_empty(p.amount);
    seq![' ', ' '] + p.account + spaces(
        pad_len(ACCOUNT_WIDTH as int, p.account.len() as int) + pad_len(
            COMMODITY_WIDTH as int,
            cell.len() as int,
        ),
    ) + cell + spaces(pad_len(AMOUNT_WIDTH as int, amt.len() as int)) + amt
}

proof fn lemma_columns_are_body(p: PostingView)
    ensures
        posting_columns(p) == posting_body(p) + comment_cell(p.comment),
{
    let cell = commodity_cell(p);
    let amt = or_empty(p.amount);
    let pa = pad_len(ACCOUNT_WIDTH as int, p.account.len() as int);
    let pc = pad_len(COMMODITY_WIDTH as int, cell.len() as int);
    assert(pad_right(p.account, ACCOUNT_WIDTH as int) =~= p.account + spaces(pa));
    assert(pad_left(cell, COMMODITY_WIDTH as int) =~= spaces(pc) + cell);
    assert(spaces(pa) + spaces(pc) =~= spaces(pa + pc));
    assert(posting_columns(p) =~= posting_body(p) + comment_cell(p.comment));
}

/// Reading back a formatted posting that has an amount, whatever follows its body:
/// whitespace up to `semi`, where a comment starts or the line ends.
#[verifier::rlimit(60)]
proof fn lemma_read_details(p: PostingView, f: Seq<char>, semi: int)
    requires
        well_formed(p),
        columns_apart(p),
        p.amount is Some,
        posting_body(p).len() <= semi <= f.len(),
        f.subrange(0, posting_body(p).len() as int) == posting_body(p),
        forall|k: int| posting_body(p).len() <= k < semi ==> #[trigger] f[k] == ' ',
        semi == f.len() || f[semi] == ';',
    ensures
        posting_of(f) == Some(
            PostingView {
                account: p.account,
                equality: p.equality,
                commodity: p.commodity,
                amount: p.amount,
                comment: if semi < f.len() {
                    Some(f.subrange(semi + 1, f.len() as int))
                } else {
                    None
                },
            },
        ),
{
    let n = f.len() as int;
    let b = posting_body(p);
    let acc = p.account;
    let cell = commodity_cell(p);
    let amt = p.amount->0;
    let pa = pad_len(ACCOUNT_WIDTH as int, acc.len() as int);
    let pc = pad_len(COMMODITY_WIDTH as int, cell.len() as int);
    let pm = pad_len(AMOUNT_WIDTH as int, amt.len() as int);
    let o_gap: int = 2 + acc.len() as int;
    let o_cell: int = o_gap + pa + pc;
    let o_mid: int = o_cell + cell.len() as int;
    let o_amt: int = o_mid + pm;
    let bl: int = o_amt + amt.len() as int;
    assert(b.len() == bl);
    assert(is_ws(' '));
    assert(is_tok('='));
    assert forall|k: int| 0 <= k < bl implies #[trigger] f[k] == b[k] by {
        assert(f.subrange(0, bl)[k] == f[k]);
    }
    assert forall|k: int| 0 <= k < 2 implies #[trigger] f[k] == ' ' by {
        assert(b[k] == ' ');
    }
    assert forall|k: int| 2 <= k < o_gap implies #[trigger] f[k] == acc[k - 2] by {
        assert(b[k] == acc[k - 2]);
    }
    assert forall|k: int| o_gap <= k < o_cell implies #[trigger] f[k] == ' ' by {
        assert(b[k] == ' ');
    }
    assert forall|k: int| o_cell <= k < o_mid implies #[trigger] f[k] == cell[k - o_cell] by {
        assert(b[k] == cell[k - o_cell]);
    }
    assert forall|k: int| o_mid <= k < o_amt implies #[trigger] f[k] == ' ' by {
        assert(b[k] == ' ');
    }
    assert forall|k: int| o_amt <= k < bl implies #[trigger] f[k] == amt[k - o_amt] by {
        assert(b[k] == amt[k - o_amt]);
    }
    // The commodity column holds no `;`.
    assert forall|k: int| o_cell <= k < o_mid implies #[trigger] f[k] != ';' by {
        let i = k - o_cell;
        if p.equality {
            if i >= 2 {
                assert(cell[i] == p.commodity->0[i - 2]);
                assert(is_tok(p.commodity->0[i - 2]));
            }
        } else {
            assert(cell[i] == p.commodity->0[i]);
            assert(is_tok(p.commodity->0[i]));
        }
    }
    // The indentation, then the account.
    assert(is_tok(acc[0]));
    lemma_space_end_at(f, 0, 2, n);
    assert(f[o_gap] == ' ') by {
        if pa + pc == 0 {
            assert(cell.len() == 0);
        }
    }
    lemma_tok_end_at(f, 2, o_gap, n);
    assert(f.subrange(2, o_gap) =~= acc);
    // The comment starts at `semi`.
    assert forall|k: int| o_gap <= k < semi implies #[trigger] f[k] != ';' by {
        if o_amt <= k < bl {
            assert(is_tok(amt[k - o_amt]));
        }
    }
    lemma_semi_pos_at(f, o_gap, semi);
    // The amount, and whitespace after it.
    assert(is_tok(amt[0]));
    lemma_tok_end_at(f, o_amt, bl, semi);
    lemma_space_end_at(f, bl, semi, semi);
    assert(f.subrange(o_amt, bl) =~= amt);
    if !p.equality && p.commodity is None {
        assert(cell =~= Seq::<char>::empty());
        lemma_space_end_at(f, o_gap, o_amt, semi);
    } else if !p.equality {
        let c = p.commodity->0;
        assert(cell =~= c);
        assert(is_tok(c[0]));
        lemma_space_end_at(f, o_gap, o_cell, semi);
        lemma_tok_end_at(f, o_cell, o_mid, semi);
        lemma_space_end_at(f, o_mid, o_amt, semi);
        assert(f.subrange(o_cell, o_mid) =~= c);
        if is_eq_marker(f, o_cell, o_mid) {
            assert(c =~= seq!['=']);
        }
    } else if p.commodity is None {
        assert(cell =~= seq!['=', ' ']);
        lemma_space_end_at(f, o_gap, o_cell, semi);
        lemma_tok_end_at(f, o_cell, o_cell + 1, semi);
        lemma_space_end_at(f, o_cell + 1, o_amt, semi);
    } else {
        let c = p.commodity->0;
        assert(cell =~= seq!['=', ' '] + c);
        assert(is_tok(c[0]));
        lemma_space_end_at(f, o_gap, o_cell, semi);
        lemma_tok_end_at(f, o_cell, o_cell + 1, semi);
        lemma_space_end_at(f, o_cell + 1, o_cell + 2, semi);
        lemma_tok_end_at(f, o_cell + 2, o_mid, semi);
        lemma_space_end_at(f, o_mid, o_amt, semi);
        assert(f.subrange(o_cell + 2, o_mid) =~= c);
    }
}

/// Reading back a formatted posting that has an account only.
proof fn lemma_read_account_only(p: PostingView, f: Seq<char>, semi: int)
    requires
        well_formed(p),
        p.amount is None,
        2 + p.account.len() <= semi <= f.len(),
        f.subrange(0, 2 + p.account.len() as int) == seq![' ', ' '] + p.account,
        forall|k: int| 2 + p.account.len() <= k < semi ==> #[trigger] f[k] == ' ',
        semi == f.len() || f[semi] == ';',
    ensures
        posting_of(f) == Some(
            PostingView {
                account: p.account,
                equality: false,
                commodity: None,
                amount: None,
                comment: if semi < f.len() {
                    Some(f.subrange(semi + 1, f.len() as int))
                } else {
                    None
                },
            },
        ),
{
    let n = f.len() as int;
    let acc = p.account;
    let ae: int = 2 + acc.len() as int;
    let pre = seq![' ', ' '] + acc;
    assert(is_ws(' '));
    assert forall|k: int| 0 <= k < ae implies #[trigger] f[k] == pre[k] by {
        assert(f.subrange(0, ae)[k] == f[k]);
    }
    assert(is_tok(acc[0]));
    assert(f[2] == acc[0]);
    lemma_space_end_at(f, 0, 2, n);
    assert forall|k: int| 2 <= k < ae implies is_tok(#[trigger] f[k]) by {
        assert(f[k] == acc[k - 2]);
    }
    lemma_tok_end_at(f, 2, ae, n);
    assert(f.subrange(2, ae) =~= acc);
    assert forall|k: int| ae <= k < semi implies #[trigger] f[k] != ';' by {
        assert(f[k] == ' ');
    }
    lemma_semi_pos_at(f, ae, semi);
    lemma_space_end_at(f, ae, semi, semi);
}

#[verifier::rlimit(60)]
proof fn lemma_round_trip_with_amount_and_comment(p: PostingView, c: Seq<char>)
    requires
        well_formed(p),
        columns_apart(p),
        p.amount is Some,
        p.comment == Some(c),
    ensures
        posting_of(format_posting(p)) == Some(trim_comment(p)),
        format_posting(trim_comment(p)) == format_posting(p),
{
    let b = posting_body(p);
    let f = format_posting(p);
    let sc = seq![' ', ';'];
    lemma_columns_are_body(p);
    lemma_columns_are_body(trim_comment(p));
    assert(posting_body(trim_comment(p)) == b);
    let amt = p.amount->0;
    let bl = b.len() as int;
    assert(b.last() == amt.last());
    assert(is_tok(amt[amt.len() - 1]));
    assert((b + sc).last() == ';');
    assert(posting_columns(p) =~= (b + sc) + c);
    lemma_trim_end_append(b + sc, c);
    assert(f == (b + sc) + trim_end(c));
    assert(f.subrange(0, bl) =~= b);
    assert(f[bl] == ' ');
    assert(f[bl + 1] == ';');
    lemma_read_details(p, f, bl + 1);
    assert(f.subrange(bl + 2, f.len() as int) =~= trim_end(c));
    assert(posting_columns(trim_comment(p)) =~= (b + sc) + trim_end(c));
    lemma_trim_end_append(b + sc, trim_end(c));
    lemma_trim_end_idempotent(c);
}

proof fn lemma_round_trip_with_amount(p: PostingView)
    requires
        well_formed(p),
        columns_apart(p),
        p.amount is Some,
        p.comment is None,
    ensures
        posting_of(format_posting(p)) == Some(trim_comment(p)),
        format_posting(trim_comment(p)) == format_posting(p),
{
    let b = posting_body(p);
    let f = format_posting(p);
    lemma_columns_are_body(p);
    let amt = p.amount->0;
    let bl = b.len() as int;
    assert(b.last() == amt.last());
    assert(is_tok(amt[amt.len() - 1]));
    assert(posting_columns(p) =~= b);
    assert(f == b);
    assert(f.subrange(0, bl) =~= b);
    lemma_read_details(p, f, bl);
    assert(trim_comment(p) == p);
}

proof fn lemma_round_trip_account_only(p: PostingView)
    requires
        well_formed(p),
        p.amount is None,
    ensures
        posting_of(format_posting(p)) == Some(trim_comment(p)),
        p.comment is None ==> format_posting(p) == seq![' ', ' '] + p.account,
        format_posting(trim_comment(p)) == format_posting(p),
{
    let b = posting_body(p);
    let f = format_posting(p);
    let acc = p.account;
    let ae: int = 2 + acc.len() as int;
    let sc = seq![' ', ';'];
    lemma_columns_are_body(p);
    lemma_columns_are_body(trim_comment(p));
    assert(posting_body(trim_comment(p)) == b);
    assert(is_ws(' '));
    let pre = seq![' ', ' '] + acc;
    let m = pad_len(ACCOUNT_WIDTH as int, acc.len() as int) + pad_len(COMMODITY_WIDTH as int, 0)
        + pad_len(AMOUNT_WIDTH as int, 0);
    assert(commodity_cell(p) =~= Seq::<char>::empty());
    assert(b =~= pre + spaces(m));
    assert(pre.last() == acc.last());
    assert(is_tok(acc[acc.len() - 1]));
    match p.comment {
        Some(c) => {
            assert(posting_columns(p) =~= (pre + spaces(m) + sc) + c);
            lemma_trim_end_append(pre + spaces(m) + sc, c);
            let semi: int = ae + m + 1;
            assert(f.subrange(0, ae) =~= pre);
            assert forall|k: int| ae <= k < semi implies #[trigger] f[k] == ' ' by {
                if k < ae + m {
                    assert(f[k] == spaces(m)[k - ae]);
                }
            }
            lemma_read_account_only(p, f, semi);
            assert(f.subrange(semi + 1, f.len() as int) =~= trim_end(c));
            assert(posting_columns(trim_comment(p)) =~= (pre + spaces(m) + sc) + trim_end(c));
            lemma_trim_end_append(pre + spaces(m) + sc, trim_end(c));
            lemma_trim_end_idempotent(c);
        },
        None => {
            assert(posting_columns(p) =~= pre + spaces(m));
            lemma_trim_end_append(pre, spaces(m));
            lemma_trim_end_all_ws(spaces(m));
            assert(f =~= pre);
            assert(f.subrange(0, ae) =~= pre);
            lemma_read_account_only(p, f, ae);
        },
    }
}

/// Formatting a well-formed posting whose columns stay apart, then classifying
/// the text, gives back the same account, equality marker, commodity and amount;
/// the comment comes back without its trailing whitespace, which formatting cuts.
/// Formatting that posting again gives the same text.
pub proof fn law_posting_round_trip(p: PostingView)
    requires
        well_formed(p),
        columns_apart(p),
    ensures
        classify(format_posting(p)) == LineView::Posting(trim_comment(p)),
        format_posting(trim_comment(p)) == format_posting(p),
{
    if p.amount is Some {
        match p.comment {
            Some(c) => lemma_round_trip_with_amount_and_comment(p, c),
            None => lemma_round_trip_with_amount(p),
        }
    } else {
        lemma_round_trip_account_only(p);
    }
    let f = format_posting(p);
    let x = posting_columns(p);
    assert(x[0] == ' ');
    assert(x[2] == p.account[0]);
    assert(is_tok(p.account[0]));
    lemma_trim_end_min_len(x, 3);
    assert(f[0] == x[0]);
    assert(f[2] == x[2]);
    assert(!is_head(f));
    assert(!is_ws(f[2]));
    assert(!all_ws(f));
}

/// Spaces that the amount column puts before the amount.
pub open spec fn amount_pad(p: PostingView) -> int {
    pad_len(AMOUNT_WIDTH as int, or_empty(p.amount).len() as int)
}

/// Formatting the posting gives text that formats to itself: the columns stay
/// apart, or they touch in a way that leaves no other posting to read.
pub open spec fn format_settles(p: PostingView) -> bool {
    ||| columns_apart(p)
    ||| lead_gap(p) == 1
    ||| lead_gap(p) == 0 && (p.equality || amount_pad(p) == 1 || amount_pad(p) == 2 || (
    amount_pad(p) == 0 && p.comment is None))
    ||| lead_gap(p) == 2 && !p.equality && p.commodity is Some && amount_pad(p) == 0
}

/// An indented token followed by one space and another token is no posting and
/// no comment: the line is `Other`.
proof fn lemma_one_space_after_account(f: Seq<char>, t: int)
    requires
        2 < t,
        t + 1 < f.len(),
        f[0] == ' ',
        f[1] == ' ',
        forall|k: int| 2 <= k < t ==> is_tok(#[trigger] f[k]),
        f[t] == ' ',
        is_tok(f[t + 1]),
    ensures
        classify(f) == LineView::Other(f),
{
    let n = f.len() as int;
    assert(is_ws(' '));
    assert(is_tok(f[2]));
    lemma_space_end_at(f, 0, 2, n);
    lemma_tok_end_at(f, 2, t, n);
    lemma_semi_pos(f, t);
    let semi = semi_pos(f, t);
    assert(semi >= t + 2);
    lemma_space_end_at(f, t, t + 1, semi);
    assert(posting_of(f) is None);
    assert(!is_posting_comment(f));
    assert(!is_head(f));
    assert(!all_ws(f));
}

/// The text of a posting with an amount starts with its body.
proof fn lemma_formatted_starts_with_body(p: PostingView)
    requires
        well_formed(p),
        p.amount is Some,
    ensures
        format_posting(p).len() >= posting_body(p).len(),
        forall|k: int|
            0 <= k < posting_body(p).len() ==> #[trigger] format_posting(p)[k] == posting_body(
                p,
            )[k],
{
    let b = posting_body(p);
    let x = posting_columns(p);
    let amt = p.amount->0;
    let bl = b.len() as int;
    lemma_columns_are_body(p);
    assert(b.last() == amt.last());
    assert(is_tok(amt[amt.len() - 1]));
    assert(x[bl - 1] == b[bl - 1]);
    lemma_trim_end_min_len(x, bl);
    assert forall|k: int| 0 <= k < bl implies #[trigger] format_posting(p)[k] == b[k] by {
        assert(x[k] == b[k]);
    }
}

/// When one space only separates the account from what follows, the formatted
/// text is no posting any more: it reads back as `Other`, kept verbatim.
proof fn lemma_single_space_reads_as_other(p: PostingView)
    requires
        well_formed(p),
        p.amount is Some,
        lead_gap(p) == 1,
    ensures
        classify(format_posting(p)) == LineView::Other(format_posting(p)),
{
    let b = posting_body(p);
    let f = format_posting(p);
    let acc = p.account;
    let cell = commodity_cell(p);
    let ae: int = 2 + acc.len() as int;
    lemma_formatted_starts_with_body(p);
    assert(cell.len() > 0);
    assert(is_tok('='));
    assert forall|k: int| 2 <= k < ae implies is_tok(#[trigger] f[k]) by {
        assert(b[k] == acc[k - 2]);
    }
    assert(f[0] == b[0] && f[1] == b[1] && f[ae] == b[ae] && f[ae + 1] == b[ae + 1]);
    assert(b[ae + 1] == cell[0]);
    assert(is_tok(cell[0])) by {
        if !p.equality {
            assert(is_tok(p.commodity->0[0]));
        }
    }
    lemma_one_space_after_account(f, ae);
}

/// No space after the account, and the equality marker: the account runs into
/// the marker, and one space follows; the text reads back as `Other`.
proof fn lemma_marker_joins_account(p: PostingView)
    requires
        well_formed(p),
        p.amount is Some,
        p.equality,
        lead_gap(p) == 0,
    ensures
        classify(format_posting(p)) == LineView::Other(format_posting(p)),
{
    let b = posting_body(p);
    let f = format_posting(p);
    let acc = p.account;
    let cell = commodity_cell(p);
    let c = p.commodity->0;
    let ae: int = 2 + acc.len() as int;
    lemma_formatted_starts_with_body(p);
    assert(cell == seq!['=', ' '] + c);
    assert(is_tok('='));
    assert(is_tok(c[0]));
    assert forall|k: int| 2 <= k < ae + 1 implies is_tok(#[trigger] f[k]) by {
        if k < ae {
            assert(b[k] == acc[k - 2]);
        } else {
            assert(b[k] == cell[0]);
        }
    }
    assert(f[0] == b[0] && f[1] == b[1] && f[ae + 1] == b[ae + 1] && f[ae + 2] == b[ae + 2]);
    assert(b[ae + 1] == cell[1]);
    assert(b[ae + 2] == cell[2]);
    lemma_one_space_after_account(f, ae + 1);
}

/// No space after the account, and one before the amount: the account runs into
/// the commodity, and one space follows; the text reads back as `Other`.
proof fn lemma_commodity_joins_account(p: PostingView)
    requires
        well_formed(p),
        p.amount is Some,
        !p.equality,
        lead_gap(p) == 0,
        amount_pad(p) == 1,
    ensures
        classify(format_posting(p)) == LineView::Other(format_posting(p)),
{
    let b = posting_body(p);
    let f = format_posting(p);
    let acc = p.account;
    let c = p.commodity->0;
    let amt = p.amount->0;
    let ae: int = 2 + acc.len() as int;
    let t: int = ae + c.len() as int;
    lemma_formatted_starts_with_body(p);
    assert(commodity_cell(p) =~= c);
    assert(is_tok(amt[0]));
    assert forall|k: int| 2 <= k < t implies is_tok(#[trigger] f[k]) by {
        if k < ae {
            assert(b[k] == acc[k - 2]);
        } else {
            assert(b[k] == c[k - ae]);
        }
    }
    assert(f[0] == b[0] && f[1] == b[1] && f[t] == b[t] && f[t + 1] == b[t + 1]);
    assert(b[t + 1] == amt[0]);
    lemma_one_space_after_account(f, t);
}

/// No space anywhere and no comment: account, commodity and amount make one token,
/// read back as a posting with that account only, which formats to the same text.
proof fn lemma_all_joined(p: PostingView)
    requires
        well_formed(p),
        p.amount is Some,
        !p.equality,
        lead_gap(p) == 0,
        amount_pad(p) == 0,
        p.comment is None,
    ensures
        format_spec(classify(format_posting(p))) == format_posting(p),
{
    let b = posting_body(p);
    let f = format_posting(p);
    let acc = p.account;
    let c = p.commodity->0;
    let amt = p.amount->0;
    let whole = acc + c + amt;
    lemma_columns_are_body(p);
    assert(commodity_cell(p) =~= c);
    assert(b =~= seq![' ', ' '] + whole);
    assert(posting_columns(p) =~= b);
    assert(whole.last() == amt.last());
    assert(is_tok(amt[amt.len() - 1]));
    assert(b.last() == whole.last());
    assert(f == b);
    let q = PostingView { account: whole, equality: false, commodity: None, amount: None, comment: None };
    assert(is_token(whole)) by {
        assert forall|i: int| 0 <= i < whole.len() implies is_tok(#[trigger] whole[i]) by {
            if i < acc.len() {
                assert(whole[i] == acc[i]);
            } else if i < acc.len() + c.len() {
                assert(whole[i] == c[i - acc.len()]);
            } else {
                assert(whole[i] == amt[i - acc.len() - c.len()]);
            }
        }
    }
    lemma_round_trip_account_only(q);
    assert(trim_comment(q) == q);
    assert(format_posting(q) == f);
    assert(f[0] == ' ');
    assert(f[2] == whole[0]);
    assert(is_tok(whole[0]));
    assert(!is_head(f));
    assert(!all_ws(f));
}

/// What follows the body of a formatted posting with an amount: nothing, or
/// ` ;` and the comment.
proof fn lemma_formatted_tail(p: PostingView)
    requires
        well_formed(p),
        p.amount is Some,
    ensures
        p.comment is None ==> format_posting(p).len() == posting_body(p).len(),
        p.comment is Some ==> format_posting(p).len() >= posting_body(p).len() + 2
            && format_posting(p)[posting_body(p).len() as int] == ' ' && format_posting(p)[
            posting_body(p).len() + 1 as int] == ';',
{
    let b = posting_body(p);
    let amt = p.amount->0;
    let sc = seq![' ', ';'];
    lemma_columns_are_body(p);
    assert(b.last() == amt.last());
    assert(is_tok(amt[amt.len() - 1]));
    match p.comment {
        Some(c) => {
            assert(posting_columns(p) =~= (b + sc) + c);
            lemma_trim_end_append(b + sc, c);
            assert(format_posting(p) == (b + sc) + trim_end(c));
        },
        None => {
            assert(posting_columns(p) =~= b);
        },
    }
}

/// An indented token, two spaces, and a lone token up to the comment or the end:
/// a lone amount needs three spaces, so the line is `Other`.
proof fn lemma_two_spaces_lone_token(f: Seq<char>, t: int, u: int)
    requires
        2 < t,
        t + 2 < u <= f.len(),
        f[0] == ' ',
        f[1] == ' ',
        forall|k: int| 2 <= k < t ==> is_tok(#[trigger] f[k]),
        f[t] == ' ',
        f[t + 1] == ' ',
        forall|k: int| t + 2 <= k < u ==> is_tok(#[trigger] f[k]),
        u == f.len() || (u + 1 < f.len() && f[u] == ' ' && f[u + 1] == ';'),
    ensures
        classify(f) == LineView::Other(f),
{
    let n = f.len() as int;
    let semi: int = if u == n { n } else { u + 1 };
    assert(is_ws(' '));
    assert(is_tok(f[2]));
    assert(is_tok(f[t + 2]));
    lemma_space_end_at(f, 0, 2, n);
    lemma_tok_end_at(f, 2, t, n);
    assert forall|k: int| t <= k < semi implies #[trigger] f[k] != ';' by {}
    lemma_semi_pos_at(f, t, semi);
    lemma_space_end_at(f, t, t + 2, semi);
    lemma_tok_end_at(f, t + 2, u, semi);
    lemma_space_end_at(f, u, semi, semi);
    assert(posting_of(f) is None);
    assert(!is_posting_comment(f));
    assert(!is_head(f));
    assert(!all_ws(f));
}

/// No space after the account and two before the amount: the account runs into
/// the commodity, and the amount stands alone after two spaces; the text reads
/// back as `Other`.
proof fn lemma_commodity_joins_account_two_spaces(p: PostingView)
    requires
        well_formed(p),
        p.amount is Some,
        !p.equality,
        lead_gap(p) == 0,
        amount_pad(p) == 2,
    ensures
        classify(format_posting(p)) == LineView::Other(format_posting(p)),
{
    let b = posting_body(p);
    let f = format_posting(p);
    let acc = p.account;
    let c = p.commodity->0;
    let amt = p.amount->0;
    let ae: int = 2 + acc.len() as int;
    let t: int = ae + c.len() as int;
    let bl = b.len() as int;
    lemma_formatted_starts_with_body(p);
    lemma_formatted_tail(p);
    assert(commodity_cell(p) =~= c);
    assert forall|k: int| 2 <= k < t implies is_tok(#[trigger] f[k]) by {
        if k < ae {
            assert(b[k] == acc[k - 2]);
        } else {
            assert(b[k] == c[k - ae]);
        }
    }
    assert forall|k: int| t + 2 <= k < bl implies is_tok(#[trigger] f[k]) by {
        assert(b[k] == amt[k - t - 2]);
    }
    assert(f[0] == b[0] && f[1] == b[1] && f[t] == b[t] && f[t + 1] == b[t + 1]);
    lemma_two_spaces_lone_token(f, t, bl);
}

/// Two spaces after the account and none before the amount: commodity and amount
/// make one lone token after two spaces; the text reads back as `Other`.
proof fn lemma_commodity_joins_amount(p: PostingView)
    requires
        well_formed(p),
        p.amount is Some,
        !p.equality,
        p.commodity is Some,
        lead_gap(p) == 2,
        amount_pad(p) == 0,
    ensures
        classify(format_posting(p)) == LineView::Other(format_posting(p)),
{
    let b = posting_body(p);
    let f = format_posting(p);
    let acc = p.account;
    let c = p.commodity->0;
    let amt = p.amount->0;
    let ae: int = 2 + acc.len() as int;
    let oc: int = ae + 2;
    let bl = b.len() as int;
    lemma_formatted_starts_with_body(p);
    lemma_formatted_tail(p);
    assert(commodity_cell(p) =~= c);
    assert forall|k: int| 2 <= k < ae implies is_tok(#[trigger] f[k]) by {
        assert(b[k] == acc[k - 2]);
    }
    assert forall|k: int| oc <= k < bl implies is_tok(#[trigger] f[k]) by {
        if k < oc + c.len() {
            assert(b[k] == c[k - oc]);
        } else {
            assert(b[k] == amt[k - oc - c.len()]);
        }
    }
    assert(f[0] == b[0] && f[1] == b[1] && f[ae] == b[ae] && f[ae + 1] == b[ae + 1]);
    lemma_two_spaces_lone_token(f, ae, bl);
}

/// Formatting is idempotent on postings: classifying and formatting the canonical
/// text of a posting line gives that text again. The posting must be one whose
/// text settles; the others are those where overflowing fields run into each
/// other and read back as a different posting.
pub proof fn law_format_idempotent(l: Seq<char>, p: PostingView)
    requires
        classify(l) == LineView::Posting(p),
        format_settles(p),
    ensures
        format_spec(classify(format_spec(classify(l)))) == format_spec(classify(l)),
{
    assert(posting_of(l) == Some(p));
    lemma_posting_of_well_formed(l);
    if columns_apart(p) {
        law_posting_round_trip(p);
    } else if lead_gap(p) == 1 {
        lemma_single_space_reads_as_other(p);
    } else if p.equality {
        lemma_marker_joins_account(p);
    } else if lead_gap(p) == 2 {
        lemma_commodity_joins_amount(p);
    } else if amount_pad(p) == 1 {
        lemma_commodity_joins_account(p);
    } else if amount_pad(p) == 2 {
        lemma_commodity_joins_account_two_spaces(p);
    } else {
        lemma_all_joined(p);
    }
}

} // verus!

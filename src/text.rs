//! Character classes, trimming and padding on sequences of characters.
use vstd::prelude::*;

verus! {

/// Whitespace in the sense of `char::is_whitespace`: the Unicode `White_Space` property.
pub open spec fn is_ws(c: char) -> bool {
    let u = c as u32;
    (0x09 <= u && u <= 0x0D) || u == 0x20 || u == 0x85 || u == 0xA0 || u == 0x1680 || (0x2000
        <= u && u <= 0x200A) || u == 0x2028 || u == 0x2029 || u == 0x202F || u == 0x205F || u
        == 0x3000
}

/// Executable test for `is_ws`.
pub fn is_ws_char(c: char) -> (r: bool)
    ensures
        r == is_ws(c),
{
    let u = c as u32;
    (0x09 <= u && u <= 0x0D) || u == 0x20 || u == 0x85 || u == 0xA0 || u == 0x1680 || (0x2000
        <= u && u <= 0x200A) || u == 0x2028 || u == 0x2029 || u == 0x202F || u == 0x205F || u
        == 0x3000
}

/// Every character of `s` is whitespace.
pub open spec fn all_ws(s: Seq<char>) -> bool {
    forall|i: int| 0 <= i < s.len() ==> #[trigger] is_ws(s[i])
}

/// `s` without its trailing whitespace.
pub open spec fn trim_end(s: Seq<char>) -> Seq<char>
    decreases s.len(),
{
    if s.len() > 0 && is_ws(s.last()) {
        trim_end(s.drop_last())
    } else {
        s
    }
}

/// `s` without its leading whitespace.
pub open spec fn trim_start(s: Seq<char>) -> Seq<char>
    decreases s.len(),
{
    if s.len() > 0 && is_ws(s[0]) {
        trim_start(s.drop_first())
    } else {
        s
    }
}

/// `s` without leading and trailing whitespace.
pub open spec fn trim(s: Seq<char>) -> Seq<char> {
    trim_end(trim_start(s))
}

/// `n` space characters (none when `n` is not positive).
pub open spec fn spaces(n: int) -> Seq<char> {
    Seq::new(if n > 0 { n as nat } else { 0 }, |i: int| ' ')
}

/// `s` followed by spaces up to width `w`; never shortened.
pub open spec fn pad_right(s: Seq<char>, w: int) -> Seq<char> {
    s + spaces(w - s.len())
}

/// `s` preceded by spaces up to width `w`; never shortened.
pub open spec fn pad_left(s: Seq<char>, w: int) -> Seq<char> {
    spaces(w - s.len()) + s
}

/// `s` without its trailing whitespace.
pub fn trim_end_of(s: &str) -> (r: String)
    ensures
        r@ == trim_end(s@),
{
    let n = s.unicode_len();
    let mut e: usize = n;
    assert(s@.subrange(0, n as int) =~= s@);
    while e > 0 && is_ws_char(s.get_char(e - 1))
        invariant
            e <= n,
            n == s@.len(),
            trim_end(s@) == trim_end(s@.subrange(0, e as int)),
        decreases e,
    {
        assert(s@.subrange(0, e as int).drop_last() =~= s@.subrange(0, e - 1));
        e = e - 1;
    }
    s.substring_char(0, e).to_owned()
}

/// `s` without its leading whitespace.
pub fn trim_start_of(s: &str) -> (r: String)
    ensures
        r@ == trim_start(s@),
{
    let n = s.unicode_len();
    let mut b: usize = 0;
    assert(s@.subrange(0, n as int) =~= s@);
    while b < n && is_ws_char(s.get_char(b))
        invariant
            b <= n,
            n == s@.len(),
            trim_start(s@) == trim_start(s@.subrange(b as int, n as int)),
        decreases n - b,
    {
        assert(s@.subrange(b as int, n as int).drop_first() =~= s@.subrange(b + 1, n as int));
        b = b + 1;
    }
    s.substring_char(b, n).to_owned()
}

/// `s` without leading and trailing whitespace.
pub fn trim_of(s: &str) -> (r: String)
    ensures
        r@ == trim(s@),
{
    let t = trim_start_of(s);
    trim_end_of(t.as_str())
}

/// Appends `n` spaces to `out`.
pub fn push_spaces(out: &mut String, n: usize)
    ensures
        final(out)@ == old(out)@ + spaces(n as int),
{
    let mut i: usize = 0;
    assert(old(out)@ + spaces(0) =~= old(out)@);
    while i < n
        invariant
            i <= n,
            out@ == old(out)@ + spaces(i as int),
        decreases n - i,
    {
        proof {
            reveal_strlit(" ");
        }
        out.append(" ");
        assert(old(out)@ + spaces(i + 1) =~= old(out)@ + spaces(i as int) + " "@);
        i = i + 1;
    }
}

/// A string is blank exactly when trimming leaves nothing.
pub proof fn lemma_trim_empty_iff_all_ws(s: Seq<char>)
    ensures
        trim(s).len() == 0 <==> all_ws(s),
        trim_start(s).len() == 0 <==> all_ws(s),
        trim_start(s).len() > 0 ==> !is_ws(trim_start(s)[0]),
    decreases s.len(),
{
    if trim_start(s).len() > 0 && !is_ws(trim_start(s)[0]) {
        lemma_trim_end_keeps_first(trim_start(s));
    }
    if s.len() > 0 {
        if is_ws(s[0]) {
            lemma_trim_empty_iff_all_ws(s.drop_first());
            if all_ws(s.drop_first()) {
                assert forall|i: int| 0 <= i < s.len() implies #[trigger] is_ws(s[i]) by {
                    if i > 0 {
                        assert(s[i] == s.drop_first()[i - 1]);
                    }
                }
            } else {
                let j = choose|j: int| 0 <= j < s.drop_first().len() && !is_ws(#[trigger] s.drop_first()[j]);
                assert(s[j + 1] == s.drop_first()[j]);
                assert(!is_ws(s[j + 1]));
            }
            assert(trim_start(s) == trim_start(s.drop_first()));
            if trim_start(s).len() > 0 {
                lemma_trim_end_keeps_first(trim_start(s));
            }
        } else {
            assert(trim_start(s) == s);
            assert(!is_ws(trim_end(s)[0])) by {
                lemma_trim_end_keeps_first(s);
            }
        }
    }
}

/// Trimming the end of a string whose first character is not whitespace keeps that character.
pub proof fn lemma_trim_end_keeps_first(s: Seq<char>)
    requires
        s.len() > 0,
        !is_ws(s[0]),
    ensures
        trim_end(s).len() > 0,
        trim_end(s)[0] == s[0],
    decreases s.len(),
{
    if is_ws(s.last()) {
        assert(s.len() > 1);
        lemma_trim_end_keeps_first(s.drop_last());
    }
}

/// Cutting trailing whitespace after a character that is not whitespace leaves
/// that character and all before it.
pub proof fn lemma_trim_end_append(x: Seq<char>, y: Seq<char>)
    requires
        x.len() > 0,
        !is_ws(x.last()),
    ensures
        trim_end(x + y) == x + trim_end(y),
    decreases y.len(),
{
    if y.len() == 0 {
        assert(x + y =~= x);
        assert(x + trim_end(y) =~= x);
    } else if is_ws(y.last()) {
        assert((x + y).drop_last() =~= x + y.drop_last());
        lemma_trim_end_append(x, y.drop_last());
    } else {
        assert((x + y).last() == y.last());
    }
}

/// Whitespace only is cut away whole.
pub proof fn lemma_trim_end_all_ws(y: Seq<char>)
    requires
        all_ws(y),
    ensures
        trim_end(y) == Seq::<char>::empty(),
    decreases y.len(),
{
    if y.len() > 0 {
        assert(is_ws(y[y.len() - 1]));
        lemma_trim_end_all_ws(y.drop_last());
    } else {
        assert(y =~= Seq::<char>::empty());
    }
}

/// Trimming twice is trimming once.
pub proof fn lemma_trim_end_idempotent(y: Seq<char>)
    ensures
        trim_end(trim_end(y)) == trim_end(y),
    decreases y.len(),
{
    if y.len() > 0 && is_ws(y.last()) {
        lemma_trim_end_idempotent(y.drop_last());
    }
}

/// Trimming keeps the first `k` characters when the one before position `k` is
/// not whitespace.
pub proof fn lemma_trim_end_min_len(s: Seq<char>, k: int)
    requires
        0 < k <= s.len(),
        !is_ws(s[k - 1]),
    ensures
        trim_end(s).len() >= k,
        forall|i: int| 0 <= i < k ==> #[trigger] trim_end(s)[i] == s[i],
    decreases s.len(),
{
    if is_ws(s.last()) {
        lemma_trim_end_min_len(s.drop_last(), k);
    }
}

} // verus!

//! Small text facilities: blank checks, number texts, fresh identifiers and joining.
use vstd::prelude::*;

verus! {

/// Whether `char::is_whitespace` holds of a character: the Unicode `White_Space` property,
/// that is tab, line feed, vertical tab, form feed, carriage return, space, next line,
/// no-break space, ogham space mark, the spaces from en quad to hair space, line separator,
/// paragraph separator, narrow no-break space, medium mathematical space and ideographic
/// space.
pub open spec fn spec_char_is_whitespace(c: char) -> bool {
    ||| ('\u{9}' <= c && c <= '\u{d}')
    ||| c == ' '
    ||| c == '\u{85}'
    ||| c == '\u{a0}'
    ||| c == '\u{1680}'
    ||| ('\u{2000}' <= c && c <= '\u{200a}')
    ||| c == '\u{2028}'
    ||| c == '\u{2029}'
    ||| c == '\u{202f}'
    ||| c == '\u{205f}'
    ||| c == '\u{3000}'
}

/// A text with a character other than whitespace is not blank.
pub proof fn lemma_not_blank_at(s: Seq<char>, i: int)
    requires
        0 <= i < s.len(),
        !spec_char_is_whitespace(s[i]),
    ensures
        !(forall|j: int| 0 <= j < s.len() ==> spec_char_is_whitespace(#[trigger] s[j])),
{
}

/// The decimal digit character of `d`.
pub open spec fn digit_char(d: int) -> char {
    if d == 0 {
        '0'
    } else if d == 1 {
        '1'
    } else if d == 2 {
        '2'
    } else if d == 3 {
        '3'
    } else if d == 4 {
        '4'
    } else if d == 5 {
        '5'
    } else if d == 6 {
        '6'
    } else if d == 7 {
        '7'
    } else if d == 8 {
        '8'
    } else {
        '9'
    }
}

/// The decimal digits of a natural number, most significant first, without leading zeros.
pub open spec fn decimal_digits(n: nat) -> Seq<char>
    decreases n,
{
    if n < 10 {
        seq![digit_char(n as int)]
    } else {
        decimal_digits(n / 10).push(digit_char((n % 10) as int))
    }
}

/// The decimal text `u64`'s `Display` writes.
pub open spec fn spec_u64_text(n: u64) -> Seq<char> {
    decimal_digits(n as nat)
}

/// The decimal text `i32`'s `Display` writes: a minus sign before the digits of a negative
/// number.
pub open spec fn spec_i32_text(n: i32) -> Seq<char> {
    if n < 0 {
        "-"@ + decimal_digits((-n) as nat)
    } else {
        decimal_digits(n as nat)
    }
}

/// The text `str::trim` leaves of a text: its leading and trailing whitespace removed.
pub open spec fn spec_trim(s: Seq<char>) -> Seq<char>
    decreases s.len(),
{
    if s.len() > 0 && spec_char_is_whitespace(s[0]) {
        spec_trim(s.drop_first())
    } else if s.len() > 0 && spec_char_is_whitespace(s.last()) {
        spec_trim(s.drop_last())
    } else {
        s
    }
}

/// An ASCII letter, digit or underscore: never whitespace.
pub open spec fn is_word_char(c: char) -> bool {
    ('a' <= c <= 'z') || ('A' <= c <= 'Z') || ('0' <= c <= '9') || c == '_'
}

/// Trimming leaves nothing exactly when every character is whitespace.
pub proof fn lemma_trim_empty(s: Seq<char>)
    ensures
        spec_trim(s).len() == 0 <==> (forall|i: int| 0 <= i < s.len() ==> spec_char_is_whitespace(#[trigger] s[i])),
    decreases s.len(),
{
    if s.len() > 0 && spec_char_is_whitespace(s[0]) {
        let t = s.drop_first();
        lemma_trim_empty(t);
        assert forall|i: int| 0 <= i < t.len() implies #[trigger] t[i] == s[i + 1] by {}
        if spec_trim(s).len() == 0 {
            assert forall|i: int| 0 <= i < s.len() implies spec_char_is_whitespace(#[trigger] s[i]) by {
                if i > 0 {
                    assert(t[i - 1] == s[i]);
                }
            }
        }
    } else if s.len() > 0 && spec_char_is_whitespace(s.last()) {
        let t = s.drop_last();
        lemma_trim_empty(t);
        if spec_trim(s).len() == 0 {
            assert forall|i: int| 0 <= i < s.len() implies spec_char_is_whitespace(#[trigger] s[i]) by {
                if i < s.len() - 1 {
                    assert(t[i] == s[i]);
                }
            }
        }
    } else if s.len() > 0 {
        assert(!spec_char_is_whitespace(s[0]));
    }
}

/// `s.trim().is_empty()`: true exactly when every character is whitespace
/// (`char::is_whitespace`).
pub(crate) fn is_blank(s: &str) -> (res: bool)
    ensures
        res == (forall|i: int| 0 <= i < s@.len() ==> spec_char_is_whitespace(#[trigger] s@[i])),
{
    let t = trimmed(s);
    proof {
        lemma_trim_empty(s@);
    }
    t.as_str().unicode_len() == 0
}

/// `str::trim`: the text without its leading and trailing whitespace (`char::is_whitespace`).
#[verifier::external_body]
pub(crate) fn trimmed(s: &str) -> (res: String)
    ensures
        res@ == spec_trim(s@),
{
    s.trim().to_string()
}

/// The one-character text of the decimal digit `d`.
fn digit_text(d: u64) -> (res: &'static str)
    requires
        d < 10,
    ensures
        res@ == seq![digit_char(d as int)],
{
    proof {
        reveal_strlit("0");
        reveal_strlit("1");
        reveal_strlit("2");
        reveal_strlit("3");
        reveal_strlit("4");
        reveal_strlit("5");
        reveal_strlit("6");
        reveal_strlit("7");
        reveal_strlit("8");
        reveal_strlit("9");
    }
    if d == 0 {
        "0"
    } else if d == 1 {
        "1"
    } else if d == 2 {
        "2"
    } else if d == 3 {
        "3"
    } else if d == 4 {
        "4"
    } else if d == 5 {
        "5"
    } else if d == 6 {
        "6"
    } else if d == 7 {
        "7"
    } else if d == 8 {
        "8"
    } else {
        "9"
    }
}

/// `u64`'s `Display`: the decimal digits of `n`.
pub fn u64_text(n: u64) -> (res: String)
    ensures
        res@ == spec_u64_text(n),
    decreases n,
{
    if n < 10 {
        digit_text(n).to_string()
    } else {
        let head = u64_text(n / 10);
        concat(head.as_str(), digit_text(n % 10))
    }
}

/// The decimal digits of `n`, as `u128`'s `Display` writes them.
pub fn u128_text(n: u128) -> (res: String)
    ensures
        res@ == decimal_digits(n as nat),
    decreases n,
{
    if n < 10 {
        digit_text(n as u64).to_string()
    } else {
        let head = u128_text(n / 10);
        concat(head.as_str(), digit_text((n % 10) as u64))
    }
}

/// `i32`'s `Display`: a minus sign before the digits of a negative number.
pub fn i32_text(n: i32) -> (res: String)
    ensures
        res@ == spec_i32_text(n),
{
    proof {
        reveal_strlit("-");
    }
    if n < 0 {
        let magnitude: u64 = (-(n as i64)) as u64;
        concat("-", u64_text(magnitude).as_str())
    } else {
        u64_text(n as u64)
    }
}

/// A fresh random identifier (`uuid::Uuid::new_v4`, hyphenated). Nothing is claimed of it:
/// two calls may in principle give the same text.
#[verifier::external_body]
pub(crate) fn new_uuid() -> (res: String) {
    uuid::Uuid::new_v4().to_string()
}

/// `a` followed by `b`.
pub fn concat(a: &str, b: &str) -> (res: String)
    ensures
        res@ == a@ + b@,
{
    let mut s = a.to_string();
    s.append(b);
    s
}

/// Whether two texts are equal.
pub fn text_eq(a: &str, b: &str) -> (res: bool)
    ensures
        res == (a@ == b@),
{
    let x = a.to_string();
    let y = b.to_string();
    x == y
}

/// `n` zero digits.
pub open spec fn zeros(n: int) -> Seq<char>
    decreases n,
{
    if n <= 0 {
        Seq::empty()
    } else {
        zeros(n - 1).push('0')
    }
}

/// `zeros(n)` has `n` characters (none for a negative `n`), all of them `0`.
pub proof fn lemma_zeros_len(n: int)
    ensures
        zeros(n).len() == if n > 0 {
            n
        } else {
            0
        },
        forall|i: int| 0 <= i < zeros(n).len() ==> #[trigger] zeros(n)[i] == '0',
    decreases n,
{
    if n > 0 {
        lemma_zeros_len(n - 1);
    }
}

/// Digits padded on the left with zeros to at least `width` characters.
pub open spec fn zero_padded(digits: Seq<char>, width: int) -> Seq<char> {
    zeros(width - digits.len()) + digits
}

/// `format!("{n:0width$}")`: the decimal text of `n`, zero-padded after the sign to `width`.
pub open spec fn padded_int_text(n: int, width: int) -> Seq<char> {
    if n < 0 {
        "-"@ + zero_padded(spec_u64_text((-n) as u64), width - 1)
    } else {
        zero_padded(spec_u64_text(n as u64), width)
    }
}

/// `format!("{year:04}-{month:02}")`.
pub open spec fn year_month_text(year: i32, month: u32) -> Seq<char> {
    padded_int_text(year as int, 4) + "-"@ + padded_int_text(month as int, 2)
}

/// The id of a month's cycle is never blank: its hyphen is not whitespace.
pub proof fn lemma_year_month_not_blank(year: i32, month: u32)
    ensures
        !(forall|j: int|
            0 <= j < year_month_text(year, month).len() ==> spec_char_is_whitespace(
                #[trigger] year_month_text(year, month)[j],
            )),
{
    reveal_strlit("-");
    let a = padded_int_text(year as int, 4);
    let t = year_month_text(year, month);
    assert(t[a.len() as int] == '-');
    lemma_not_blank_at(t, a.len() as int);
}

/// Digits padded on the left with zeros to at least `width` characters.
pub(crate) fn zero_pad(digits: String, width: usize) -> (res: String)
    ensures
        res@ == zero_padded(digits@, width as int),
{
    let len = digits.as_str().unicode_len();
    let mut pad = String::new();
    let mut k: usize = 0;
    let missing: usize = if width > len { width - len } else { 0 };
    assert(zeros(0) == Seq::<char>::empty());
    while k < missing
        invariant
            k <= missing,
            pad@ == zeros(k as int),
        decreases missing - k,
    {
        pad = concat(pad.as_str(), "0");
        proof {
            reveal_strlit("0");
        }
        k = k + 1;
    }
    proof {
        if width <= len {
            assert(zeros(width - digits@.len()) == Seq::<char>::empty());
        }
    }
    concat(pad.as_str(), digits.as_str())
}

/// `format!("{n:0width$}")` of an integer.
pub(crate) fn padded_int(n: i64, width: usize) -> (res: String)
    requires
        n > i64::MIN,
        width >= 1,
    ensures
        res@ == padded_int_text(n as int, width as int),
{
    if n < 0 {
        let digits = u64_text((-n) as u64);
        concat("-", zero_pad(digits, width - 1).as_str())
    } else {
        zero_pad(u64_text(n as u64), width)
    }
}

/// `format!("{year:04}-{month:02}")`.
pub fn padded_year_month(year: i32, month: u32) -> (res: String)
    ensures
        res@ == year_month_text(year, month),
{
    let y = padded_int(year as i64, 4);
    let m = padded_int(month as i64, 2);
    concat(concat(y.as_str(), "-").as_str(), m.as_str())
}


/// `a` comes strictly before `b` in the order of `str`'s `Ord`: character by character
/// (by code point, which orders UTF-8 texts as their bytes do), a proper prefix first.
pub open spec fn text_lt(a: Seq<char>, b: Seq<char>) -> bool
    decreases a.len(),
{
    if a.len() == 0 {
        b.len() > 0
    } else if b.len() == 0 {
        false
    } else if a[0] != b[0] {
        a[0] < b[0]
    } else {
        text_lt(a.drop_first(), b.drop_first())
    }
}

/// Whether `a` comes strictly before `b` in text order.
pub fn text_less(a: &str, b: &str) -> (res: bool)
    ensures
        res == text_lt(a@, b@),
{
    let la = a.unicode_len();
    let lb = b.unicode_len();
    let mut i: usize = 0;
    assert(a@.skip(0) == a@);
    assert(b@.skip(0) == b@);
    while i < la && i < lb
        invariant
            la == a@.len(),
            lb == b@.len(),
            i <= la,
            i <= lb,
            text_lt(a@, b@) == text_lt(a@.skip(i as int), b@.skip(i as int)),
        decreases la - i,
    {
        let ca = a.get_char(i);
        let cb = b.get_char(i);
        assert(a@.skip(i as int)[0] == ca);
        assert(b@.skip(i as int)[0] == cb);
        if ca != cb {
            return ca < cb;
        }
        assert(a@.skip(i as int).drop_first() == a@.skip(i + 1));
        assert(b@.skip(i as int).drop_first() == b@.skip(i + 1));
        i = i + 1;
    }
    i == la && i < lb
}


/// Text order is a strict total order: irreflexive, asymmetric, transitive, and any two
/// different texts are ordered one way or the other.
pub proof fn lemma_text_lt_strict_total(a: Seq<char>, b: Seq<char>, c: Seq<char>)
    ensures
        !text_lt(a, a),
        text_lt(a, b) ==> !text_lt(b, a),
        a != b ==> text_lt(a, b) || text_lt(b, a),
        text_lt(a, b) && text_lt(b, c) ==> text_lt(a, c),
    decreases a.len(),
{
    if a.len() > 0 && b.len() > 0 && c.len() > 0 {
        lemma_text_lt_strict_total(a.drop_first(), b.drop_first(), c.drop_first());
    }
    if a.len() > 0 {
        lemma_text_lt_strict_total(a.drop_first(), a.drop_first(), a.drop_first());
    }
    if a.len() > 0 && b.len() > 0 {
        lemma_text_lt_strict_total(a.drop_first(), b.drop_first(), b.drop_first());
        if a != b && a[0] == b[0] {
            if a.drop_first() == b.drop_first() {
                assert(a == seq![a[0]] + a.drop_first());
                assert(b == seq![b[0]] + b.drop_first());
            }
        }
    }
    if a.len() == 0 && b.len() == 0 {
        assert(a == b);
    }
}


} // verus!

//! Decimal text of integers, zero padding and decimal parsing.

use vstd::prelude::*;

verus! {

/// The character of a decimal digit `d` (`0 <= d < 10`).
pub open spec fn digit_char(d: nat) -> char {
    (48 + d) as char
}

/// The shortest decimal text of `n`, most significant digit first.
pub open spec fn decimal(n: nat) -> Seq<char>
    decreases n,
{
    if n < 10 {
        seq![digit_char(n)]
    } else {
        decimal(n / 10).push(digit_char(n % 10))
    }
}

/// Appends the character of the decimal digit `d` to `s`.
fn push_digit(s: &mut String, d: u64)
    requires
        d < 10,
    ensures
        final(s)@ == old(s)@.push(digit_char(d as nat)),
{
    proof {
        reveal_strlit("0");
        reveal_strlit("1");
        reveal_strlit("2");
        reveal_strlit("3");
        reveal_strlit("4");
        reveal_strlit("5");
        reveal_strlit("6");
        reveal_strlit("7");
        reveal_strlit("8");
        reveal_strlit("9");
    }
    let piece: &str = if d == 0 {
        "0"
    } else if d == 1 {
        "1"
    } else if d == 2 {
        "2"
    } else if d == 3 {
        "3"
    } else if d == 4 {
        "4"
    } else if d == 5 {
        "5"
    } else if d == 6 {
        "6"
    } else if d == 7 {
        "7"
    } else if d == 8 {
        "8"
    } else {
        "9"
    };
    s.append(piece);
}

/// Appends the decimal text of `n` to `s`.
pub fn push_decimal(s: &mut String, n: u64)
    ensures
        final(s)@ == old(s)@ + decimal(n as nat),
    decreases n,
{
    if n < 10 {
        push_digit(s, n);
    } else {
        push_decimal(s, n / 10);
        push_digit(s, n % 10);
        assert(old(s)@ + decimal(n as nat) =~= old(s)@ + decimal((n / 10) as nat) + seq![digit_char((n % 10) as nat)]);
    }
}


/// The decimal text of `n`.
pub fn u64_to_decimal(n: u64) -> (r: String)
    ensures
        r@ == decimal(n as nat),
{
    let mut s = String::new();
    push_decimal(&mut s, n);
    assert(s@ =~= decimal(n as nat));
    s
}

/// The text of a signed integer as `Display` writes it: a minus sign for
/// negative values, then the decimal digits of the magnitude.
pub open spec fn signed_decimal(n: int) -> Seq<char> {
    if n < 0 {
        seq!['-'] + decimal((-n) as nat)
    } else {
        decimal(n as nat)
    }
}

/// Appends the text of the signed integer `n` to `s`.
pub fn push_signed_decimal(s: &mut String, n: i64)
    ensures
        final(s)@ == old(s)@ + signed_decimal(n as int),
{
    if n < 0 {
        proof {
            reveal_strlit("-");
        }
        s.append("-");
        let magnitude: u64 = (0i128 - (n as i128)) as u64;
        push_decimal(s, magnitude);
        assert(final(s)@ =~= old(s)@ + signed_decimal(n as int)) by {
            assert(old(s)@ + signed_decimal(n as int) =~= old(s)@ + seq!['-'] + decimal(magnitude as nat));
        }
    } else {
        push_decimal(s, n as u64);
    }
}

/// The decimal text of `digits` padded on the left with `'0'` to at least
/// `width` characters, as the `{:0width$}` format writes an unsigned integer.
pub open spec fn zero_padded(digits: Seq<char>, width: nat) -> Seq<char>
    decreases width - digits.len(),
{
    if digits.len() >= width {
        digits
    } else {
        zero_padded(seq!['0'] + digits, width)
    }
}

/// The text of `n` zero-padded to three digits.
pub open spec fn padded3(n: nat) -> Seq<char> {
    zero_padded(decimal(n), 3)
}

proof fn lemma_decimal_len(n: nat)
    ensures
        n < 10 ==> decimal(n).len() == 1,
        10 <= n < 100 ==> decimal(n).len() == 2,
        100 <= n ==> decimal(n).len() >= 3,
        decimal(n).len() >= 1,
    decreases n,
{
    if n >= 10 {
        lemma_decimal_len(n / 10);
    }
}

/// Appends the text of `n`, zero-padded to three digits, to `s`.
pub fn push_padded3(s: &mut String, n: u64)
    ensures
        final(s)@ == old(s)@ + padded3(n as nat),
{
    proof {
        lemma_decimal_len(n as nat);
        reveal_strlit("00");
        reveal_strlit("0");
    }
    let ghost d = decimal(n as nat);
    if n < 10 {
        s.append("00");
        assert(padded3(n as nat) =~= seq!['0', '0'] + d) by {
            assert(zero_padded(d, 3) == zero_padded(seq!['0'] + d, 3));
            assert(zero_padded(seq!['0'] + d, 3) == zero_padded(seq!['0'] + (seq!['0'] + d), 3));
            assert(seq!['0'] + (seq!['0'] + d) =~= seq!['0', '0'] + d);
        }
    } else if n < 100 {
        s.append("0");
        assert(padded3(n as nat) =~= seq!['0'] + d) by {
            assert(zero_padded(d, 3) == zero_padded(seq!['0'] + d, 3));
        }
    }
    push_decimal(s, n);
    assert(final(s)@ =~= old(s)@ + padded3(n as nat));
}

/// Whether `c` is one of the ASCII digits `'0'` to `'9'`.
pub open spec fn is_digit(c: char) -> bool {
    '0' <= c && c <= '9'
}

/// The value of the ASCII digit `c`.
pub open spec fn digit_value(c: char) -> nat {
    (c as int - 48) as nat
}

/// The value of a string of decimal digits, most significant first; the
/// empty string has value zero.
pub open spec fn decimal_value(s: Seq<char>) -> nat
    decreases s.len(),
{
    if s.len() == 0 {
        0
    } else {
        decimal_value(s.drop_last()) * 10 + digit_value(s.last())
    }
}

/// Whether `s` is a non-empty string of ASCII digits.
pub open spec fn is_decimal_text(s: Seq<char>) -> bool {
    &&& s.len() > 0
    &&& forall|i: int| 0 <= i < s.len() ==> is_digit(#[trigger] s[i])
}

/// What parsing `s` as an unsigned 128-bit decimal integer gives: the value
/// when `s` is a non-empty string of digits whose value fits, else nothing.
pub open spec fn parse_u128_spec(s: Seq<char>) -> Option<u128> {
    if is_decimal_text(s) && decimal_value(s) <= u128::MAX {
        Some(decimal_value(s) as u128)
    } else {
        None
    }
}

proof fn lemma_decimal_value_prefix(s: Seq<char>, k: int)
    requires
        0 <= k <= s.len(),
        forall|i: int| 0 <= i < s.len() ==> is_digit(#[trigger] s[i]),
    ensures
        decimal_value(s.take(k)) <= decimal_value(s),
    decreases s.len(),
{
    if k < s.len() {
        let t = s.drop_last();
        assert(t.take(k) =~= s.take(k));
        assert forall|i: int| 0 <= i < t.len() implies is_digit(#[trigger] t[i]) by {
            assert(t[i] == s[i]);
        }
        lemma_decimal_value_prefix(t, k);
    } else {
        assert(s.take(k) =~= s);
    }
}

/// Parses `s` as an unsigned 128-bit decimal integer, as `str::parse::<u128>`
/// does on text without a sign.
pub fn parse_u128(s: &str) -> (r: Option<u128>)
    ensures
        r == parse_u128_spec(s@),
{
    let len = s.unicode_len();
    if len == 0 {
        return None;
    }
    let mut acc: u128 = 0;
    let mut i: usize = 0;
    assert(s@.take(0) =~= Seq::<char>::empty());
    while i < len
        invariant
            len == s@.len(),
            i <= len,
            acc as nat == decimal_value(s@.take(i as int)),
            forall|j: int| 0 <= j < i ==> is_digit(#[trigger] s@[j]),
        decreases len - i,
    {
        let c = s.get_char(i);
        if c < '0' || c > '9' {
            return None;
        }
        let d: u128 = ((c as u32) - 48) as u128;
        assert(s@.take(i + 1).drop_last() =~= s@.take(i as int));
        if acc > (u128::MAX - d) / 10 {
            proof {
                if forall|j: int| 0 <= j < s@.len() ==> is_digit(#[trigger] s@[j]) {
                    lemma_decimal_value_prefix(s@, i + 1);
                }
            }
            return None;
        }
        acc = acc * 10 + d;
        i = i + 1;
    }
    assert(s@.take(len as int) =~= s@);
    Some(acc)
}

/// Decimal text read back gives the number it was written from: the text of
/// `n` is a non-empty string of digits whose value is `n`.
pub proof fn lemma_decimal_roundtrip(n: nat)
    ensures
        is_decimal_text(decimal(n)),
        decimal_value(decimal(n)) == n,
    decreases n,
{
    let d = (n % 10) as nat;
    assert(digit_char(d) as int == 48 + d);
    if n < 10 {
        assert(seq![digit_char(n)].drop_last() =~= Seq::<char>::empty());
        assert(decimal_value(Seq::<char>::empty()) == 0);
    } else {
        lemma_decimal_roundtrip(n / 10);
        let s = decimal(n);
        assert(s.drop_last() =~= decimal(n / 10));
        assert(s.last() == digit_char(d));
        assert forall|i: int| 0 <= i < s.len() implies is_digit(#[trigger] s[i]) by {
            if i < s.len() - 1 {
                assert(s[i] == decimal(n / 10)[i]);
            }
        }
    }
}

/// Every number up to `u128::MAX` written in decimal parses back to itself.
pub proof fn lemma_parse_decimal(n: u128)
    ensures
        parse_u128_spec(decimal(n as nat)) == Some(n),
{
    lemma_decimal_roundtrip(n as nat);
}

proof fn lemma_value_leading_zero(s: Seq<char>)
    ensures
        decimal_value(seq!['0'] + s) == decimal_value(s),
    decreases s.len(),
{
    let z = seq!['0'] + s;
    assert(digit_value('0') == 0);
    if s.len() == 0 {
        assert(z =~= seq!['0']);
        assert(z.drop_last() =~= Seq::<char>::empty());
        assert(decimal_value(Seq::<char>::empty()) == 0);
    } else {
        lemma_value_leading_zero(s.drop_last());
        assert(z.drop_last() =~= seq!['0'] + s.drop_last());
        assert(z.last() == s.last());
    }
}

proof fn lemma_padded_value(d: Seq<char>, width: nat)
    ensures
        decimal_value(zero_padded(d, width)) == decimal_value(d),
    decreases width - d.len(),
{
    if d.len() < width {
        lemma_padded_value(seq!['0'] + d, width);
        lemma_value_leading_zero(d);
    }
}

/// Zero padding keeps the value: the padded text of `n` reads back as `n`, so
/// different numbers have different padded texts.
pub proof fn lemma_padded3_value(n: nat)
    ensures
        decimal_value(padded3(n)) == n,
{
    lemma_padded_value(decimal(n), 3);
    lemma_decimal_roundtrip(n);
}

} // verus!

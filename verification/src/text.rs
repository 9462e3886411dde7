//! UTF-16 text: which sequences of code units are well formed, and the
//! characters they stand for.

use vstd::prelude::*;

verus! {

/// Whether `code` is a Unicode scalar value: a code point that is no
/// surrogate.
pub open spec fn is_scalar(code: int) -> bool {
    0 <= code <= 0xD7FF || 0xE000 <= code <= 0x10_FFFF
}

/// Whether `unit` is the first half of a surrogate pair.
pub open spec fn is_high_surrogate(unit: u16) -> bool {
    0xD800 <= unit <= 0xDBFF
}

/// Whether `unit` is the second half of a surrogate pair.
pub open spec fn is_low_surrogate(unit: u16) -> bool {
    0xDC00 <= unit <= 0xDFFF
}

/// The code point that a surrogate pair stands for.
pub open spec fn pair_code(high: u16, low: u16) -> int {
    0x1_0000 + (high - 0xD800) * 0x400 + (low - 0xDC00)
}

/// The characters that `units` stand for, or `None` where a surrogate is
/// unpaired.
pub open spec fn utf16_text(units: Seq<u16>) -> Option<Seq<char>>
    decreases units.len(),
{
    if units.len() == 0 {
        Some(Seq::empty())
    } else if !is_high_surrogate(units[0]) && !is_low_surrogate(units[0]) {
        match utf16_text(units.skip(1)) {
            Some(rest) => Some(seq![units[0] as char] + rest),
            None => None,
        }
    } else if is_high_surrogate(units[0]) && units.len() >= 2 && is_low_surrogate(units[1]) {
        match utf16_text(units.skip(2)) {
            Some(rest) => Some(seq![pair_code(units[0], units[1]) as char] + rest),
            None => None,
        }
    } else {
        None
    }
}

/// The views of a sequence of strings.
pub open spec fn views(strings: Seq<String>) -> Seq<Seq<char>> {
    Seq::new(strings.len(), |i: int| strings[i]@)
}

/// `char::from_u32` of the standard library: the character with the given
/// code, which exists exactly where the code is a scalar value.
#[verifier::external_body]
fn char_of(code: u32) -> (c: Option<char>)
    ensures
        c == (if is_scalar(code as int) {
            Some(code as char)
        } else {
            None
        }),
{
    char::from_u32(code)
}

/// `String::push` of the standard library: appends one character.
#[verifier::external_body]
pub(crate) fn push_char(s: &mut String, c: char)
    ensures
        final(s)@ == old(s)@.push(c),
{
    s.push(c)
}

/// Decodes UTF-16 code units to a string; `None` where a surrogate is
/// unpaired.
pub fn decode_utf16(units: &Vec<u16>) -> (r: Option<String>)
    ensures
        match r {
            Some(s) => utf16_text(units@) == Some(s@),
            None => utf16_text(units@) is None,
        },
{
    let mut out = String::new();
    let mut i: usize = 0;
    proof {
        assert(units@.skip(0) =~= units@);
        if let Some(rest) = utf16_text(units@) {
            assert(out@ + rest =~= rest);
        }
    }
    while i < units.len()
        invariant
            i <= units.len(),
            utf16_text(units@) == match utf16_text(units@.skip(i as int)) {
                Some(rest) => Some(out@ + rest),
                None => None,
            },
        decreases units.len() - i,
    {
        let ghost tail = units@.skip(i as int);
        let ghost before = out@;
        let unit = units[i];
        assert(tail[0] == unit);
        let code: u32;
        let step: usize;
        if unit < 0xD800 || unit > 0xDFFF {
            code = unit as u32;
            step = 1;
        } else if unit <= 0xDBFF && i + 1 < units.len() && 0xDC00 <= units[i + 1] && units[i + 1]
            <= 0xDFFF {
            assert(tail[1] == units[i + 1]);
            code = 0x1_0000 + (unit as u32 - 0xD800) * 0x400 + (units[i + 1] as u32 - 0xDC00);
            step = 2;
        } else {
            return None;
        }
        assert(tail.skip(step as int) =~= units@.skip(i + step));
        match char_of(code) {
            Some(c) => {
                push_char(&mut out, c);
                proof {
                    match utf16_text(units@.skip(i + step)) {
                        Some(rest) => {
                            assert(out@ + rest =~= before + (seq![c] + rest));
                        },
                        None => {},
                    }
                }
            },
            None => {
                return None;
            },
        }
        i += step;
    }
    assert(out@ + Seq::<char>::empty() =~= out@);
    Some(out)
}

/// The digit character for `d`, for `d` below 16: `0` to `9`, then `a` to
/// `f`.
pub open spec fn digit(d: int) -> char {
    "0123456789abcdef"@[d]
}

/// `n` in decimal, without leading zeros.
pub open spec fn decimal(n: nat) -> Seq<char>
    decreases n,
{
    if n < 10 {
        seq![digit(n as int)]
    } else {
        decimal(n / 10).push(digit((n % 10) as int))
    }
}

/// `n` in decimal, with zeros in front up to `width` characters.
pub open spec fn zero_padded(n: nat, width: nat) -> Seq<char> {
    if decimal(n).len() >= width {
        decimal(n)
    } else {
        Seq::new((width - decimal(n).len()) as nat, |i: int| '0') + decimal(n)
    }
}

/// `v` in decimal, sign first, with zeros in front of the digits up to
/// `width` characters in all.
pub open spec fn signed_padded(v: int, width: nat) -> Seq<char> {
    if v < 0 {
        seq!['-'] + zero_padded((-v) as nat, if width > 0 {
            (width - 1) as nat
        } else {
            0
        })
    } else {
        zero_padded(v as nat, width)
    }
}

/// The two lower-case hexadecimal digits of `b`.
pub open spec fn hex_byte(b: u8) -> Seq<char> {
    seq![digit(b as int / 16), digit(b as int % 16)]
}

/// The lower-case hexadecimal digits of `bytes`, two for each byte.
pub open spec fn hex(bytes: Seq<u8>) -> Seq<char>
    decreases bytes.len(),
{
    if bytes.len() == 0 {
        Seq::empty()
    } else {
        hex(bytes.drop_last()) + hex_byte(bytes.last())
    }
}

/// Appends the digit character for `d`.
pub fn push_digit(out: &mut String, d: u8)
    requires
        d < 16,
    ensures
        final(out)@ == old(out)@.push(digit(d as int)),
{
    proof {
        reveal_strlit("0123456789abcdef");
    }
    let c = "0123456789abcdef".get_char(d as usize);
    push_char(out, c);
}

/// Appends `n` in decimal.
pub fn push_decimal(out: &mut String, n: u64)
    ensures
        final(out)@ == old(out)@ + decimal(n as nat),
    decreases n,
{
    if n >= 10 {
        push_decimal(out, n / 10);
    }
    push_digit(out, (n % 10) as u8);
    proof {
        if n >= 10 {
            assert(final(out)@ =~= old(out)@ + decimal(n as nat));
        } else {
            assert(final(out)@ =~= old(out)@ + decimal(n as nat));
        }
    }
}

/// Ten to the power `k`.
pub open spec fn pow10(k: nat) -> nat
    decreases k,
{
    if k == 0 {
        1
    } else {
        10 * pow10((k - 1) as nat)
    }
}

/// A number below ten to the `k` has at most `k` decimal digits, and every
/// number has at least one.
pub proof fn lemma_decimal_len(n: nat, k: nat)
    requires
        k >= 1,
        n < pow10(k),
    ensures
        1 <= decimal(n).len() <= k,
    decreases n,
{
    if n >= 10 {
        assert(pow10(1) == 10) by {
            reveal_with_fuel(pow10, 2);
        }
        assert(k >= 2);
        assert(pow10(k) == 10 * pow10((k - 1) as nat));
        lemma_decimal_len(n / 10, (k - 1) as nat);
    }
}

/// The number of decimal digits of `n`.
pub fn decimal_len(n: u64) -> (len: usize)
    ensures
        len == decimal(n as nat).len(),
        1 <= len <= 20,
{
    proof {
        assert(pow10(20) == 100_000_000_000_000_000_000) by {
            reveal_with_fuel(pow10, 21);
        }
        lemma_decimal_len(n as nat, 20);
    }
    let mut len: usize = 1;
    let mut rest: u64 = n;
    while rest >= 10
        invariant
            1 <= len,
            decimal(n as nat).len() <= 20,
            decimal(n as nat).len() + 1 == len + decimal(rest as nat).len(),
            decimal(rest as nat).len() >= 1,
        decreases rest,
    {
        proof {
            assert(pow10(20) == 100_000_000_000_000_000_000) by {
                reveal_with_fuel(pow10, 21);
            }
            lemma_decimal_len((rest / 10) as nat, 20);
        }
        rest = rest / 10;
        len += 1;
    }
    len
}

/// Appends `v` in decimal, sign first, with zeros in front of the digits up
/// to `width` characters in all.
pub fn push_padded(out: &mut String, v: i64, width: usize)
    ensures
        final(out)@ == old(out)@ + signed_padded(v as int, width as nat),
{
    let ghost start = out@;
    let magnitude: u64 = if v < 0 {
        push_char(out, '-');
        (-(v as i128)) as u64
    } else {
        v as u64
    };
    let digits_width: usize = if v < 0 && width > 0 {
        width - 1
    } else {
        width
    };
    let ghost signed = out@;
    let len = decimal_len(magnitude);
    let mut i: usize = len;
    assert(out@ =~= signed + Seq::new(0, |k: int| '0'));
    while i < digits_width
        invariant
            len <= i,
            digits_width <= len ==> i == len,
            digits_width > len ==> i <= digits_width,
            out@ == signed + Seq::new((i - len) as nat, |k: int| '0'),
        decreases digits_width - i,
    {
        push_char(out, '0');
        assert(out@ =~= signed + Seq::new((i + 1 - len) as nat, |k: int| '0'));
        i += 1;
    }
    let ghost zeros = out@;
    push_decimal(out, magnitude);
    proof {
        let d = decimal(magnitude as nat);
        if d.len() >= digits_width {
            assert(i == len);
            assert(zeros =~= signed);
        } else {
            assert(i == digits_width);
        }
        assert(out@ =~= signed + zero_padded(magnitude as nat, digits_width as nat));
        if v < 0 {
            assert(signed =~= start + seq!['-']);
            assert(out@ =~= start + (seq!['-'] + zero_padded(
                magnitude as nat,
                digits_width as nat,
            )));
        } else {
            assert(signed =~= start);
        }
    }
}

/// Appends the two lower-case hexadecimal digits of `b`.
pub fn push_hex_byte(out: &mut String, b: u8)
    ensures
        final(out)@ == old(out)@ + hex_byte(b),
{
    push_digit(out, b / 16);
    push_digit(out, b % 16);
    assert(out@ =~= old(out)@ + hex_byte(b));
}

/// Appends the lower-case hexadecimal digits of `bytes`.
pub fn push_hex(out: &mut String, bytes: &[u8])
    ensures
        final(out)@ == old(out)@ + hex(bytes@),
{
    let mut i: usize = 0;
    assert(out@ =~= old(out)@ + hex(bytes@.take(0)));
    while i < bytes.len()
        invariant
            i <= bytes.len(),
            out@ == old(out)@ + hex(bytes@.take(i as int)),
        decreases bytes.len() - i,
    {
        push_hex_byte(out, bytes[i]);
        proof {
            assert(bytes@.take(i + 1).drop_last() =~= bytes@.take(i as int));
            assert(out@ =~= old(out)@ + hex(bytes@.take(i + 1)));
        }
        i += 1;
    }
    assert(bytes@.take(i as int) =~= bytes@);
}

} // verus!

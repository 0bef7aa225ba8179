//! Colours on the wire.
//!
//! A colour travels as seven characters: `#` and six hexadecimal digits, in
//! either case. Inside the library it is the number those digits spell.

use vstd::prelude::*;
use crate::ws_client::SessionError;

verus! {

/// Whether `c` is one of `0-9`, `a-f`, `A-F`.
pub open spec fn is_hex_digit(c: char) -> bool {
    ||| '0' as u32 <= c as u32 <= '9' as u32
    ||| 'a' as u32 <= c as u32 <= 'f' as u32
    ||| 'A' as u32 <= c as u32 <= 'F' as u32
}

/// The value of the hexadecimal digit `c`.
pub open spec fn hex_value(c: char) -> nat
    recommends
        is_hex_digit(c),
{
    if '0' as u32 <= c as u32 <= '9' as u32 {
        (c as u32 - '0' as u32) as nat
    } else if 'a' as u32 <= c as u32 <= 'f' as u32 {
        (c as u32 - 'a' as u32 + 10) as nat
    } else {
        (c as u32 - 'A' as u32 + 10) as nat
    }
}

/// The lower-case hexadecimal digit for `d`.
pub open spec fn hex_char(d: nat) -> char
    recommends
        d < 16,
{
    if d < 10 {
        ('0' as u32 + d) as char
    } else {
        ('a' as u32 + d - 10) as char
    }
}

/// The number that the hexadecimal digits of `digits` spell, most
/// significant digit first.
pub open spec fn hex_number(digits: Seq<char>) -> nat
    decreases digits.len(),
{
    if digits.len() == 0 {
        0
    } else {
        hex_number(digits.drop_last()) * 16 + hex_value(digits.last())
    }
}

/// The lower-case hexadecimal digits of `n`, with zeros in front where
/// there would be fewer than `width` of them.
pub open spec fn hex_text(n: nat, width: nat) -> Seq<char>
    decreases n, width,
{
    if n < 16 && width <= 1 {
        seq![hex_char(n)]
    } else {
        hex_text(n / 16, if width > 0 { (width - 1) as nat } else { 0 }).push(hex_char(n % 16))
    }
}

/// Whether `s` is a colour as the wire writes it: `#`, then exactly six
/// hexadecimal digits.
pub open spec fn is_color_text(s: Seq<char>) -> bool {
    &&& s.len() == 7
    &&& s[0] == '#'
    &&& forall|i: int| 1 <= i < 7 ==> is_hex_digit(#[trigger] s[i])
}

/// The colour that the text `s` spells.
pub open spec fn color_value(s: Seq<char>) -> nat
    recommends
        is_color_text(s),
{
    hex_number(s.subrange(1, 7))
}

/// The text for colour `c`: `#`, then its digits, at least six of them.
pub open spec fn color_text(c: u32) -> Seq<char> {
    seq!['#'] + hex_text(c as nat, 6)
}

/// A number spelt by `k` hexadecimal digits is below `16^k`; here for the
/// lengths that a colour passes through.
proof fn lemma_hex_number_bound(digits: Seq<char>)
    requires
        digits.len() <= 6,
        forall|i: int| 0 <= i < digits.len() ==> is_hex_digit(#[trigger] digits[i]),
    ensures
        digits.len() == 0 ==> hex_number(digits) == 0,
        digits.len() == 1 ==> hex_number(digits) < 0x10,
        digits.len() == 2 ==> hex_number(digits) < 0x100,
        digits.len() == 3 ==> hex_number(digits) < 0x1000,
        digits.len() == 4 ==> hex_number(digits) < 0x10000,
        digits.len() == 5 ==> hex_number(digits) < 0x100000,
        digits.len() == 6 ==> hex_number(digits) < 0x1000000,
    decreases digits.len(),
{
    if digits.len() > 0 {
        let front = digits.drop_last();
        assert forall|i: int| 0 <= i < front.len() implies is_hex_digit(#[trigger] front[i]) by {
            assert(front[i] == digits[i]);
        }
        lemma_hex_number_bound(front);
        assert(is_hex_digit(digits[digits.len() - 1]));
        assert(hex_value(digits.last()) < 16);
    }
}

/// The value of `c` as a hexadecimal digit, if it is one.
fn hex_digit(c: char) -> (d: Option<u32>)
    ensures
        is_hex_digit(c) ==> d == Some(hex_value(c) as u32),
        !is_hex_digit(c) ==> d is None,
        d is Some ==> d.unwrap() < 16,
{
    let v: u32 = c as u32;
    if 48 <= v && v <= 57 {
        Some(v - 48)
    } else if 97 <= v && v <= 102 {
        Some(v - 97 + 10)
    } else if 65 <= v && v <= 70 {
        Some(v - 65 + 10)
    } else {
        None
    }
}

/// Reads a colour off the wire.
///
/// Succeeds exactly on `#` followed by six hexadecimal digits, with the
/// number they spell; any other text is a [`SessionError::ColorFormat`].
pub fn parse_color(s: String) -> (res: Result<u32, SessionError>)
    ensures
        is_color_text(s@) ==> res == Ok::<u32, SessionError>(color_value(s@) as u32),
        !is_color_text(s@) ==> res == Err::<u32, SessionError>(SessionError::ColorFormat),
        res is Ok ==> res.unwrap() <= 0xff_ffff,
{
    let text = s.as_str();
    if text.unicode_len() != 7 {
        return Err(SessionError::ColorFormat);
    }
    if text.get_char(0) != '#' {
        return Err(SessionError::ColorFormat);
    }
    let mut value: u32 = 0;
    let mut i: usize = 1;
    proof {
        assert(s@.subrange(1, 1) =~= Seq::empty());
    }
    while i < 7
        invariant
            1 <= i <= 7,
            text@ == s@,
            s@.len() == 7,
            s@[0] == '#',
            forall|k: int| 1 <= k < i ==> is_hex_digit(#[trigger] s@[k]),
            value == hex_number(s@.subrange(1, i as int)),
            value <= 0xf_ffff || i == 7,
            value <= 0xff_ffff,
        decreases 7 - i,
    {
        let digit = hex_digit(text.get_char(i));
        match digit {
            None => {
                return Err(SessionError::ColorFormat);
            },
            Some(d) => {
                proof {
                    let sofar = s@.subrange(1, i as int);
                    let longer = s@.subrange(1, i + 1);
                    assert(longer.drop_last() =~= sofar);
                    assert(longer.last() == s@[i as int]);
                    assert forall|k: int| 0 <= k < longer.len() implies is_hex_digit(
                        #[trigger] longer[k],
                    ) by {
                        assert(longer[k] == s@[k + 1]);
                    }
                    assert forall|k: int| 0 <= k < sofar.len() implies is_hex_digit(
                        #[trigger] sofar[k],
                    ) by {
                        assert(sofar[k] == s@[k + 1]);
                    }
                    lemma_hex_number_bound(sofar);
                    lemma_hex_number_bound(longer);
                }
                value = value * 16 + d;
                i += 1;
            },
        }
    }
    Ok(value)
}

/// The lower-case hexadecimal digit for `d`, as text.
fn hex_str(d: u32) -> (digit: &'static str)
    requires
        d < 16,
    ensures
        digit@ == seq![hex_char(d as nat)],
{
    proof {
        reveal_strlit("0");
        reveal_strlit("1");
        reveal_strlit("2");
        reveal_strlit("3");
        reveal_strlit("4");
        reveal_strlit("5");
        reveal_strlit("6");
        reveal_strlit("7");
        reveal_strlit("8");
        reveal_strlit("9");
        reveal_strlit("a");
        reveal_strlit("b");
        reveal_strlit("c");
        reveal_strlit("d");
        reveal_strlit("e");
        reveal_strlit("f");
    }
    let digit = match d {
        0 => "0",
        1 => "1",
        2 => "2",
        3 => "3",
        4 => "4",
        5 => "5",
        6 => "6",
        7 => "7",
        8 => "8",
        9 => "9",
        10 => "a",
        11 => "b",
        12 => "c",
        13 => "d",
        14 => "e",
        _ => "f",
    };
    assert(digit@ =~= seq![hex_char(d as nat)]);
    digit
}

/// Appends the digits of `n` to `out`, at least `width` of them.
fn push_hex(out: &mut String, n: u32, width: u32)
    ensures
        final(out)@ == old(out)@ + hex_text(n as nat, width as nat),
    decreases n, width,
{
    if n < 16 && width <= 1 {
        out.append(hex_str(n));
    } else {
        let rest: u32 = if width > 0 { width - 1 } else { 0 };
        push_hex(out, n / 16, rest);
        out.append(hex_str(n % 16));
        assert(final(out)@ =~= old(out)@ + hex_text(n as nat, width as nat));
    }
}

/// Writes a colour for the wire: `#`, then the colour in lower-case
/// hexadecimal digits, padded with zeros to six.
pub fn format_color(c: u32) -> (text: String)
    ensures
        text@ == color_text(c),
{
    let mut text = String::new();
    proof {
        reveal_strlit("#");
    }
    text.append("#");
    push_hex(&mut text, c, 6);
    assert(text@ =~= color_text(c));
    text
}

/// The digit for `d` is a hexadecimal digit, and its value is `d`.
proof fn lemma_hex_char_value(d: nat)
    requires
        d < 16,
    ensures
        is_hex_digit(hex_char(d)),
        hex_value(hex_char(d)) == d,
{
}

/// Sixteen to the power of `k`.
spec fn sixteen_to(k: nat) -> nat
    decreases k,
{
    if k == 0 {
        1
    } else {
        16 * sixteen_to((k - 1) as nat)
    }
}

/// The digits of a number below `16^width` are `width` hexadecimal digits
/// that spell the number.
proof fn lemma_hex_text_spells(n: nat, width: nat)
    requires
        1 <= width,
        n < sixteen_to(width),
    ensures
        hex_text(n, width).len() == width,
        forall|i: int| 0 <= i < width ==> is_hex_digit(#[trigger] hex_text(n, width)[i]),
        hex_number(hex_text(n, width)) == n,
    decreases width,
{
    reveal_with_fuel(sixteen_to, 2);
    if n < 16 && width <= 1 {
        lemma_hex_char_value(n);
        let t = hex_text(n, width);
        assert(t.drop_last() =~= Seq::empty());
        assert(hex_number(t.drop_last()) == 0);
        assert(t.last() == hex_char(n));
    } else {
        let less = (width - 1) as nat;
        assert(width >= 2);
        assert(n / 16 < sixteen_to(less));
        lemma_hex_text_spells(n / 16, less);
        lemma_hex_char_value(n % 16);
        let front = hex_text(n / 16, less);
        let t = hex_text(n, width);
        assert(t == front.push(hex_char(n % 16)));
        assert(t.drop_last() =~= front);
        assert(t.last() == hex_char(n % 16));
        assert forall|i: int| 0 <= i < width implies is_hex_digit(#[trigger] t[i]) by {
            if i < less {
                assert(t[i] == front[i]);
            }
        }
    }
}

/// Writing a colour and reading it back gives the colour again, for every
/// colour of 24 bits.
pub proof fn lemma_color_round_trip(c: u32)
    requires
        c <= 0xff_ffff,
    ensures
        is_color_text(color_text(c)),
        color_value(color_text(c)) == c,
{
    reveal_with_fuel(sixteen_to, 7);
    assert(sixteen_to(6) == 0x100_0000);
    lemma_hex_text_spells(c as nat, 6);
    let digits = hex_text(c as nat, 6);
    let text = color_text(c);
    assert(text.subrange(1, 7) =~= digits);
    assert forall|i: int| 1 <= i < 7 implies is_hex_digit(#[trigger] text[i]) by {
        assert(text[i] == digits[i - 1]);
    }
}

} // verus!

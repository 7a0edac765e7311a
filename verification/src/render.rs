//! Rendering one match as a display line: the code-point text parsed as a
//! hexadecimal scalar value, the character it names, and the row's name.

use vstd::prelude::*;
use vstd::string::StrSliceExecFns;
use vstd::string::StringExecFns;

verus! {

/// True when the character is one of the ASCII hexadecimal digits.
pub open spec fn is_hex_digit(c: char) -> bool {
    (48 <= c as u32 && c as u32 <= 57)  // '0' ..= '9'
    || (65 <= c as u32 && c as u32 <= 70)  // 'A' ..= 'F'
    || (97 <= c as u32 && c as u32 <= 102)  // 'a' ..= 'f'
}

/// Numeric value of one hexadecimal digit; zero on any other character.
pub open spec fn hex_digit_value(c: char) -> nat {
    if 48 <= c as u32 && c as u32 <= 57 {
        (c as u32 - 48) as nat
    } else if 65 <= c as u32 && c as u32 <= 70 {
        (c as u32 - 55) as nat
    } else if 97 <= c as u32 && c as u32 <= 102 {
        (c as u32 - 87) as nat
    } else {
        0
    }
}

/// Value of a hexadecimal numeral, read left to right.
pub open spec fn hex_value(s: Seq<char>) -> nat
    decreases s.len(),
{
    if s.len() == 0 {
        0
    } else {
        hex_value(s.drop_last()) * 16 + hex_digit_value(s.last())
    }
}

/// The code-point text parses when it is a nonempty run of hexadecimal
/// digits whose value fits in 32 bits.
pub open spec fn parses_to_u32(s: Seq<char>) -> bool {
    s.len() > 0
    && (forall|k: int| 0 <= k < s.len() ==> is_hex_digit(#[trigger] s[k]))
    && hex_value(s) <= u32::MAX
}

/// A Unicode scalar value: below the surrogate range, or past it and at
/// most 10FFFF.
pub open spec fn is_scalar_value(v: nat) -> bool {
    v < 0xD800 || (0xE000 <= v && v <= 0x10FFFF)
}

/// A code-point text renders as a character of its own when it parses and
/// its value is a scalar value; otherwise it renders as `?`.
pub open spec fn renders_as_scalar(s: Seq<char>) -> bool {
    parses_to_u32(s) && is_scalar_value(hex_value(s))
}

fn hex_digit(c: char) -> (r: Option<u32>)
    ensures
        r is Some <==> is_hex_digit(c),
        r matches Some(v) ==> v as nat == hex_digit_value(c) && v < 16,
{
    let u = c as u32;
    if 48 <= u && u <= 57 {
        Some(u - 48)
    } else if 65 <= u && u <= 70 {
        Some(u - 55)
    } else if 97 <= u && u <= 102 {
        Some(u - 87)
    } else {
        None
    }
}

proof fn lemma_hex_value_take_le(s: Seq<char>, i: int, j: int)
    requires
        0 <= i <= j <= s.len(),
    ensures
        hex_value(s.take(i)) <= hex_value(s.take(j)),
    decreases j - i,
{
    if i < j {
        lemma_hex_value_take_le(s, i, j - 1);
        assert(s.take(j).drop_last() =~= s.take(j - 1));
    }
}

/// Parses the code-point text as a hexadecimal numeral. `Some` exactly
/// when the text is a nonempty run of hexadecimal digits whose value fits
/// in 32 bits, and then the value is the numeral's.
pub fn parse_code_point(s: &str) -> (r: Option<u32>)
    ensures
        r is Some <==> parses_to_u32(s@),
        r matches Some(v) ==> v as nat == hex_value(s@),
{
    let n = s.unicode_len();
    if n == 0 {
        return None;
    }
    let mut acc: u32 = 0;
    let mut i: usize = 0;
    while i < n
        invariant
            0 < n == s@.len(),
            i <= n,
            forall|k: int| 0 <= k < i ==> is_hex_digit(#[trigger] s@[k]),
            acc as nat == hex_value(s@.take(i as int)),
        decreases n - i,
    {
        proof {
            assert(s@.take(i + 1).drop_last() =~= s@.take(i as int));
        }
        let c = s.get_char(i);
        match hex_digit(c) {
            None => {
                proof {
                    assert(!is_hex_digit(s@[i as int]));
                }
                return None;
            },
            Some(d) => {
                if acc > 0x0FFF_FFFF {
                    proof {
                        assert(hex_value(s@.take(i + 1)) > u32::MAX);
                        lemma_hex_value_take_le(s@, i + 1, n as int);
                        assert(s@.take(n as int) =~= s@);
                    }
                    return None;
                }
                acc = acc * 16 + d;
            },
        }
        i += 1;
    }
    proof {
        assert(s@.take(n as int) =~= s@);
    }
    Some(acc)
}

/// Relies on char::from_u32: `Some` exactly on Unicode scalar values, and
/// the character returned carries the given value.
#[verifier::external_body]
fn char_from_u32(v: u32) -> (r: Option<char>)
    ensures
        r is Some <==> is_scalar_value(v as nat),
        r matches Some(c) ==> c as u32 == v,
{
    char::from_u32(v)
}

/// Relies on String::push: appends one character at the end.
#[verifier::external_body]
fn push_char(s: &mut String, c: char)
    ensures
        final(s)@ == old(s)@.push(c),
{
    s.push(c)
}

/// Two characters with the same scalar value are the same character.
pub proof fn lemma_char_value_injective(a: char, b: char)
    requires
        a as u32 == b as u32,
    ensures
        a == b,
{
}

/// The character standing for a scalar value.
pub open spec fn scalar_char(v: u32) -> char
    recommends
        is_scalar_value(v as nat),
{
    choose|c: char| #[trigger] (c as u32) == v
}

/// The character a code-point text renders as: its scalar value's own
/// character, or `?` when the text does not parse or names no scalar value.
pub open spec fn rendered_char(s: Seq<char>) -> char {
    if renders_as_scalar(s) {
        scalar_char(hex_value(s) as u32)
    } else {
        '?'
    }
}

/// The display line for one match: the rendered character, three spaces, a
/// bar, then the row's code point and name.
pub open spec fn rendered_line(code: Seq<char>, name: Seq<char>) -> Seq<char> {
    seq![rendered_char(code), ' ', ' ', ' ', '|', ' '] + code + seq![' '] + name
}

/// Builds the display line for one match.
pub fn render_line(code: &str, name: &str) -> (r: String)
    ensures
        r@ == rendered_line(code@, name@),
{
    let shown: char = match parse_code_point(code) {
        Some(v) => match char_from_u32(v) {
            Some(c) => {
                proof {
                    assert(hex_value(code@) as u32 == v);
                    assert(exists|a: char| #[trigger] (a as u32) == v);
                    let sc = scalar_char(v);
                    assert(sc as u32 == v);
                    lemma_char_value_injective(sc, c);
                    assert(renders_as_scalar(code@));
                    assert(c == rendered_char(code@));
                }
                c
            },
            None => '?',
        },
        None => '?',
    };
    let mut out = String::new();
    push_char(&mut out, shown);
    out.append("   | ");
    out.append(code);
    out.append(" ");
    out.append(name);
    proof {
        reveal_strlit("   | ");
        reveal_strlit(" ");
        assert(out@ =~= rendered_line(code@, name@));
    }
    out
}

} // verus!

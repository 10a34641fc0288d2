//! Policy identifiers: 128-bit UUIDs, their textual forms, and fresh random ones.

use vstd::prelude::*;
use vstd::arithmetic::div_mod::lemma_mod_breakdown;

verus! {

/// `16` to the power `n`.
pub open spec fn pow16(n: nat) -> nat
    decreases n,
{
    if n == 0 {
        1
    } else {
        16 * pow16((n - 1) as nat)
    }
}

/// The lower-case hexadecimal digit for `d`, which is below sixteen.
pub open spec fn hex_char(d: nat) -> char {
    if d < 10 {
        (d + 48) as char
    } else {
        (d + 87) as char
    }
}

/// The `n` lowest hexadecimal digits of `x`, most significant first.
pub open spec fn hex_digits(x: nat, n: nat) -> Seq<char>
    decreases n,
{
    if n == 0 {
        seq![]
    } else {
        hex_digits(x / 16, (n - 1) as nat).push(hex_char(x % 16))
    }
}

/// Thirty-two hexadecimal digits grouped 8-4-4-4-12 with hyphens between the groups.
pub open spec fn hyphenate(h: Seq<char>) -> Seq<char> {
    h.subrange(0, 8) + seq!['-'] + h.subrange(8, 12) + seq!['-'] + h.subrange(12, 16) + seq!['-']
        + h.subrange(16, 20) + seq!['-'] + h.subrange(20, 32)
}

/// The canonical text of a UUID: lower-case hexadecimal, hyphenated,
/// as in `67e55044-10b1-426f-9247-bb680e5fe0c8`.
pub open spec fn uuid_hyphenated(id: u128) -> Seq<char> {
    hyphenate(hex_digits(id as nat, 32))
}

/// The value of a hexadecimal digit of either case.
pub open spec fn hex_digit_value(c: char) -> Option<nat> {
    if '0' <= c <= '9' {
        Some((c as nat - 48) as nat)
    } else if 'a' <= c <= 'f' {
        Some((c as nat - 87) as nat)
    } else if 'A' <= c <= 'F' {
        Some((c as nat - 55) as nat)
    } else {
        None
    }
}

/// The number that the hexadecimal digits `s` spell, if they all are digits.
pub open spec fn hex_value(s: Seq<char>) -> Option<nat>
    decreases s.len(),
{
    if s.len() == 0 {
        Some(0)
    } else {
        match (hex_value(s.drop_last()), hex_digit_value(s.last())) {
            (Some(v), Some(d)) => Some(v * 16 + d),
            _ => None,
        }
    }
}

/// The thirty-two digits of a hyphenated UUID text, hyphens left out.
pub open spec fn unhyphenate(s: Seq<char>) -> Seq<char> {
    s.subrange(0, 8) + s.subrange(9, 13) + s.subrange(14, 18) + s.subrange(19, 23) + s.subrange(
        24,
        36,
    )
}

/// Reads a hyphenated UUID text of exactly thirty-six characters.
pub open spec fn parse_hyphenated(s: Seq<char>) -> Option<u128> {
    if s.len() == 36 && s[8] == '-' && s[13] == '-' && s[18] == '-' && s[23] == '-' {
        match hex_value(unhyphenate(s)) {
            Some(v) => Some(v as u128),
            None => None,
        }
    } else {
        None
    }
}

/// `c` with ASCII upper-case letters folded to lower case.
pub open spec fn ascii_lower(c: char) -> char {
    if 'A' <= c <= 'Z' {
        (c as nat + 32) as char
    } else {
        c
    }
}

/// The URN prefix of a UUID text, in lower case.
pub open spec fn urn_prefix() -> Seq<char> {
    seq!['u', 'r', 'n', ':', 'u', 'u', 'i', 'd', ':']
}

/// What `Uuid::parse_str` accepts and gives: thirty-two hexadecimal digits;
/// the hyphenated form; the hyphenated form in braces; or the hyphenated form
/// behind a `urn:uuid:` prefix of any letter case. Digits may be of either case.
pub open spec fn uuid_parse_spec(s: Seq<char>) -> Option<u128> {
    if s.len() == 32 {
        match hex_value(s) {
            Some(v) => Some(v as u128),
            None => None,
        }
    } else if s.len() == 36 {
        parse_hyphenated(s)
    } else if s.len() == 38 && s[0] == '{' && s[37] == '}' {
        parse_hyphenated(s.subrange(1, 37))
    } else if s.len() == 45 && s.take(9).map_values(|c: char| ascii_lower(c)) == urn_prefix() {
        parse_hyphenated(s.skip(9))
    } else {
        None
    }
}

/// Calls `uuid::Uuid::parse_str` and reads the result as a big-endian `u128`
/// (`Uuid::as_u128`). Its contract claims that the parser accepts exactly the
/// forms that `uuid_parse_spec` describes and reads their digits most significant first.
#[verifier::external_body]
pub(crate) fn uuid_parse_str(s: &str) -> (r: Option<u128>)
    ensures
        r == uuid_parse_spec(s@),
{
    match uuid::Uuid::parse_str(s) {
        Ok(u) => Some(u.as_u128()),
        Err(_) => None,
    }
}

/// Calls `uuid::Uuid::from_u128` and formats the result with `Display`
/// (`to_string`). Its contract claims that the text is the lower-case hyphenated form.
#[verifier::external_body]
pub(crate) fn uuid_to_text(id: u128) -> (r: String)
    ensures
        r@ == uuid_hyphenated(id),
{
    uuid::Uuid::from_u128(id).to_string()
}

/// Calls `uuid::Uuid::new_v4` and reads the result with `Uuid::as_u128`.
/// The value is random; its contract claims only the version digit `4` and
/// the variant bits `10` that `new_v4` sets on every outcome.
#[verifier::external_body]
pub(crate) fn uuid_new_v4() -> (r: u128)
    ensures
        hex_digits(r as nat, 32)[12] == '4',
        hex_digits(r as nat, 32)[16] == '8' || hex_digits(r as nat, 32)[16] == '9'
            || hex_digits(r as nat, 32)[16] == 'a' || hex_digits(r as nat, 32)[16] == 'b',
{
    uuid::Uuid::new_v4().as_u128()
}

pub(crate) proof fn lemma_hex_digits_len(x: nat, n: nat)
    ensures
        hex_digits(x, n).len() == n,
    decreases n,
{
    if n > 0 {
        lemma_hex_digits_len(x / 16, (n - 1) as nat);
    }
}

proof fn lemma_pow16_positive(n: nat)
    ensures
        pow16(n) > 0,
    decreases n,
{
    if n > 0 {
        lemma_pow16_positive((n - 1) as nat);
    }
}

proof fn lemma_hex_value_of_digits(x: nat, n: nat)
    ensures
        hex_value(hex_digits(x, n)) == Some(x % pow16(n)),
    decreases n,
{
    if n > 0 {
        let m = (n - 1) as nat;
        let h = hex_digits(x, n);
        lemma_hex_value_of_digits(x / 16, m);
        assert(h.drop_last() =~= hex_digits(x / 16, m));
        let d = x % 16;
        assert(hex_digit_value(hex_char(d)) == Some(d));
        lemma_pow16_positive(m);
        lemma_mod_breakdown(x as int, 16, pow16(m) as int);
    }
}

/// The text of an identifier reads back as the same identifier.
pub proof fn lemma_uuid_text_parses_back(id: u128)
    ensures
        uuid_parse_spec(uuid_hyphenated(id)) == Some(id),
{
    let h = hex_digits(id as nat, 32);
    lemma_hex_digits_len(id as nat, 32);
    let s = uuid_hyphenated(id);
    assert(s.len() == 36);
    assert(unhyphenate(s) =~= h);
    lemma_hex_value_of_digits(id as nat, 32);
    assert(pow16(32) == 0x1_0000_0000_0000_0000_0000_0000_0000_0000) by {
        reveal_with_fuel(pow16, 33);
    }
    assert((id as nat) % pow16(32) == id as nat);
}

} // verus!

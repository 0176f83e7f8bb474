//! Addresses as text.

use vstd::prelude::*;

verus! {

/// Appends one character to a string, with `String::push`.
///
/// Trusted, not proved: the string afterwards is the string before,
/// followed by the character.
#[verifier::external_body]
pub(crate) fn push_char(text: &mut String, c: char)
    ensures
        final(text)@ == old(text)@.push(c),
{
    text.push(c);
}

/// The character for a digit from zero to fifteen: `0` to `9`, then `a` to
/// `f`.
pub open spec fn digit(n: int) -> char {
    if n < 10 {
        (0x30 + n) as u8 as char
    } else {
        (0x61 + n - 10) as u8 as char
    }
}

/// The decimal digits of a number, most significant first, without
/// leading zeros.
pub open spec fn decimal(n: nat) -> Seq<char>
    decreases n,
{
    if n < 10 {
        seq![digit(n as int)]
    } else {
        decimal(n / 10).push(digit((n % 10) as int))
    }
}

/// The hexadecimal digits of a number in lower case, most significant
/// first, without leading zeros.
pub open spec fn hexadecimal(n: nat) -> Seq<char>
    decreases n,
{
    if n < 16 {
        seq![digit(n as int)]
    } else {
        hexadecimal(n / 16).push(digit((n % 16) as int))
    }
}

/// An IPv4 address in dotted decimal: its four octets as decimal numbers
/// with a dot between them.
pub open spec fn ipv4_text(octets: Seq<u8>) -> Seq<char> {
    decimal(octets[0] as nat) + seq!['.'] + decimal(octets[1] as nat) + seq!['.']
        + decimal(octets[2] as nat) + seq!['.'] + decimal(octets[3] as nat)
}

/// The first `count` groups of an IPv6 address, each as a hexadecimal
/// number in lower case, with a colon between them.
pub open spec fn groups_text(groups: Seq<u16>, count: nat) -> Seq<char>
    decreases count,
{
    if count == 0 {
        Seq::empty()
    } else if count == 1 {
        hexadecimal(groups[0] as nat)
    } else {
        groups_text(groups, (count - 1) as nat) + seq![':'] + hexadecimal(groups[count - 1] as nat)
    }
}

/// An IPv6 address as text: its eight groups in full, none left out.
pub open spec fn ipv6_text(groups: Seq<u16>) -> Seq<char> {
    groups_text(groups, 8)
}

fn push_digit(text: &mut String, n: u8)
    requires
        n < 16,
    ensures
        final(text)@ == old(text)@.push(digit(n as int)),
{
    let c: char = if n < 10 {
        (0x30u8 + n) as char
    } else {
        (0x61u8 + (n - 10)) as char
    };
    push_char(text, c);
}

fn push_decimal(text: &mut String, n: u8)
    ensures
        final(text)@ == old(text)@ + decimal(n as nat),
{
    reveal_with_fuel(decimal, 3);
    if n >= 100 {
        push_digit(text, n / 100);
    }
    if n >= 10 {
        push_digit(text, (n / 10) % 10);
    }
    push_digit(text, n % 10);
}

fn push_hex(text: &mut String, n: u16)
    ensures
        final(text)@ == old(text)@ + hexadecimal(n as nat),
{
    reveal_with_fuel(hexadecimal, 4);
    if n >= 0x1000 {
        push_digit(text, (n / 0x1000) as u8);
    }
    if n >= 0x100 {
        push_digit(text, ((n / 0x100) % 16) as u8);
    }
    if n >= 0x10 {
        push_digit(text, ((n / 0x10) % 16) as u8);
    }
    push_digit(text, (n % 16) as u8);
}

/// Writes an IPv4 address in dotted decimal.
pub fn format_ipv4(octets: [u8; 4]) -> (text: String)
    ensures
        text@ == ipv4_text(octets@),
{
    let mut text = String::new();
    push_decimal(&mut text, octets[0]);
    push_char(&mut text, '.');
    push_decimal(&mut text, octets[1]);
    push_char(&mut text, '.');
    push_decimal(&mut text, octets[2]);
    push_char(&mut text, '.');
    push_decimal(&mut text, octets[3]);
    text
}

/// Writes an IPv6 address as eight hexadecimal groups.
pub fn format_ipv6(groups: [u16; 8]) -> (text: String)
    ensures
        text@ == ipv6_text(groups@),
{
    let mut text = String::new();
    let mut i: usize = 0;
    while i < 8
        invariant
            i <= 8,
            text@ == groups_text(groups@, i as nat),
        decreases 8 - i,
    {
        if i > 0 {
            push_char(&mut text, ':');
        }
        push_hex(&mut text, groups[i]);
        i += 1;
    }
    text
}

} // verus!

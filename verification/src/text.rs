//! Decimal and hexadecimal text, as the disassembler and the error messages
//! write it.

use vstd::prelude::*;

verus! {

/// The character of a digit below 16, lowercase for 10 to 15.
pub open spec fn digit_char(d: nat) -> char {
    if d < 10 {
        (d + 48) as char
    } else {
        (d + 87) as char
    }
}

/// Two lowercase hexadecimal digits of a byte, as `{:02x}` writes it.
pub open spec fn hex_byte(b: u8) -> Seq<char> {
    seq![digit_char(b as nat / 16), digit_char(b as nat % 16)]
}

/// The lowercase hexadecimal text of a byte sequence, two digits per byte.
pub open spec fn hex_text(bytes: Seq<u8>) -> Seq<char>
    decreases bytes.len(),
{
    if bytes.len() == 0 {
        Seq::empty()
    } else {
        hex_text(bytes.drop_last()) + hex_byte(bytes.last())
    }
}

/// The decimal text of a natural number, with no leading zeros.
pub open spec fn decimal(n: nat) -> Seq<char>
    decreases n,
{
    if n < 10 {
        seq![digit_char(n)]
    } else {
        decimal(n / 10).push(digit_char(n % 10))
    }
}

/// `width` zero characters.
pub open spec fn zeros(width: nat) -> Seq<char> {
    Seq::new(width, |i: int| '0')
}

/// The lowercase hexadecimal text of a natural number, with no leading zeros.
pub open spec fn hex_digits(n: nat) -> Seq<char>
    decreases n,
{
    if n < 16 {
        seq![digit_char(n)]
    } else {
        hex_digits(n / 16).push(digit_char(n % 16))
    }
}

/// `text` padded on the left with zeros to `width` characters.
pub open spec fn zero_padded(text: Seq<char>, width: nat) -> Seq<char> {
    if text.len() < width {
        zeros((width - text.len()) as nat) + text
    } else {
        text
    }
}

/// `text` padded on the right with spaces to `width` characters, as `{:width}`
/// writes a string.
pub open spec fn space_padded(text: Seq<char>, width: nat) -> Seq<char> {
    if text.len() < width {
        text + Seq::new((width - text.len()) as nat, |i: int| ' ')
    } else {
        text
    }
}

/// The decimal text of `n` padded on the left with zeros to `width`
/// characters, as `{:0width}` writes it.
pub open spec fn decimal_padded(n: nat, width: nat) -> Seq<char> {
    zero_padded(decimal(n), width)
}

/// The one-character text of a digit below 16.
fn digit_str(d: u8) -> (s: &'static str)
    requires
        d < 16,
    ensures
        s@ == seq![digit_char(d as nat)],
{
    match d {
        0 => { proof { reveal_strlit("0"); } "0" },
        1 => { proof { reveal_strlit("1"); } "1" },
        2 => { proof { reveal_strlit("2"); } "2" },
        3 => { proof { reveal_strlit("3"); } "3" },
        4 => { proof { reveal_strlit("4"); } "4" },
        5 => { proof { reveal_strlit("5"); } "5" },
        6 => { proof { reveal_strlit("6"); } "6" },
        7 => { proof { reveal_strlit("7"); } "7" },
        8 => { proof { reveal_strlit("8"); } "8" },
        9 => { proof { reveal_strlit("9"); } "9" },
        10 => { proof { reveal_strlit("a"); } "a" },
        11 => { proof { reveal_strlit("b"); } "b" },
        12 => { proof { reveal_strlit("c"); } "c" },
        13 => { proof { reveal_strlit("d"); } "d" },
        14 => { proof { reveal_strlit("e"); } "e" },
        _ => { proof { reveal_strlit("f"); } "f" },
    }
}

/// Appends the decimal text of `n`.
pub fn push_decimal(s: &mut String, n: u64)
    ensures
        final(s)@ == old(s)@ + decimal(n as nat),
    decreases n,
{
    if n >= 10 {
        push_decimal(s, n / 10);
    }
    s.append(digit_str((n % 10) as u8));
    proof {
        if n >= 10 {
            assert(decimal(n as nat) == decimal((n / 10) as nat).push(digit_char((n % 10) as nat)));
        }
    }
}

/// Appends the decimal text of `n`, padded on the left with zeros to `width`.
pub fn push_decimal_padded(s: &mut String, n: u64, width: usize)
    ensures
        final(s)@ == old(s)@ + decimal_padded(n as nat, width as nat),
{
    let mut digits = String::new();
    push_decimal(&mut digits, n);
    let len = digits.unicode_len();
    let ghost start = s@;
    if len < width {
        let mut i: usize = 0;
        while i < width - len
            invariant
                i <= width - len,
                len < width,
                s@ == start + zeros(i as nat),
            decreases width - len - i,
        {
            proof { reveal_strlit("0"); }
            s.append("0");
            assert(s@ =~= start + zeros((i + 1) as nat));
            i = i + 1;
        }
    }
    s.append(digits.as_str());
    assert(s@ =~= start + decimal_padded(n as nat, width as nat));
}

/// Appends `text` padded on the right with spaces to `width` characters.
pub fn push_space_padded(s: &mut String, text: &str, width: usize)
    ensures
        final(s)@ == old(s)@ + space_padded(text@, width as nat),
{
    let ghost start = s@;
    s.append(text);
    let len = text.unicode_len();
    if len < width {
        let mut i: usize = 0;
        while i < width - len
            invariant
                i <= width - len,
                len < width,
                len == text@.len(),
                s@ == start + text@ + Seq::new(i as nat, |j: int| ' '),
            decreases width - len - i,
        {
            proof { reveal_strlit(" "); }
            s.append(" ");
            assert(s@ =~= start + text@ + Seq::new((i + 1) as nat, |j: int| ' '));
            i = i + 1;
        }
    }
    assert(s@ =~= start + space_padded(text@, width as nat));
}

/// Appends the two lowercase hexadecimal digits of a byte.
pub fn push_hex_byte(s: &mut String, b: u8)
    ensures
        final(s)@ == old(s)@ + hex_byte(b),
{
    let ghost start = s@;
    s.append(digit_str(b / 16));
    s.append(digit_str(b % 16));
    assert(s@ =~= start + hex_byte(b));
}

} // verus!

//! Decimal text of chip amounts, for the messages shown to players.

use vstd::prelude::*;
use vstd::string::StringExecFns;

verus! {

/// The character for a decimal digit.
pub open spec fn digit_char(d: int) -> char {
    if d == 0 {
        '0'
    } else if d == 1 {
        '1'
    } else if d == 2 {
        '2'
    } else if d == 3 {
        '3'
    } else if d == 4 {
        '4'
    } else if d == 5 {
        '5'
    } else if d == 6 {
        '6'
    } else if d == 7 {
        '7'
    } else if d == 8 {
        '8'
    } else {
        '9'
    }
}

/// A number written in decimal, without leading zeros.
pub open spec fn decimal(n: nat) -> Seq<char>
    decreases n,
{
    if n < 10 {
        seq![digit_char(n as int)]
    } else {
        decimal(n / 10).push(digit_char((n % 10) as int))
    }
}

fn digit_str(d: u32) -> (s: &'static str)
    requires
        d < 10,
    ensures
        s@ == seq![digit_char(d as int)],
{
    proof {
        reveal_strlit("0");
        reveal_strlit("1");
        reveal_strlit("2");
        reveal_strlit("3");
        reveal_strlit("4");
        reveal_strlit("5");
        reveal_strlit("6");
        reveal_strlit("7");
        reveal_strlit("8");
        reveal_strlit("9");
    }
    let s = if d == 0 {
        "0"
    } else if d == 1 {
        "1"
    } else if d == 2 {
        "2"
    } else if d == 3 {
        "3"
    } else if d == 4 {
        "4"
    } else if d == 5 {
        "5"
    } else if d == 6 {
        "6"
    } else if d == 7 {
        "7"
    } else if d == 8 {
        "8"
    } else {
        "9"
    };
    s
}

/// Writes `n` in decimal at the end of `out`.
pub fn append_decimal(out: &mut String, n: u32)
    ensures
        final(out)@ == old(out)@ + decimal(n as nat),
    decreases n,
{
    if n >= 10 {
        append_decimal(out, n / 10);
    }
    let ghost before = out@;
    out.append(digit_str(n % 10));
    proof {
        if n >= 10 {
            assert(out@ =~= old(out)@ + decimal((n / 10) as nat).push(
                digit_char((n % 10) as int),
            ));
        }
    }
}

/// The text `before`, then `n` in decimal, then `after`.
pub open spec fn framed_number(before: Seq<char>, n: u32, after: Seq<char>) -> Seq<char> {
    before + decimal(n as nat) + after
}

/// Builds the text `before`, then `n` in decimal, then `after`.
pub fn frame_number(before: &str, n: u32, after: &str) -> (s: String)
    ensures
        s@ == framed_number(before@, n, after@),
{
    let mut s = String::from_str(before);
    append_decimal(&mut s, n);
    s.append(after);
    s
}

/// The character for a hexadecimal digit, in lower case.
pub open spec fn hex_char(d: int) -> char {
    if d < 10 {
        digit_char(d)
    } else if d == 10 {
        'a'
    } else if d == 11 {
        'b'
    } else if d == 12 {
        'c'
    } else if d == 13 {
        'd'
    } else if d == 14 {
        'e'
    } else {
        'f'
    }
}

/// The lowest `count` hexadecimal digits of a number, the most significant
/// of them first.
pub open spec fn hex_digits(v: nat, count: nat) -> Seq<char>
    decreases count,
{
    if count == 0 {
        Seq::empty()
    } else {
        hex_digits(v / 16, (count - 1) as nat).push(hex_char((v % 16) as int))
    }
}

/// A 128-bit identifier in its canonical form: 32 hexadecimal digits in
/// lower case, in groups of 8, 4, 4, 4 and 12 with hyphens between them.
pub open spec fn id_text(id: u128) -> Seq<char> {
    hex_digits((id / 0x1_0000_0000_0000_0000_0000_0000) as nat, 8) + seq!['-'] + hex_digits(
        (id / 0x1_0000_0000_0000_0000_0000) as nat,
        4,
    ) + seq!['-'] + hex_digits((id / 0x1_0000_0000_0000_0000) as nat, 4) + seq!['-'] + hex_digits(
        (id / 0x1_0000_0000_0000) as nat,
        4,
    ) + seq!['-'] + hex_digits(id as nat, 12)
}

fn hex_str(d: u128) -> (s: &'static str)
    requires
        d < 16,
    ensures
        s@ == seq![hex_char(d as int)],
{
    proof {
        reveal_strlit("0");
        reveal_strlit("1");
        reveal_strlit("2");
        reveal_strlit("3");
        reveal_strlit("4");
        reveal_strlit("5");
        reveal_strlit("6");
        reveal_strlit("7");
        reveal_strlit("8");
        reveal_strlit("9");
        reveal_strlit("a");
        reveal_strlit("b");
        reveal_strlit("c");
        reveal_strlit("d");
        reveal_strlit("e");
        reveal_strlit("f");
    }
    let s = if d == 0 {
        "0"
    } else if d == 1 {
        "1"
    } else if d == 2 {
        "2"
    } else if d == 3 {
        "3"
    } else if d == 4 {
        "4"
    } else if d == 5 {
        "5"
    } else if d == 6 {
        "6"
    } else if d == 7 {
        "7"
    } else if d == 8 {
        "8"
    } else if d == 9 {
        "9"
    } else if d == 10 {
        "a"
    } else if d == 11 {
        "b"
    } else if d == 12 {
        "c"
    } else if d == 13 {
        "d"
    } else if d == 14 {
        "e"
    } else {
        "f"
    };
    s
}

/// Writes the lowest `count` hexadecimal digits of `v` at the end of `out`.
fn append_hex(out: &mut String, v: u128, count: u8)
    ensures
        final(out)@ == old(out)@ + hex_digits(v as nat, count as nat),
    decreases count,
{
    if count > 0 {
        append_hex(out, v / 16, count - 1);
        out.append(hex_str(v % 16));
        proof {
            assert(out@ =~= old(out)@ + hex_digits((v / 16) as nat, (count - 1) as nat).push(
                hex_char((v % 16) as int),
            ));
        }
    }
}

/// Writes a 128-bit identifier in its canonical form.
pub fn write_id(id: u128) -> (s: String)
    ensures
        s@ == id_text(id),
{
    proof {
        reveal_strlit("-");
        reveal_strlit("");
    }
    let mut s = String::from_str("");
    append_hex(&mut s, id / 0x1_0000_0000_0000_0000_0000_0000, 8);
    s.append("-");
    append_hex(&mut s, id / 0x1_0000_0000_0000_0000_0000, 4);
    s.append("-");
    append_hex(&mut s, id / 0x1_0000_0000_0000_0000, 4);
    s.append("-");
    append_hex(&mut s, id / 0x1_0000_0000_0000, 4);
    s.append("-");
    append_hex(&mut s, id, 12);
    s
}

} // verus!

//! Numbers written in hexadecimal digits.
use vstd::prelude::*;
use vstd::string::*;

verus! {

/// Sixteen to the power of `i`, for the eight digits of a 32-bit value.
pub open spec fn pow16(i: int) -> int {
    if i <= 0 {
        1
    } else if i == 1 {
        0x10
    } else if i == 2 {
        0x100
    } else if i == 3 {
        0x1000
    } else if i == 4 {
        0x1_0000
    } else if i == 5 {
        0x10_0000
    } else if i == 6 {
        0x100_0000
    } else {
        0x1000_0000
    }
}

/// The character for a hexadecimal digit, in upper or in lower case.
pub open spec fn hex_digit(d: int, upper: bool) -> char {
    if d == 0 {
        '0'
    } else if d == 1 {
        '1'
    } else if d == 2 {
        '2'
    } else if d == 3 {
        '3'
    } else if d == 4 {
        '4'
    } else if d == 5 {
        '5'
    } else if d == 6 {
        '6'
    } else if d == 7 {
        '7'
    } else if d == 8 {
        '8'
    } else if d == 9 {
        '9'
    } else if d == 10 {
        if upper {
            'A'
        } else {
            'a'
        }
    } else if d == 11 {
        if upper {
            'B'
        } else {
            'b'
        }
    } else if d == 12 {
        if upper {
            'C'
        } else {
            'c'
        }
    } else if d == 13 {
        if upper {
            'D'
        } else {
            'd'
        }
    } else if d == 14 {
        if upper {
            'E'
        } else {
            'e'
        }
    } else {
        if upper {
            'F'
        } else {
            'f'
        }
    }
}

/// The number of hexadecimal digits that a value needs: one for zero.
pub open spec fn hex_len(code: u32) -> int {
    if code >= 0x1000_0000 {
        8
    } else if code >= 0x100_0000 {
        7
    } else if code >= 0x10_0000 {
        6
    } else if code >= 0x1_0000 {
        5
    } else if code >= 0x1000 {
        4
    } else if code >= 0x100 {
        3
    } else if code >= 0x10 {
        2
    } else {
        1
    }
}

/// The number of digits that a value is written with where at least
/// `min_width` are asked for.
pub open spec fn hex_width(code: u32, min_width: int) -> int {
    if hex_len(code) >= min_width {
        hex_len(code)
    } else {
        min_width
    }
}

/// The hexadecimal digit of a value at place `i`, counted from the least
/// significant: zero from the eighth place on.
pub open spec fn hex_digit_at(code: u32, i: int) -> int {
    if i >= 8 {
        0
    } else {
        (code as int / pow16(i)) % 16
    }
}

/// A value in hexadecimal digits, most significant first, padded with zeros
/// to `min_width` digits.
pub open spec fn spec_hex(code: u32, min_width: int, upper: bool) -> Seq<char> {
    Seq::new(
        hex_width(code, min_width) as nat,
        |j: int| hex_digit(hex_digit_at(code, hex_width(code, min_width) - 1 - j), upper),
    )
}

/// Sixteen to the power of `i`.
fn power_of_16(i: usize) -> (p: u32)
    requires
        i < 8,
    ensures
        p == pow16(i as int),
        p > 0,
{
    if i == 0 {
        1
    } else if i == 1 {
        0x10
    } else if i == 2 {
        0x100
    } else if i == 3 {
        0x1000
    } else if i == 4 {
        0x1_0000
    } else if i == 5 {
        0x10_0000
    } else if i == 6 {
        0x100_0000
    } else {
        0x1000_0000
    }
}

/// The number of hexadecimal digits that a value needs.
fn digits_needed(code: u32) -> (n: usize)
    ensures
        n == hex_len(code),
{
    if code >= 0x1000_0000 {
        8
    } else if code >= 0x100_0000 {
        7
    } else if code >= 0x10_0000 {
        6
    } else if code >= 0x1_0000 {
        5
    } else if code >= 0x1000 {
        4
    } else if code >= 0x100 {
        3
    } else if code >= 0x10 {
        2
    } else {
        1
    }
}

/// The text of one hexadecimal digit.
fn hex_digit_text(d: u32, upper: bool) -> (text: &'static str)
    requires
        d < 16,
    ensures
        text@ == seq![hex_digit(d as int, upper)],
{
    proof {
        reveal_strlit("0");
        reveal_strlit("1");
        reveal_strlit("2");
        reveal_strlit("3");
        reveal_strlit("4");
        reveal_strlit("5");
        reveal_strlit("6");
        reveal_strlit("7");
        reveal_strlit("8");
        reveal_strlit("9");
        reveal_strlit("a");
        reveal_strlit("b");
        reveal_strlit("c");
        reveal_strlit("d");
        reveal_strlit("e");
        reveal_strlit("f");
        reveal_strlit("A");
        reveal_strlit("B");
        reveal_strlit("C");
        reveal_strlit("D");
        reveal_strlit("E");
        reveal_strlit("F");
    }
    let text: &'static str = if d == 0 {
        "0"
    } else if d == 1 {
        "1"
    } else if d == 2 {
        "2"
    } else if d == 3 {
        "3"
    } else if d == 4 {
        "4"
    } else if d == 5 {
        "5"
    } else if d == 6 {
        "6"
    } else if d == 7 {
        "7"
    } else if d == 8 {
        "8"
    } else if d == 9 {
        "9"
    } else if d == 10 {
        if upper {
            "A"
        } else {
            "a"
        }
    } else if d == 11 {
        if upper {
            "B"
        } else {
            "b"
        }
    } else if d == 12 {
        if upper {
            "C"
        } else {
            "c"
        }
    } else if d == 13 {
        if upper {
            "D"
        } else {
            "d"
        }
    } else if d == 14 {
        if upper {
            "E"
        } else {
            "e"
        }
    } else {
        if upper {
            "F"
        } else {
            "f"
        }
    };
    proof {
        assert(text@ =~= seq![hex_digit(d as int, upper)]);
    }
    text
}

/// Writes a value in hexadecimal digits behind what `text` holds, padded
/// with zeros to `min_width` digits.
pub fn push_hex(text: &mut String, code: u32, min_width: usize, upper: bool)
    ensures
        final(text)@ == old(text)@ + spec_hex(code, min_width as int, upper),
{
    let needed: usize = digits_needed(code);
    let width: usize = if needed >= min_width {
        needed
    } else {
        min_width
    };
    let ghost digits = spec_hex(code, min_width as int, upper);
    let mut j: usize = 0;
    proof {
        assert(old(text)@ + digits.take(0) =~= old(text)@);
    }
    while j < width
        invariant
            j <= width,
            width == hex_width(code, min_width as int),
            digits == spec_hex(code, min_width as int, upper),
            text@ == old(text)@ + digits.take(j as int),
        decreases width - j,
    {
        let place: usize = width - 1 - j;
        let digit: u32 = if place >= 8 {
            0
        } else {
            (code / power_of_16(place)) % 16
        };
        let ghost before = text@;
        text.append(hex_digit_text(digit, upper));
        proof {
            assert(digits.take(j + 1) =~= digits.take(j as int) + seq![hex_digit(digit as int, upper)]);
            assert(before + seq![hex_digit(digit as int, upper)] =~= old(text)@ + digits.take(j + 1));
        }
        j += 1;
    }
    proof {
        assert(digits.take(width as int) =~= digits);
    }
}

} // verus!

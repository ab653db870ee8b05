//! Verified textual rendering of numbers, for boot-time diagnostics: hex for
//! addresses, decimal for sizes.

use vstd::prelude::*;

verus! {

use vstd::string::StringExecFns;

/// The hexadecimal digit character for a value below 16.
pub open spec fn hex_digit_char(d: int) -> char {
    if d == 0 {
        '0'
    } else if d == 1 {
        '1'
    } else if d == 2 {
        '2'
    } else if d == 3 {
        '3'
    } else if d == 4 {
        '4'
    } else if d == 5 {
        '5'
    } else if d == 6 {
        '6'
    } else if d == 7 {
        '7'
    } else if d == 8 {
        '8'
    } else if d == 9 {
        '9'
    } else if d == 10 {
        'a'
    } else if d == 11 {
        'b'
    } else if d == 12 {
        'c'
    } else if d == 13 {
        'd'
    } else if d == 14 {
        'e'
    } else {
        'f'
    }
}

/// The hexadecimal rendering of `v`, most significant digit first, without
/// leading zeroes (a single `0` for zero itself).
pub open spec fn hex_seq(v: nat) -> Seq<char>
    decreases v,
{
    if v < 16 {
        seq![hex_digit_char(v as int)]
    } else {
        hex_seq(v / 16).push(hex_digit_char((v % 16) as int))
    }
}

/// The decimal rendering of `v`, most significant digit first, without
/// leading zeroes (a single `0` for zero itself).
pub open spec fn dec_seq(v: nat) -> Seq<char>
    decreases v,
{
    if v < 10 {
        seq![hex_digit_char(v as int)]
    } else {
        dec_seq(v / 10).push(hex_digit_char((v % 10) as int))
    }
}

fn hex_digit_str(d: u64) -> (r: &'static str)
    requires
        d < 16,
    ensures
        r@ == seq![hex_digit_char(d as int)],
{
    proof {
        reveal_strlit("0");
        reveal_strlit("1");
        reveal_strlit("2");
        reveal_strlit("3");
        reveal_strlit("4");
        reveal_strlit("5");
        reveal_strlit("6");
        reveal_strlit("7");
        reveal_strlit("8");
        reveal_strlit("9");
        reveal_strlit("a");
        reveal_strlit("b");
        reveal_strlit("c");
        reveal_strlit("d");
        reveal_strlit("e");
        reveal_strlit("f");
    }
    let r: &'static str = match d {
        0 => "0",
        1 => "1",
        2 => "2",
        3 => "3",
        4 => "4",
        5 => "5",
        6 => "6",
        7 => "7",
        8 => "8",
        9 => "9",
        10 => "a",
        11 => "b",
        12 => "c",
        13 => "d",
        14 => "e",
        _ => "f",
    };
    proof {
        assert(r@ =~= seq![hex_digit_char(d as int)]);
    }
    r
}

/// Render `v` in lower-case hexadecimal, without leading zeroes.
pub fn hex_string(v: u64) -> (s: String)
    ensures
        s@ == hex_seq(v as nat),
{
    let mut x = v / 16;
    let mut s = hex_digit_str(v % 16).to_owned();
    proof {
        if x > 0 {
            assert(hex_seq(v as nat) =~= hex_seq(x as nat) + s@);
        }
    }
    while x > 0
        invariant
            x == 0 ==> s@ == hex_seq(v as nat),
            x > 0 ==> hex_seq(v as nat) == hex_seq(x as nat) + s@,
        decreases x,
    {
        let d = x % 16;
        let mut t = hex_digit_str(d).to_owned();
        t.append(s.as_str());
        proof {
            if x >= 16 {
                assert(hex_seq(x as nat) + s@ =~= hex_seq((x / 16) as nat) + t@);
            } else {
                assert(hex_seq(x as nat) + s@ =~= t@);
            }
        }
        s = t;
        x = x / 16;
    }
    s
}

/// Render `v` in decimal, without leading zeroes.
pub fn dec_string(v: u128) -> (s: String)
    ensures
        s@ == dec_seq(v as nat),
{
    let mut x = v / 10;
    let d0 = (v % 10) as u64;
    let mut s = hex_digit_str(d0).to_owned();
    proof {
        if x > 0 {
            assert(dec_seq(v as nat) =~= dec_seq(x as nat) + s@);
        }
    }
    while x > 0
        invariant
            x == 0 ==> s@ == dec_seq(v as nat),
            x > 0 ==> dec_seq(v as nat) == dec_seq(x as nat) + s@,
        decreases x,
    {
        let d = (x % 10) as u64;
        let mut t = hex_digit_str(d).to_owned();
        t.append(s.as_str());
        proof {
            if x >= 10 {
                assert(dec_seq(x as nat) + s@ =~= dec_seq((x / 10) as nat) + t@);
            } else {
                assert(dec_seq(x as nat) + s@ =~= t@);
            }
        }
        s = t;
        x = x / 10;
    }
    s
}

} // verus!

//! Exact textual rendering of the numbers the driver puts into file names,
//! encoder arguments and cache identifiers: decimal integers, zero-padded
//! fields, fixed-point quality values, and trimmed per-mille fractions.

use vstd::prelude::*;

verus! {

/// The decimal digit character for a value below ten.
pub open spec fn spec_digit(d: int) -> char {
    if d == 0 {
        '0'
    } else if d == 1 {
        '1'
    } else if d == 2 {
        '2'
    } else if d == 3 {
        '3'
    } else if d == 4 {
        '4'
    } else if d == 5 {
        '5'
    } else if d == 6 {
        '6'
    } else if d == 7 {
        '7'
    } else if d == 8 {
        '8'
    } else {
        '9'
    }
}

/// The usual base-ten rendering of a natural number, no padding.
pub open spec fn spec_dec(n: nat) -> Seq<char>
    decreases n,
{
    if n < 10 {
        seq![spec_digit(n as int)]
    } else {
        spec_dec(n / 10) + seq![spec_digit((n % 10) as int)]
    }
}

/// The rendering of an integer: a minus sign ahead of the magnitude.
pub open spec fn spec_dec_signed(v: int) -> Seq<char> {
    if v < 0 {
        seq!['-'] + spec_dec((-v) as nat)
    } else {
        spec_dec(v as nat)
    }
}

/// `n` rendered in base ten, left-padded with zeros to at least `width`
/// characters.
pub open spec fn spec_zero_pad(n: nat, width: nat) -> Seq<char> {
    if spec_dec(n).len() >= width {
        spec_dec(n)
    } else {
        Seq::new((width - spec_dec(n).len()) as nat, |i: int| '0') + spec_dec(n)
    }
}

/// The digit character of a value below ten.
fn digit_str(d: u64) -> (r: &'static str)
    requires
        d < 10,
    ensures
        r@ =~= seq![spec_digit(d as int)],
{
    proof {
        reveal_strlit("0");
        reveal_strlit("1");
        reveal_strlit("2");
        reveal_strlit("3");
        reveal_strlit("4");
        reveal_strlit("5");
        reveal_strlit("6");
        reveal_strlit("7");
        reveal_strlit("8");
        reveal_strlit("9");
    }
    if d == 0 {
        "0"
    } else if d == 1 {
        "1"
    } else if d == 2 {
        "2"
    } else if d == 3 {
        "3"
    } else if d == 4 {
        "4"
    } else if d == 5 {
        "5"
    } else if d == 6 {
        "6"
    } else if d == 7 {
        "7"
    } else if d == 8 {
        "8"
    } else {
        "9"
    }
}

/// Renders a natural number in base ten.
pub fn u64_dec(n: u64) -> (r: String)
    ensures
        r@ == spec_dec(n as nat),
    decreases n,
{
    if n < 10 {
        let mut s = String::new();
        s.append(digit_str(n));
        proof {
            assert(s@ =~= spec_dec(n as nat));
        }
        s
    } else {
        let mut s = u64_dec(n / 10);
        s.append(digit_str(n % 10));
        proof {
            assert(s@ =~= spec_dec(n as nat));
        }
        s
    }
}

/// Renders an integer in base ten, minus sign included.
pub fn i64_dec(v: i64) -> (r: String)
    requires
        v > i64::MIN,
    ensures
        r@ == spec_dec_signed(v as int),
{
    if v < 0 {
        let mut s = String::new();
        s.append("-");
        proof {
            reveal_strlit("-");
        }
        let m = u64_dec((-v) as u64);
        s.append(m.as_str());
        proof {
            assert(s@ =~= spec_dec_signed(v as int));
        }
        s
    } else {
        u64_dec(v as u64)
    }
}

/// Renders `n` zero-padded to at least `width` characters.
pub fn zero_pad(n: u64, width: usize) -> (r: String)
    ensures
        r@ == spec_zero_pad(n as nat, width as nat),
{
    let digits = u64_dec(n);
    let len = digits.as_str().unicode_len();
    if len >= width {
        digits
    } else {
        let mut s = String::new();
        let mut k: usize = 0;
        while k < width - len
            invariant
                k <= width - len,
                len == spec_dec(n as nat).len(),
                len < width,
                s@ =~= Seq::new(k as nat, |i: int| '0'),
            decreases width - len - k,
        {
            s.append("0");
            proof {
                reveal_strlit("0");
                assert(s@ =~= Seq::new((k + 1) as nat, |i: int| '0'));
            }
            k += 1;
        }
        s.append(digits.as_str());
        proof {
            assert(s@ =~= spec_zero_pad(n as nat, width as nat));
        }
        s
    }
}

/// A value held in hundredths, rendered with exactly two decimal places and
/// zero-padded (after any minus sign) to at least `min_width` characters in
/// all: the shape a formatter gives a fractional quality value.
pub open spec fn spec_fixed2(hundredths: int, min_width: nat) -> Seq<char> {
    let m = if hundredths < 0 {
        -hundredths
    } else {
        hundredths
    };
    let frac = seq![spec_digit(m % 100 / 10), spec_digit(m % 10)];
    let digits_needed: nat = if hundredths < 0 && min_width >= 4 {
        (min_width - 4) as nat
    } else if hundredths >= 0 && min_width >= 3 {
        (min_width - 3) as nat
    } else {
        0
    };
    let body = spec_zero_pad((m / 100) as nat, digits_needed) + seq!['.'] + frac;
    if hundredths < 0 {
        seq!['-'] + body
    } else {
        body
    }
}

/// Renders a value held in hundredths with two decimal places, zero-padded
/// to at least `min_width` characters.
pub fn fixed2(hundredths: i64, min_width: usize) -> (r: String)
    requires
        hundredths > i64::MIN,
        min_width <= 100,
    ensures
        r@ == spec_fixed2(hundredths as int, min_width as nat),
{
    let m: u64 = if hundredths < 0 {
        (-hundredths) as u64
    } else {
        hundredths as u64
    };
    let digits_needed: usize = if hundredths < 0 && min_width >= 4 {
        min_width - 4
    } else if hundredths >= 0 && min_width >= 3 {
        min_width - 3
    } else {
        0
    };
    let mut s = String::new();
    if hundredths < 0 {
        s.append("-");
    }
    let ip = zero_pad(m / 100, digits_needed);
    s.append(ip.as_str());
    s.append(".");
    s.append(digit_str(m % 100 / 10));
    s.append(digit_str(m % 10));
    proof {
        reveal_strlit("-");
        reveal_strlit(".");
        assert(s@ =~= spec_fixed2(hundredths as int, min_width as nat));
    }
    s
}

/// A value held in thousandths rendered the way a float formatter shows it:
/// no decimal point for a whole value, and no trailing zeros otherwise.
pub open spec fn spec_milli(v: int) -> Seq<char> {
    let m = if v < 0 {
        -v
    } else {
        v
    };
    let sign: Seq<char> = if v < 0 {
        seq!['-']
    } else {
        Seq::empty()
    };
    let frac = m % 1000;
    if frac == 0 {
        sign + spec_dec((m / 1000) as nat)
    } else {
        let digits: Seq<char> = if frac % 100 == 0 {
            seq![spec_digit(frac / 100)]
        } else if frac % 10 == 0 {
            seq![spec_digit(frac / 100), spec_digit(frac / 10 % 10)]
        } else {
            seq![spec_digit(frac / 100), spec_digit(frac / 10 % 10), spec_digit(frac % 10)]
        };
        sign + spec_dec((m / 1000) as nat) + seq!['.'] + digits
    }
}

/// Renders a value held in thousandths, dropping trailing fractional zeros.
pub fn milli_string(v: i64) -> (r: String)
    requires
        v > i64::MIN,
    ensures
        r@ == spec_milli(v as int),
{
    let m: u64 = if v < 0 {
        (-v) as u64
    } else {
        v as u64
    };
    let frac = m % 1000;
    let mut s = String::new();
    if v < 0 {
        s.append("-");
    }
    let ip = u64_dec(m / 1000);
    s.append(ip.as_str());
    if frac != 0 {
        s.append(".");
        s.append(digit_str(frac / 100));
        if frac % 100 != 0 {
            s.append(digit_str(frac / 10 % 10));
            if frac % 10 != 0 {
                s.append(digit_str(frac % 10));
            }
        }
    }
    proof {
        reveal_strlit("-");
        reveal_strlit(".");
        assert(s@ =~= spec_milli(v as int));
    }
    s
}

/// The views of a vector of strings.
pub open spec fn seq_views(s: Seq<String>) -> Seq<Seq<char>> {
    s.map_values(|x: String| x@)
}

/// The parts joined with single spaces between them.
pub open spec fn spec_join_spaces(parts: Seq<Seq<char>>) -> Seq<char>
    decreases parts.len(),
{
    if parts.len() == 0 {
        Seq::empty()
    } else if parts.len() == 1 {
        parts[0]
    } else {
        spec_join_spaces(parts.drop_last()) + seq![' '] + parts.last()
    }
}

/// Joins strings with single spaces, the way an argument list is hashed.
pub fn join_spaces(parts: &Vec<String>) -> (r: String)
    ensures
        r@ == spec_join_spaces(seq_views(parts@)),
{
    let mut s = String::new();
    let mut i: usize = 0;
    while i < parts.len()
        invariant
            i <= parts.len(),
            s@ == spec_join_spaces(seq_views(parts@).take(i as int)),
        decreases parts.len() - i,
    {
        if i > 0 {
            s.append(" ");
            proof {
                reveal_strlit(" ");
            }
        }
        s.append(parts[i].as_str());
        proof {
            assert(seq_views(parts@).take(i + 1).drop_last() =~= seq_views(parts@).take(i as int));
            assert(seq_views(parts@).take(i + 1).last() == parts@[i as int]@);
            if i == 0 {
                assert(s@ =~= spec_join_spaces(seq_views(parts@).take(i + 1)));
            }
        }
        i += 1;
    }
    proof {
        assert(seq_views(parts@).take(parts@.len() as int) =~= seq_views(parts@));
    }
    s
}

} // verus!

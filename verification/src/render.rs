use vstd::prelude::*;

verus! {

/// The character for one decimal digit.
pub open spec fn digit_char(d: nat) -> char {
    if d == 0 {
        '0'
    } else if d == 1 {
        '1'
    } else if d == 2 {
        '2'
    } else if d == 3 {
        '3'
    } else if d == 4 {
        '4'
    } else if d == 5 {
        '5'
    } else if d == 6 {
        '6'
    } else if d == 7 {
        '7'
    } else if d == 8 {
        '8'
    } else {
        '9'
    }
}

/// The decimal digits of n, most significant first.
pub open spec fn dec_digits(n: nat) -> Seq<char>
    decreases n,
{
    if n < 10 {
        seq![digit_char(n)]
    } else {
        dec_digits(n / 10) + seq![digit_char(n % 10)]
    }
}

fn digit_str(d: u64) -> (r: &'static str)
    requires
        d < 10,
    ensures
        r@ == seq![digit_char(d as nat)],
{
    if d == 0 {
        proof {
            reveal_strlit("0");
            assert("0"@ =~= seq![digit_char(0)]);
        }
        "0"
    } else if d == 1 {
        proof {
            reveal_strlit("1");
            assert("1"@ =~= seq![digit_char(1)]);
        }
        "1"
    } else if d == 2 {
        proof {
            reveal_strlit("2");
            assert("2"@ =~= seq![digit_char(2)]);
        }
        "2"
    } else if d == 3 {
        proof {
            reveal_strlit("3");
            assert("3"@ =~= seq![digit_char(3)]);
        }
        "3"
    } else if d == 4 {
        proof {
            reveal_strlit("4");
            assert("4"@ =~= seq![digit_char(4)]);
        }
        "4"
    } else if d == 5 {
        proof {
            reveal_strlit("5");
            assert("5"@ =~= seq![digit_char(5)]);
        }
        "5"
    } else if d == 6 {
        proof {
            reveal_strlit("6");
            assert("6"@ =~= seq![digit_char(6)]);
        }
        "6"
    } else if d == 7 {
        proof {
            reveal_strlit("7");
            assert("7"@ =~= seq![digit_char(7)]);
        }
        "7"
    } else if d == 8 {
        proof {
            reveal_strlit("8");
            assert("8"@ =~= seq![digit_char(8)]);
        }
        "8"
    } else {
        proof {
            reveal_strlit("9");
            assert("9"@ =~= seq![digit_char(9)]);
        }
        "9"
    }
}

/// Renders an integer in decimal.
pub fn u64_to_dec_string(n: u64) -> (r: String)
    ensures
        r@ == dec_digits(n as nat),
    decreases n,
{
    if n < 10 {
        String::from_str(digit_str(n))
    } else {
        let mut r = u64_to_dec_string(n / 10);
        r.append(digit_str(n % 10));
        proof {
            assert(r@ =~= dec_digits(n as nat));
        }
        r
    }
}

/// The "current/maximum" strike display, e.g. "2/3".
pub open spec fn strikes_text(cur: u32, cap: u32) -> Seq<char> {
    dec_digits(cur as nat) + "/"@ + dec_digits(cap as nat)
}

pub fn strikes_to_string(cur: u32, cap: u32) -> (r: String)
    ensures
        r@ == strikes_text(cur, cap),
{
    let mut r = u64_to_dec_string(cur as u64);
    r.append("/");
    let tail = u64_to_dec_string(cap as u64);
    r.append(tail.as_str());
    r
}

/// A size in bytes rendered in gigabytes with two decimals, rounded to
/// the nearest hundredth of a gigabyte (ties rounded up), e.g. "1.00 GB".
pub open spec fn gb_text(size: u64) -> Seq<char> {
    let cent = ((size + 5_000_000) / 10_000_000) as nat;
    dec_digits(cent / 100) + "."@ + seq![digit_char((cent / 10) % 10), digit_char(cent % 10)]
        + " GB"@
}

pub fn size_to_gb_string(size: u64) -> (r: String)
    ensures
        r@ == gb_text(size),
{
    let q: u64 = size / 10_000_000;
    let rem: u64 = size % 10_000_000;
    let cent: u64 = q + (rem + 5_000_000) / 10_000_000;
    proof {
        assert(cent == (size + 5_000_000) / 10_000_000) by (nonlinear_arith)
            requires
                size == q * 10_000_000 + rem,
                rem < 10_000_000,
                cent == q + (rem + 5_000_000) / 10_000_000,
        ;
    }
    let mut r = u64_to_dec_string(cent / 100);
    r.append(".");
    r.append(digit_str((cent / 10) % 10));
    r.append(digit_str(cent % 10));
    r.append(" GB");
    proof {
        assert(r@ =~= gb_text(size));
    }
    r
}

/// A display name truncated to 32 characters.
pub open spec fn truncated_name(s: Seq<char>) -> Seq<char> {
    if s.len() <= 32 {
        s
    } else {
        s.take(32)
    }
}

pub fn truncate_name(name: &String) -> (r: String)
    ensures
        r@ == truncated_name(name@),
{
    let n = name.as_str().unicode_len();
    if n <= 32 {
        name.clone()
    } else {
        let sub = name.as_str().substring_char(0, 32);
        proof {
            assert(sub@ =~= name@.take(32));
        }
        sub.to_owned()
    }
}

} // verus!

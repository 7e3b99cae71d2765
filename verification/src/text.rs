//! Small verified string helpers: equality, decimal rendering, digits.
//!
//! Layer names, hex codes and display strings are assembled from these
//! building blocks; each function pins the exact character sequence it
//! produces.

use vstd::prelude::*;

verus! {

/// Whether two string slices hold the same characters.
pub fn str_eq(a: &str, b: &str) -> (r: bool)
    ensures
        r == (a@ == b@),
{
    let alen = a.unicode_len();
    let blen = b.unicode_len();
    if alen != blen {
        proof {
            assert(a@ != b@) by {
                assert(a@.len() != b@.len());
            }
        }
        return false;
    }
    let mut i: usize = 0;
    while i < alen
        invariant
            i <= alen,
            alen == a@.len(),
            alen == b@.len(),
            forall|j: int| 0 <= j < i ==> a@[j] == b@[j],
        decreases alen - i,
    {
        if a.get_char(i) != b.get_char(i) {
            proof {
                assert(a@[i as int] != b@[i as int]);
            }
            return false;
        }
        i = i + 1;
    }
    proof {
        assert(a@ =~= b@);
    }
    true
}

/// The character for one decimal digit.
pub open spec fn digit_char(d: int) -> char {
    if d == 0 {
        '0'
    } else if d == 1 {
        '1'
    } else if d == 2 {
        '2'
    } else if d == 3 {
        '3'
    } else if d == 4 {
        '4'
    } else if d == 5 {
        '5'
    } else if d == 6 {
        '6'
    } else if d == 7 {
        '7'
    } else if d == 8 {
        '8'
    } else {
        '9'
    }
}

/// The decimal rendering of a non-negative integer, most significant digit
/// first, with no leading zeros.
pub open spec fn dec_spec(n: int) -> Seq<char>
    decreases n,
{
    if n < 10 {
        seq![digit_char(n)]
    } else {
        dec_spec(n / 10) + seq![digit_char(n % 10)]
    }
}

/// One decimal digit as a string slice.
pub fn digit_str(d: u64) -> (r: &'static str)
    requires
        d < 10,
    ensures
        r@ =~= seq![digit_char(d as int)],
{
    proof {
        reveal_strlit("0");
        reveal_strlit("1");
        reveal_strlit("2");
        reveal_strlit("3");
        reveal_strlit("4");
        reveal_strlit("5");
        reveal_strlit("6");
        reveal_strlit("7");
        reveal_strlit("8");
        reveal_strlit("9");
    }
    if d == 0 {
        "0"
    } else if d == 1 {
        "1"
    } else if d == 2 {
        "2"
    } else if d == 3 {
        "3"
    } else if d == 4 {
        "4"
    } else if d == 5 {
        "5"
    } else if d == 6 {
        "6"
    } else if d == 7 {
        "7"
    } else if d == 8 {
        "8"
    } else {
        "9"
    }
}

/// Renders an integer in decimal.
pub fn u64_to_string(n: u64) -> (r: String)
    ensures
        r@ == dec_spec(n as int),
    decreases n,
{
    if n < 10 {
        let s = digit_str(n);
        let owned = s.to_owned();
        proof {
            assert(owned@ =~= dec_spec(n as int));
        }
        owned
    } else {
        let mut s = u64_to_string(n / 10);
        s.append(digit_str(n % 10));
        proof {
            assert(s@ =~= dec_spec(n as int));
        }
        s
    }
}

/// Whether every character of the sequence is a decimal digit.
pub open spec fn all_digits_spec(s: Seq<char>) -> bool {
    forall|i: int| 0 <= i < s.len() ==> 48 <= (#[trigger] s[i]) as u32 <= 57
}

/// The numeric value of a digit sequence, most significant first.
pub open spec fn dec_value_spec(s: Seq<char>) -> int
    decreases s.len(),
{
    if s.len() == 0 {
        0
    } else {
        dec_value_spec(s.drop_last()) * 10 + (s.last() as u32 - 48)
    }
}

/// Parses a non-empty decimal digit string into a 32-bit integer. Anything
/// else - an empty string, a non-digit character, or a value past the
/// 32-bit range - is `None`.
pub fn parse_u32(s: &str) -> (r: Option<u32>)
    ensures
        match r {
            Some(v) => s@.len() > 0 && all_digits_spec(s@) && v == dec_value_spec(s@),
            None => s@.len() == 0 || !all_digits_spec(s@) || dec_value_spec(s@) > u32::MAX,
        },
{
    let n = s.unicode_len();
    if n == 0 {
        return None;
    }
    let mut acc: u64 = 0;
    let mut i: usize = 0;
    proof {
        assert(s@.take(0) =~= Seq::<char>::empty());
    }
    while i < n
        invariant
            i <= n,
            n == s@.len(),
            forall|j: int| 0 <= j < i ==> 48 <= (#[trigger] s@[j]) as u32 <= 57,
            acc == (if dec_value_spec(s@.take(i as int)) <= 0x1_0000_0000 {
                dec_value_spec(s@.take(i as int))
            } else {
                0x1_0000_0000 as int
            }),
        decreases n - i,
    {
        let c = s.get_char(i);
        let v = c as u32;
        if v < 48 || v > 57 {
            return None;
        }
        let d = (v - 48) as u64;
        proof {
            assert(s@.take(i + 1).drop_last() =~= s@.take(i as int));
            assert(s@.take(i + 1).last() == s@[i as int]);
            assert(all_digits_spec(s@.take(i as int)));
            lemma_dec_value_nonneg(s@.take(i as int));
        }
        let next = acc * 10 + d;
        acc = if next >= 0x1_0000_0000 {
            0x1_0000_0000
        } else {
            next
        };
        proof {
            let ghost full = dec_value_spec(s@.take(i + 1));
            let ghost prev = dec_value_spec(s@.take(i as int));
            assert(full == prev * 10 + d);
            if prev > 0x1_0000_0000u64 {
                assert(prev * 10 + d > 0x1_0000_0000) by (nonlinear_arith)
                    requires
                        prev > 0x1_0000_0000u64,
                        d >= 0,
                ;
            }
        }
        i = i + 1;
    }
    proof {
        assert(s@.take(n as int) =~= s@);
        lemma_dec_value_nonneg(s@);
    }
    if acc <= 0xFFFF_FFFF {
        Some(acc as u32)
    } else {
        None
    }
}

/// The value of a digit string is never negative.
pub proof fn lemma_dec_value_nonneg(s: Seq<char>)
    requires
        all_digits_spec(s),
    ensures
        dec_value_spec(s) >= 0,
    decreases s.len(),
{
    if s.len() > 0 {
        assert(all_digits_spec(s.drop_last())) by {
            assert(forall|j: int|
                0 <= j < s.drop_last().len() ==> #[trigger] s.drop_last()[j] == s[j]);
        }
        lemma_dec_value_nonneg(s.drop_last());
        assert(dec_value_spec(s.drop_last()) * 10 >= 0) by (nonlinear_arith)
            requires
                dec_value_spec(s.drop_last()) >= 0,
        ;
    }
}

/// The `width` low decimal digits of a number, zero-padded, most
/// significant first.
pub open spec fn pad_spec(n: int, width: int) -> Seq<char>
    decreases width,
{
    if width <= 0 {
        Seq::empty()
    } else {
        pad_spec(n / 10, width - 1).push(digit_char(n % 10))
    }
}

/// Renders the `width` low decimal digits of a number, zero-padded.
pub fn padded_u64(n: u64, width: u64) -> (r: String)
    requires
        width <= 20,
    ensures
        r@ == pad_spec(n as int, width as int),
    decreases width,
{
    if width == 0 {
        let empty = String::new();
        proof {
            assert(empty@ =~= pad_spec(n as int, 0));
        }
        empty
    } else {
        let mut s = padded_u64(n / 10, width - 1);
        s.append(digit_str(n % 10));
        proof {
            assert(s@ =~= pad_spec(n as int, width as int));
        }
        s
    }
}

} // verus!

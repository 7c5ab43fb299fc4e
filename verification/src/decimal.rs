//! Base-10 encoding of Unix epoch timestamps: a whole number of seconds
//! becomes its decimal string, with no leading zeros ("0" for zero).

use vstd::prelude::*;
use vstd::string::*;

verus! {

/// The decimal digit character for a value in 0..=9.
pub open spec fn dec_digit(d: int) -> char {
    if d == 0 {
        '0'
    } else if d == 1 {
        '1'
    } else if d == 2 {
        '2'
    } else if d == 3 {
        '3'
    } else if d == 4 {
        '4'
    } else if d == 5 {
        '5'
    } else if d == 6 {
        '6'
    } else if d == 7 {
        '7'
    } else if d == 8 {
        '8'
    } else {
        '9'
    }
}

/// Whether `c` is an ASCII decimal digit.
pub open spec fn is_digit(c: char) -> bool {
    48 <= c as u32 <= 57
}

/// The numeric value of a digit character.
pub open spec fn digit_val(c: char) -> int {
    c as u32 - 48
}

/// The decimal digit string of a non-negative integer, most significant
/// digit first, with no leading zeros; `0` encodes as "0".
pub open spec fn dec_seq(n: int) -> Seq<char>
    recommends
        n >= 0,
    decreases n,
{
    if n < 10 {
        seq![dec_digit(n)]
    } else {
        dec_seq(n / 10).push(dec_digit(n % 10))
    }
}

/// The numeric value of a digit string (most significant digit first).
pub open spec fn digits_val(s: Seq<char>) -> int
    decreases s.len(),
{
    if s.len() == 0 {
        0
    } else {
        digits_val(s.drop_last()) * 10 + digit_val(s.last())
    }
}

/// Whether `s` is a non-empty string of decimal digit characters, i.e.
/// parseable as a non-negative integer.
pub open spec fn is_digit_seq(s: Seq<char>) -> bool {
    s.len() > 0 && forall|i: int| 0 <= i < s.len() ==> is_digit(#[trigger] s[i])
}

/// Every decimal encoding is a non-empty string of digit characters.
pub proof fn lemma_dec_seq_is_digit_seq(n: int)
    requires
        n >= 0,
    ensures
        is_digit_seq(dec_seq(n)),
    decreases n,
{
    if n < 10 {
        assert(is_digit(dec_digit(n)));
    } else {
        lemma_dec_seq_is_digit_seq(n / 10);
        assert(is_digit(dec_digit(n % 10)));
    }
}

/// Parsing a decimal encoding gives back the encoded value: the decimal
/// digit string of `n` denotes `n`.
pub proof fn lemma_dec_seq_val(n: int)
    requires
        n >= 0,
    ensures
        digits_val(dec_seq(n)) == n,
    decreases n,
{
    if n < 10 {
        let s = dec_seq(n);
        assert(s =~= seq![dec_digit(n)]);
        assert(s.last() == dec_digit(n));
        assert(s.drop_last() =~= Seq::<char>::empty());
        assert(digits_val(Seq::<char>::empty()) == 0);
        assert(digits_val(s) == digits_val(s.drop_last()) * 10 + digit_val(s.last()));
        assert(digit_val(dec_digit(n)) == n);
    } else {
        lemma_dec_seq_val(n / 10);
        let s = dec_seq(n);
        assert(s =~= dec_seq(n / 10).push(dec_digit(n % 10)));
        assert(s.last() == dec_digit(n % 10));
        assert(s.drop_last() =~= dec_seq(n / 10));
        assert(digits_val(s) == digits_val(s.drop_last()) * 10 + digit_val(s.last()));
        assert(digit_val(dec_digit(n % 10)) == n % 10);
        assert(digits_val(s) == (n / 10) * 10 + n % 10);
        assert((n / 10) * 10 + n % 10 == n) by {
            vstd::arithmetic::div_mod::lemma_fundamental_div_mod(n, 10);
        }
    }
}

/// A decimal encoding has no leading zero: only the value 0 starts with
/// the digit '0', as the one-character string "0".
pub proof fn lemma_dec_seq_no_leading_zero(n: int)
    requires
        n > 0,
    ensures
        dec_seq(n)[0] != '0',
    decreases n,
{
    if n >= 10 {
        lemma_dec_seq_no_leading_zero(n / 10);
        assert(dec_seq(n)[0] == dec_seq(n / 10)[0]);
    }
}

/// The single-character string for a digit value below ten.
fn digit_str(d: u64) -> (s: &'static str)
    requires
        d < 10,
    ensures
        s@ =~= seq![dec_digit(d as int)],
{
    match d {
        0 => {
            proof {
                reveal_strlit("0");
            }
            "0"
        },
        1 => {
            proof {
                reveal_strlit("1");
            }
            "1"
        },
        2 => {
            proof {
                reveal_strlit("2");
            }
            "2"
        },
        3 => {
            proof {
                reveal_strlit("3");
            }
            "3"
        },
        4 => {
            proof {
                reveal_strlit("4");
            }
            "4"
        },
        5 => {
            proof {
                reveal_strlit("5");
            }
            "5"
        },
        6 => {
            proof {
                reveal_strlit("6");
            }
            "6"
        },
        7 => {
            proof {
                reveal_strlit("7");
            }
            "7"
        },
        8 => {
            proof {
                reveal_strlit("8");
            }
            "8"
        },
        _ => {
            proof {
                reveal_strlit("9");
            }
            "9"
        },
    }
}

/// Encodes `n` as its decimal string: no leading zeros, "0" for zero.
pub fn dec_str(n: u64) -> (s: String)
    ensures
        s@ == dec_seq(n as int),
{
    let mut low: Vec<u64> = Vec::new();
    let mut m: u64 = n;
    while m >= 10
        invariant
            dec_seq(n as int) =~= dec_seq(m as int) + digits_rev(low@),
            forall|k: int| 0 <= k < low@.len() ==> #[trigger] low@[k] < 10,
        decreases m,
    {
        let d: u64 = m % 10;
        proof {
            assert(dec_seq(m as int) =~= dec_seq(m as int / 10).push(dec_digit(m as int % 10)));
            assert(low@.push(d).drop_last() =~= low@);
            assert(low@.push(d).last() == d);
            assert(digits_rev(low@.push(d)) =~= seq![dec_digit(d as int)] + digits_rev(low@));
            assert(dec_seq(m as int) + digits_rev(low@) =~= dec_seq(m as int / 10) + digits_rev(
                low@.push(d),
            ));
        }
        low.push(d);
        m = m / 10;
    }
    let mut s = String::new();
    s.append(digit_str(m));
    proof {
        assert(s@ =~= seq![dec_digit(m as int)]);
        assert(seq![dec_digit(m as int)] =~= dec_seq(m as int));
        lemma_digits_rev_len(low@);
        assert(dec_seq(n as int).take(dec_seq(n as int).len() - low@.len()) =~= dec_seq(m as int));
    }
    let mut j: usize = low.len();
    while j > 0
        invariant
            j <= low@.len(),
            forall|k: int| 0 <= k < low@.len() ==> #[trigger] low@[k] < 10,
            s@ =~= dec_seq(n as int).take(dec_seq(n as int).len() - j),
            dec_seq(n as int) =~= dec_seq(m as int) + digits_rev(low@),
            dec_seq(m as int).len() == 1,
        decreases j,
    {
        j = j - 1;
        proof {
            lemma_digits_rev_index(low@, j as int);
        }
        s.append(digit_str(low[j]));
        proof {
            let full = dec_seq(n as int);
            assert(full.take(full.len() - j) =~= full.take(full.len() - (j + 1)).push(
                full[full.len() - j - 1],
            ));
        }
    }
    proof {
        assert(dec_seq(n as int).take(dec_seq(n as int).len() as int) =~= dec_seq(n as int));
    }
    s
}

/// The digit characters of `low` read back to front: `low` holds digit
/// values least significant first.
spec fn digits_rev(low: Seq<u64>) -> Seq<char>
    decreases low.len(),
{
    if low.len() == 0 {
        Seq::empty()
    } else {
        seq![dec_digit(low.last() as int)] + digits_rev(low.drop_last())
    }
}

proof fn lemma_digits_rev_len(low: Seq<u64>)
    ensures
        digits_rev(low).len() == low.len(),
    decreases low.len(),
{
    if low.len() > 0 {
        lemma_digits_rev_len(low.drop_last());
    }
}

proof fn lemma_digits_rev_index(low: Seq<u64>, k: int)
    requires
        0 <= k < low.len(),
    ensures
        digits_rev(low).len() == low.len(),
        digits_rev(low)[low.len() - 1 - k] == dec_digit(low[k] as int),
    decreases low.len(),
{
    lemma_digits_rev_len(low);
    if k == low.len() - 1 {
        lemma_digits_rev_len(low.drop_last());
    } else {
        lemma_digits_rev_index(low.drop_last(), k);
        lemma_digits_rev_len(low.drop_last());
    }
}

} // verus!

//! Decimal rendering of the unsigned identifiers, and the value of a digit
//! string. Used by the error messages, the task labels and the persistence
//! format.

use vstd::prelude::*;
use vstd::string::StringExecFns;

verus! {

/// The character for one decimal digit.
pub open spec fn dec_digit(d: nat) -> char {
    if d == 0 {
        '0'
    } else if d == 1 {
        '1'
    } else if d == 2 {
        '2'
    } else if d == 3 {
        '3'
    } else if d == 4 {
        '4'
    } else if d == 5 {
        '5'
    } else if d == 6 {
        '6'
    } else if d == 7 {
        '7'
    } else if d == 8 {
        '8'
    } else {
        '9'
    }
}

/// The decimal rendering of a natural number, most significant digit first.
pub open spec fn dec_seq(n: nat) -> Seq<char>
    decreases n,
{
    if n < 10 {
        seq![dec_digit(n)]
    } else {
        dec_seq(n / 10).push(dec_digit(n % 10))
    }
}

pub open spec fn is_dec_digit(c: char) -> bool {
    '0' as int <= c as int <= '9' as int
}

pub open spec fn digit_val(c: char) -> nat {
    (c as int - '0' as int) as nat
}

/// A decimal rendering is never empty and consists of digits only.
pub proof fn lemma_dec_seq_digits(n: nat)
    ensures
        dec_seq(n).len() >= 1,
        forall|i: int| 0 <= i < dec_seq(n).len() ==> is_dec_digit(dec_seq(n)[i]),
    decreases n,
{
    if n >= 10 {
        lemma_dec_seq_digits(n / 10);
    }
}

/// The value an accumulator reaches after taking in the digits `ds`, most
/// significant first — the way a left-to-right scan reads a number.
pub open spec fn acc_val(acc: nat, ds: Seq<char>) -> nat
    decreases ds.len(),
{
    if ds.len() == 0 {
        acc
    } else {
        acc_val(acc * 10 + digit_val(ds[0]), ds.drop_first())
    }
}

/// Taking in digits never shrinks the accumulator.
pub proof fn lemma_acc_val_lower(acc: nat, ds: Seq<char>)
    ensures
        acc_val(acc, ds) >= acc,
    decreases ds.len(),
{
    if ds.len() > 0 {
        lemma_acc_val_lower(acc * 10 + digit_val(ds[0]), ds.drop_first());
    }
}

/// One more digit at the end multiplies by ten and adds it.
pub proof fn lemma_acc_val_push(acc: nat, ds: Seq<char>, d: char)
    ensures
        acc_val(acc, ds.push(d)) == acc_val(acc, ds) * 10 + digit_val(d),
    decreases ds.len(),
{
    if ds.len() == 0 {
        assert(ds.push(d)[0] == d);
        assert(ds.push(d).drop_first() =~= Seq::<char>::empty());
        assert(acc_val(acc * 10 + digit_val(d), Seq::<char>::empty()) == acc * 10 + digit_val(d));
        assert(acc_val(acc, ds) == acc);
    } else {
        assert(ds.push(d)[0] == ds[0]);
        assert(ds.push(d).drop_first() =~= ds.drop_first().push(d));
        lemma_acc_val_push(acc * 10 + digit_val(ds[0]), ds.drop_first(), d);
        assert(acc_val(acc, ds.push(d)) == acc_val(acc * 10 + digit_val(ds[0]), ds.drop_first().push(d)));
        assert(acc_val(acc, ds) == acc_val(acc * 10 + digit_val(ds[0]), ds.drop_first()));
    }
}

/// Scanning the decimal rendering of `n` from zero yields `n` again.
pub proof fn lemma_acc_val_dec_seq(n: nat)
    ensures
        acc_val(0, dec_seq(n)) == n,
    decreases n,
{
    assert(digit_val(dec_digit(n % 10)) == n % 10) by {
        assert('0' as int == 48);
    }
    if n < 10 {
        assert(n % 10 == n);
        assert(dec_seq(n) =~= Seq::<char>::empty().push(dec_digit(n)));
        lemma_acc_val_push(0, Seq::<char>::empty(), dec_digit(n));
    } else {
        lemma_acc_val_dec_seq(n / 10);
        lemma_acc_val_push(0, dec_seq(n / 10), dec_digit(n % 10));
        assert(n / 10 * 10 + n % 10 == n);
    }
}

/// The character for one hexadecimal digit, lower case.
pub open spec fn hex_digit(d: nat) -> char {
    if d < 10 {
        dec_digit(d)
    } else if d == 10 {
        'a'
    } else if d == 11 {
        'b'
    } else if d == 12 {
        'c'
    } else if d == 13 {
        'd'
    } else if d == 14 {
        'e'
    } else {
        'f'
    }
}

pub open spec fn is_hex_digit(c: char) -> bool {
    ||| is_dec_digit(c)
    ||| ('a' as int <= c as int && c as int <= 'f' as int)
    ||| ('A' as int <= c as int && c as int <= 'F' as int)
}

pub open spec fn hex_val(c: char) -> nat {
    if is_dec_digit(c) {
        digit_val(c)
    } else if 'a' as int <= c as int && c as int <= 'f' as int {
        (c as int - 'a' as int + 10) as nat
    } else {
        (c as int - 'A' as int + 10) as nat
    }
}

/// Reading a hexadecimal digit back gives its value.
pub proof fn lemma_hex_digit(d: nat)
    requires
        d < 16,
    ensures
        is_hex_digit(hex_digit(d)),
        hex_val(hex_digit(d)) == d,
{
    assert('0' as int == 48 && '9' as int == 57);
    assert('a' as int == 97 && 'f' as int == 102);
    assert('A' as int == 65 && 'F' as int == 70);
}

/// One digit as a string slice.
fn dec_digit_str(d: u64) -> (r: &'static str)
    requires
        d < 10,
    ensures
        r@ == seq![dec_digit(d as nat)],
{
    match d {
        0 => {
            proof {
                reveal_strlit("0");
                assert("0"@ =~= seq![dec_digit(0)]);
            }
            "0"
        },
        1 => {
            proof {
                reveal_strlit("1");
                assert("1"@ =~= seq![dec_digit(1)]);
            }
            "1"
        },
        2 => {
            proof {
                reveal_strlit("2");
                assert("2"@ =~= seq![dec_digit(2)]);
            }
            "2"
        },
        3 => {
            proof {
                reveal_strlit("3");
                assert("3"@ =~= seq![dec_digit(3)]);
            }
            "3"
        },
        4 => {
            proof {
                reveal_strlit("4");
                assert("4"@ =~= seq![dec_digit(4)]);
            }
            "4"
        },
        5 => {
            proof {
                reveal_strlit("5");
                assert("5"@ =~= seq![dec_digit(5)]);
            }
            "5"
        },
        6 => {
            proof {
                reveal_strlit("6");
                assert("6"@ =~= seq![dec_digit(6)]);
            }
            "6"
        },
        7 => {
            proof {
                reveal_strlit("7");
                assert("7"@ =~= seq![dec_digit(7)]);
            }
            "7"
        },
        8 => {
            proof {
                reveal_strlit("8");
                assert("8"@ =~= seq![dec_digit(8)]);
            }
            "8"
        },
        _ => {
            proof {
                reveal_strlit("9");
                assert("9"@ =~= seq![dec_digit(9)]);
            }
            "9"
        },
    }
}

/// Render a number in decimal, most significant digit first.
pub fn u64_to_string(n: u64) -> (r: String)
    ensures
        r@ == dec_seq(n as nat),
    decreases n,
{
    if n < 10 {
        String::from_str(dec_digit_str(n))
    } else {
        let mut s = u64_to_string(n / 10);
        s.append(dec_digit_str(n % 10));
        proof {
            assert(s@ =~= dec_seq(n as nat));
        }
        s
    }
}

} // verus!

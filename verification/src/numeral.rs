//! Decimal numerals: powers of ten, the value of a run of digit characters,
//! and rendering an unsigned integer back to decimal text.

use vstd::prelude::*;
use vstd::string::StringExecFns;

verus! {

/// `10^k`.
pub open spec fn pow10(k: nat) -> nat
    decreases k,
{
    if k == 0 {
        1
    } else {
        10 * pow10((k - 1) as nat)
    }
}

pub proof fn lemma_pow10_pos(k: nat)
    ensures
        pow10(k) >= 1,
    decreases k,
{
    if k > 0 {
        lemma_pow10_pos((k - 1) as nat);
    }
}

pub proof fn lemma_pow10_adds(a: nat, b: nat)
    ensures
        pow10(a + b) == pow10(a) * pow10(b),
    decreases a,
{
    if a == 0 {
        assert(pow10(0 + b) == 1 * pow10(b));
    } else {
        let a1 = (a - 1) as nat;
        lemma_pow10_adds(a1, b);
        let x = pow10(a1);
        let y = pow10(b);
        assert(a1 + b == a + b - 1);
        assert(pow10(a + b) == 10 * pow10((a + b - 1) as nat));
        assert(pow10((a + b - 1) as nat) == x * y);
        assert(10 * (x * y) == (10 * x) * y) by (nonlinear_arith);
        assert(pow10(a) == 10 * x);
        assert(pow10(a + b) == pow10(a) * pow10(b));
    }
}

pub proof fn lemma_pow10_mono(a: nat, b: nat)
    requires
        a <= b,
    ensures
        pow10(a) <= pow10(b),
    decreases b,
{
    if a < b {
        lemma_pow10_mono(a, (b - 1) as nat);
        lemma_pow10_pos((b - 1) as nat);
    }
}

/// `10^19` fits in a `u64`; `10^18` is the scale used for weight sums.
pub proof fn lemma_pow10_values()
    ensures
        pow10(18) == 0xDE0B6B3A7640000,
        pow10(19) == 0x8AC7230489E80000,
        pow10(19) <= u64::MAX,
{
    reveal_with_fuel(pow10, 21);
}

/// Whether `c` is an ASCII decimal digit.
pub open spec fn is_digit(c: char) -> bool {
    48 <= (c as u32) && (c as u32) <= 57
}

/// The numeric value of a digit character.
pub open spec fn digit_val(c: char) -> nat {
    ((c as u32) - 48) as nat
}

/// Whether every character of `s` is an ASCII decimal digit.
pub open spec fn all_digits(s: Seq<char>) -> bool {
    forall|i: int| 0 <= i < s.len() ==> is_digit(#[trigger] s[i])
}

/// The value of a run of digit characters, most significant first.
pub open spec fn digits_val(s: Seq<char>) -> nat
    decreases s.len(),
{
    if s.len() == 0 {
        0
    } else {
        digits_val(s.drop_last()) * 10 + digit_val(s.last())
    }
}

pub proof fn lemma_digits_val_bound(s: Seq<char>)
    requires
        all_digits(s),
    ensures
        digits_val(s) < pow10(s.len()),
    decreases s.len(),
{
    if s.len() > 0 {
        assert(all_digits(s.drop_last()));
        lemma_digits_val_bound(s.drop_last());
        assert(digit_val(s.last()) <= 9);
        assert(pow10(s.len()) == 10 * pow10((s.len() - 1) as nat));
    }
}

/// The digit character for a value below ten.
pub open spec fn digit_char(d: nat) -> char {
    if d == 0 {
        '0'
    } else if d == 1 {
        '1'
    } else if d == 2 {
        '2'
    } else if d == 3 {
        '3'
    } else if d == 4 {
        '4'
    } else if d == 5 {
        '5'
    } else if d == 6 {
        '6'
    } else if d == 7 {
        '7'
    } else if d == 8 {
        '8'
    } else {
        '9'
    }
}

/// The decimal rendering of `n`, most significant digit first, no leading
/// zeros (except for `n == 0`, which renders as `"0"`).
pub open spec fn dec_seq(n: nat) -> Seq<char>
    decreases n,
{
    if n < 10 {
        seq![digit_char(n)]
    } else {
        dec_seq(n / 10).push(digit_char(n % 10))
    }
}

/// The one-character string for a digit value.
fn digit_str(d: u64) -> (s: &'static str)
    requires
        d < 10,
    ensures
        s@ == seq![digit_char(d as nat)],
{
    proof {
        reveal_strlit("0");
        reveal_strlit("1");
        reveal_strlit("2");
        reveal_strlit("3");
        reveal_strlit("4");
        reveal_strlit("5");
        reveal_strlit("6");
        reveal_strlit("7");
        reveal_strlit("8");
        reveal_strlit("9");
    }
    if d == 0 {
        proof { assert("0"@ =~= seq![digit_char(0)]); }
        "0"
    } else if d == 1 {
        proof { assert("1"@ =~= seq![digit_char(1)]); }
        "1"
    } else if d == 2 {
        proof { assert("2"@ =~= seq![digit_char(2)]); }
        "2"
    } else if d == 3 {
        proof { assert("3"@ =~= seq![digit_char(3)]); }
        "3"
    } else if d == 4 {
        proof { assert("4"@ =~= seq![digit_char(4)]); }
        "4"
    } else if d == 5 {
        proof { assert("5"@ =~= seq![digit_char(5)]); }
        "5"
    } else if d == 6 {
        proof { assert("6"@ =~= seq![digit_char(6)]); }
        "6"
    } else if d == 7 {
        proof { assert("7"@ =~= seq![digit_char(7)]); }
        "7"
    } else if d == 8 {
        proof { assert("8"@ =~= seq![digit_char(8)]); }
        "8"
    } else {
        proof { assert("9"@ =~= seq![digit_char(9)]); }
        "9"
    }
}

/// Renders `n` as decimal text.
pub fn u64_to_string(n: u64) -> (s: String)
    ensures
        s@ == dec_seq(n as nat),
    decreases n,
{
    if n < 10 {
        digit_str(n).to_owned()
    } else {
        let mut s = u64_to_string(n / 10);
        let d = digit_str(n % 10);
        s.append(d);
        proof {
            assert(s@ =~= dec_seq((n / 10) as nat).push(digit_char((n % 10) as nat)));
        }
        s
    }
}

/// `10^k` as a `u64`.
pub fn pow10_u64(k: u32) -> (r: u64)
    requires
        k <= 19,
    ensures
        r == pow10(k as nat),
    decreases k,
{
    if k == 0 {
        1
    } else {
        let p = pow10_u64(k - 1);
        proof {
            lemma_pow10_mono((k - 1) as nat, 18);
            lemma_pow10_values();
        }
        10 * p
    }
}

} // verus!

//! Decimal text of integers: spec-level digit sequences and verified
//! formatting, with the lemmas that let callers recover a number from its
//! digits (used to show that the idempotency key determines the date).

use vstd::prelude::*;

verus! {

/// The character for one decimal digit.
pub open spec fn digit_char(d: int) -> char {
    if d == 0 {
        '0'
    } else if d == 1 {
        '1'
    } else if d == 2 {
        '2'
    } else if d == 3 {
        '3'
    } else if d == 4 {
        '4'
    } else if d == 5 {
        '5'
    } else if d == 6 {
        '6'
    } else if d == 7 {
        '7'
    } else if d == 8 {
        '8'
    } else {
        '9'
    }
}

/// Numeric value of a decimal digit character.
pub open spec fn digit_val(c: char) -> int {
    c as int - 48
}

/// Whether a character is a decimal digit.
pub open spec fn is_digit(c: char) -> bool {
    48 <= c as int <= 57
}

/// Decimal digit sequence of a natural number, without leading zeros
/// (a single '0' for zero).
pub open spec fn dec_digits(n: nat) -> Seq<char>
    decreases n,
{
    if n < 10 {
        seq![digit_char(n as int)]
    } else {
        dec_digits(n / 10) + seq![digit_char((n % 10) as int)]
    }
}

/// Decimal text of an integer: a leading '-' for negative numbers.
pub open spec fn dec_text(n: int) -> Seq<char> {
    if n < 0 {
        seq!['-'] + dec_digits((-n) as nat)
    } else {
        dec_digits(n as nat)
    }
}

/// A run of '0' characters.
pub open spec fn zeros(k: nat) -> Seq<char> {
    Seq::new(k, |i: int| '0')
}

/// `s` padded on the left with '0' up to width `w`.
pub open spec fn zero_pad(s: Seq<char>, w: nat) -> Seq<char> {
    if s.len() >= w {
        s
    } else {
        zeros((w - s.len()) as nat) + s
    }
}

/// The number whose digits a character sequence spells (most significant
/// first); meaningful when every character is a digit.
pub open spec fn seq_val(s: Seq<char>) -> int
    decreases s.len(),
{
    if s.len() == 0 {
        0
    } else {
        seq_val(s.drop_last()) * 10 + digit_val(s.last())
    }
}

pub proof fn lemma_digit_char_val(d: int)
    requires
        0 <= d <= 9,
    ensures
        digit_val(digit_char(d)) == d,
        is_digit(digit_char(d)),
{
}

/// Reading the digits of a number back gives the number.
pub proof fn lemma_dec_digits_val(n: nat)
    ensures
        seq_val(dec_digits(n)) == n,
    decreases n,
{
    if n < 10 {
        lemma_digit_char_val(n as int);
        let s = dec_digits(n);
        assert(s =~= seq![digit_char(n as int)]);
        assert(s.drop_last() =~= Seq::<char>::empty());
        assert(seq_val(s.drop_last()) == 0);
        assert(seq_val(s) == seq_val(s.drop_last()) * 10 + digit_val(s.last()));
        assert(s.last() == digit_char(n as int));
    } else {
        lemma_dec_digits_val(n / 10);
        lemma_digit_char_val((n % 10) as int);
        let s = dec_digits(n);
        assert(s =~= dec_digits(n / 10) + seq![digit_char((n % 10) as int)]);
        assert(s.drop_last() =~= dec_digits(n / 10));
        assert(s.last() == digit_char((n % 10) as int));
        assert(seq_val(s) == seq_val(s.drop_last()) * 10 + digit_val(s.last()));
        assert(seq_val(s) == (n / 10) * 10 + (n % 10));
        assert((n / 10) * 10 + (n % 10) == n) by {
            vstd::arithmetic::div_mod::lemma_fundamental_div_mod(n as int, 10);
        }
    }
}

/// Every character of a decimal digit sequence is a digit.
pub proof fn lemma_dec_digits_are_digits(n: nat)
    ensures
        forall|i: int| 0 <= i < dec_digits(n).len() ==> is_digit(#[trigger] dec_digits(n)[i]),
    decreases n,
{
    if n < 10 {
        lemma_digit_char_val(n as int);
        assert(dec_digits(n) =~= seq![digit_char(n as int)]);
    } else {
        lemma_dec_digits_are_digits(n / 10);
        lemma_digit_char_val((n % 10) as int);
        let s = dec_digits(n);
        assert(s =~= dec_digits(n / 10) + seq![digit_char((n % 10) as int)]);
        assert forall|i: int| 0 <= i < s.len() implies is_digit(#[trigger] s[i]) by {
            if i < s.len() - 1 {
                assert(s[i] == dec_digits(n / 10)[i]);
            } else {
                assert(s[i] == digit_char((n % 10) as int));
            }
        }
    }
}

/// How many digits small numbers have.
pub proof fn lemma_dec_digits_len(n: nat)
    ensures
        dec_digits(n).len() >= 1,
        n < 10 ==> dec_digits(n).len() == 1,
        10 <= n < 100 ==> dec_digits(n).len() == 2,
        100 <= n < 1000 ==> dec_digits(n).len() == 3,
        1000 <= n < 10000 ==> dec_digits(n).len() == 4,
        n >= 10000 ==> dec_digits(n).len() >= 5,
    decreases n,
{
    if n >= 10 {
        lemma_dec_digits_len(n / 10);
    }
}

/// A digit sequence spells a non-negative value.
pub proof fn lemma_seq_val_nonneg(s: Seq<char>)
    requires
        forall|i: int| 0 <= i < s.len() ==> is_digit(#[trigger] s[i]),
    ensures
        seq_val(s) >= 0,
    decreases s.len(),
{
    if s.len() > 0 {
        assert(is_digit(s.last()));
        lemma_seq_val_nonneg(s.drop_last());
    }
}

/// Leading zeros do not change the value a digit sequence spells.
pub proof fn lemma_seq_val_zeros_prefix(k: nat, s: Seq<char>)
    ensures
        seq_val(zeros(k) + s) == seq_val(s),
    decreases k + s.len(),
{
    if s.len() > 0 {
        assert((zeros(k) + s).drop_last() =~= zeros(k) + s.drop_last());
        assert((zeros(k) + s).last() == s.last());
        lemma_seq_val_zeros_prefix(k, s.drop_last());
    } else if k > 0 {
        assert(zeros(k) + s =~= zeros((k - 1) as nat) + seq!['0']);
        assert((zeros((k - 1) as nat) + seq!['0']).drop_last() =~= zeros((k - 1) as nat)
            + Seq::<char>::empty());
        lemma_seq_val_zeros_prefix((k - 1) as nat, Seq::<char>::empty());
        assert(seq_val(zeros(k) + s) == seq_val(zeros((k - 1) as nat)
            + Seq::<char>::empty()) * 10 + digit_val('0'));
    } else {
        assert(zeros(k) + s =~= s);
    }
}

/// Zero-padding keeps the spelled value; so equal padded digit strings of
/// equal width come from equal numbers.
pub proof fn lemma_zero_pad_val(n: nat, w: nat)
    ensures
        seq_val(zero_pad(dec_digits(n), w)) == n,
        zero_pad(dec_digits(n), w).len() >= w,
{
    lemma_dec_digits_val(n);
    lemma_dec_digits_len(n);
    if dec_digits(n).len() < w {
        lemma_seq_val_zeros_prefix((w - dec_digits(n).len()) as nat, dec_digits(n));
    }
}

/// Every character of a zero-padded digit sequence is a digit.
pub proof fn lemma_zero_pad_digits(n: nat, w: nat)
    ensures
        forall|i: int|
            0 <= i < zero_pad(dec_digits(n), w).len() ==> is_digit(
                #[trigger] zero_pad(dec_digits(n), w)[i],
            ),
{
    lemma_dec_digits_are_digits(n);
}

fn digit_str(d: u64) -> (r: &'static str)
    requires
        d < 10,
    ensures
        r@ =~= seq![digit_char(d as int)],
{
    let r = if d == 0 {
        "0"
    } else if d == 1 {
        "1"
    } else if d == 2 {
        "2"
    } else if d == 3 {
        "3"
    } else if d == 4 {
        "4"
    } else if d == 5 {
        "5"
    } else if d == 6 {
        "6"
    } else if d == 7 {
        "7"
    } else if d == 8 {
        "8"
    } else {
        "9"
    };
    proof {
        reveal_strlit("0");
        reveal_strlit("1");
        reveal_strlit("2");
        reveal_strlit("3");
        reveal_strlit("4");
        reveal_strlit("5");
        reveal_strlit("6");
        reveal_strlit("7");
        reveal_strlit("8");
        reveal_strlit("9");
    }
    r
}

/// The digit characters of `ds` read back to front.
spec fn rev_chars(ds: Seq<u64>) -> Seq<char> {
    Seq::new(ds.len(), |i: int| digit_char(ds[ds.len() - 1 - i] as int))
}

/// Decimal text of an unsigned number.
pub fn u64_to_string(n: u64) -> (s: String)
    ensures
        s@ == dec_digits(n as nat),
{
    let mut digits: Vec<u64> = Vec::new();
    let mut m = n;
    while m >= 10
        invariant
            dec_digits(n as nat) =~= dec_digits(m as nat) + rev_chars(digits@),
            forall|i: int| 0 <= i < digits@.len() ==> #[trigger] digits@[i] < 10,
        decreases m,
    {
        let d = m % 10;
        digits.push(d);
        proof {
            assert(rev_chars(digits@) =~= seq![digit_char(d as int)] + rev_chars(
                digits@.drop_last(),
            ));
            assert(dec_digits(m as nat) =~= dec_digits((m / 10) as nat) + seq![
                digit_char(d as int),
            ]);
        }
        m = m / 10;
    }
    digits.push(m);
    proof {
        assert(rev_chars(digits@) =~= seq![digit_char(m as int)] + rev_chars(
            digits@.drop_last(),
        ));
        assert(dec_digits(n as nat) =~= rev_chars(digits@));
    }
    let mut s = String::new();
    let count = digits.len();
    let mut i: usize = 0;
    while i < count
        invariant
            count == digits@.len(),
            i <= count,
            forall|k: int| 0 <= k < digits@.len() ==> #[trigger] digits@[k] < 10,
            dec_digits(n as nat) =~= rev_chars(digits@),
            s@ =~= rev_chars(digits@).take(i as int),
        decreases count - i,
    {
        let d = digits[count - 1 - i];
        s.append(digit_str(d));
        i = i + 1;
        proof {
            assert(s@ =~= rev_chars(digits@).take(i as int));
        }
    }
    proof {
        assert(s@ =~= dec_digits(n as nat));
    }
    s
}

/// Decimal text of a number, zero-padded on the left to at least two places.
pub fn u64_pad2(n: u64) -> (s: String)
    ensures
        s@ == zero_pad(dec_digits(n as nat), 2),
{
    proof {
        lemma_dec_digits_len(n as nat);
        reveal_strlit("0");
        reveal_strlit("");
    }
    let mut s = if n < 10 {
        String::from_str("0")
    } else {
        String::from_str("")
    };
    let ghost prefix = s@;
    let body = u64_to_string(n);
    s.append(body.as_str());
    proof {
        if n < 10 {
            assert(prefix =~= zeros(1));
        } else {
            assert(prefix =~= zeros(0));
            assert(s@ =~= dec_digits(n as nat));
        }
        assert(s@ =~= zero_pad(dec_digits(n as nat), 2));
    }
    s
}

/// Decimal text of a number, zero-padded on the left to at least four places.
pub fn u64_pad4(n: u64) -> (s: String)
    ensures
        s@ == zero_pad(dec_digits(n as nat), 4),
{
    proof {
        lemma_dec_digits_len(n as nat);
        reveal_strlit("000");
        reveal_strlit("00");
        reveal_strlit("0");
        reveal_strlit("");
    }
    let mut s = if n < 10 {
        String::from_str("000")
    } else if n < 100 {
        String::from_str("00")
    } else if n < 1000 {
        String::from_str("0")
    } else {
        String::from_str("")
    };
    let ghost prefix = s@;
    let body = u64_to_string(n);
    s.append(body.as_str());
    proof {
        if n < 10 {
            assert(prefix =~= zeros(3));
        } else if n < 100 {
            assert(prefix =~= zeros(2));
        } else if n < 1000 {
            assert(prefix =~= zeros(1));
        } else {
            assert(prefix =~= zeros(0));
            assert(s@ =~= dec_digits(n as nat));
        }
        assert(s@ =~= zero_pad(dec_digits(n as nat), 4));
    }
    s
}

/// Decimal text of a signed number.
pub fn i64_to_string(n: i64) -> (s: String)
    ensures
        s@ == dec_text(n as int),
{
    if n >= 0 {
        let s = u64_to_string(n as u64);
        s
    } else {
        proof {
            reveal_strlit("-");
        }
        let mut s = String::from_str("-");
        let mag: u64 = if n == i64::MIN {
            9223372036854775808u64
        } else {
            (-n) as u64
        };
        assert(mag == -(n as int));
        let body = u64_to_string(mag);
        s.append(body.as_str());
        proof {
            assert(s@ =~= seq!['-'] + dec_digits((-(n as int)) as nat));
        }
        s
    }
}

} // verus!

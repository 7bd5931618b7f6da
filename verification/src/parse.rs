//! The value parser: trim the message body, then accept exactly the decimal
//! floating-point literals (`Sign? Digits [. Digits] [(e|E) Sign? Digits]`)
//! whose magnitude stays inside the floating-point range, read from the text.
//! Everything else — words, stray characters, out-of-range magnitudes — is a
//! parse error. A measurement keeps the literal exactly as written.

use crate::numfmt::{digit_val, is_digit, lemma_seq_val_nonneg, seq_val};
use vstd::prelude::*;

verus! {

/// Unicode whitespace: the character set that trimming removes.
pub open spec fn is_space(c: char) -> bool {
    let u = c as int;
    u == 9 || u == 10 || u == 11 || u == 12 || u == 13 || u == 32 || u == 0x85 || u == 0xA0
        || u == 0x1680 || (0x2000 <= u && u <= 0x200A) || u == 0x2028 || u == 0x2029 || u == 0x202F
        || u == 0x205F || u == 0x3000
}

/// `s` without its leading whitespace.
pub open spec fn trim_front(s: Seq<char>) -> Seq<char>
    decreases s.len(),
{
    if s.len() > 0 && is_space(s[0]) {
        trim_front(s.drop_first())
    } else {
        s
    }
}

/// `s` without its trailing whitespace.
pub open spec fn trim_back(s: Seq<char>) -> Seq<char>
    decreases s.len(),
{
    if s.len() > 0 && is_space(s.last()) {
        trim_back(s.drop_last())
    } else {
        s
    }
}

/// `s` without surrounding whitespace.
pub open spec fn trimmed(s: Seq<char>) -> Seq<char> {
    trim_back(trim_front(s))
}

/// A sign character.
pub open spec fn is_sign(c: char) -> bool {
    c == '+' || c == '-'
}

/// Every character is a decimal digit.
pub open spec fn all_digits(s: Seq<char>) -> bool {
    forall|i: int| 0 <= i < s.len() ==> is_digit(#[trigger] s[i])
}

/// `Digit+ | Digit+ '.' Digit* | Digit* '.' Digit+`: digits with at most one
/// point and at least one digit.
pub open spec fn is_mantissa(s: Seq<char>) -> bool {
    s.len() > 0 && (all_digits(s) || exists|k: int|
        0 <= k < s.len() && #[trigger] s[k] == '.' && s.len() > 1 && all_digits(
            s.subrange(0, k),
        ) && all_digits(s.subrange(k + 1, s.len() as int)))
}

/// What may follow the exponent marker: `Sign? Digit+`.
pub open spec fn is_exponent_tail(s: Seq<char>) -> bool {
    if s.len() > 0 && is_sign(s[0]) {
        s.len() > 1 && all_digits(s.subrange(1, s.len() as int))
    } else {
        s.len() > 0 && all_digits(s)
    }
}

/// `Mantissa [('e'|'E') Sign? Digit+]`.
pub open spec fn is_number(s: Seq<char>) -> bool {
    is_mantissa(s) || exists|k: int|
        0 <= k < s.len() && (#[trigger] s[k] == 'e' || s[k] == 'E') && is_mantissa(
            s.subrange(0, k),
        ) && is_exponent_tail(s.subrange(k + 1, s.len() as int))
}

/// A complete decimal floating-point literal: `Sign? Number` — a sign, digits
/// with an optional fraction, and an optional exponent. Word forms such as an
/// infinity or a not-a-number are no measurements and are not accepted.
pub open spec fn is_float_literal(s: Seq<char>) -> bool {
    s.len() > 0 && {
        let body = if is_sign(s[0]) {
            s.subrange(1, s.len() as int)
        } else {
            s
        };
        is_number(body)
    }
}

/// What parsing yields: the trimmed text when it is a float literal within
/// the representable range.
pub open spec fn spec_parse(s: Seq<char>) -> Option<Seq<char>> {
    if is_float_literal(trimmed(s)) && literal_in_range(trimmed(s)) {
        Some(trimmed(s))
    } else {
        None
    }
}

/// Index of the first exponent marker, or the length when there is none.
pub open spec fn exp_index(s: Seq<char>) -> int
    decreases s.len(),
{
    if s.len() == 0 {
        0
    } else if s[0] == 'e' || s[0] == 'E' {
        0
    } else {
        1 + exp_index(s.drop_first())
    }
}

/// Index of the first decimal point, or the length when there is none.
pub open spec fn dot_index(s: Seq<char>) -> int
    decreases s.len(),
{
    if s.len() == 0 {
        0
    } else if s[0] == '.' {
        0
    } else {
        1 + dot_index(s.drop_first())
    }
}

/// Index of the first character that is not '0', or the length.
pub open spec fn nonzero_index(s: Seq<char>) -> int
    decreases s.len(),
{
    if s.len() == 0 {
        0
    } else if s[0] != '0' {
        0
    } else {
        1 + nonzero_index(s.drop_first())
    }
}

/// The significand of a number body: its mantissa digits with the point
/// removed.
pub open spec fn significand(b: Seq<char>) -> Seq<char> {
    let m = b.subrange(0, exp_index(b));
    if dot_index(m) < m.len() {
        m.subrange(0, dot_index(m)) + m.subrange(dot_index(m) + 1, m.len() as int)
    } else {
        m
    }
}

/// How many integer-part digits a number body has.
pub open spec fn int_digit_count(b: Seq<char>) -> int {
    let m = b.subrange(0, exp_index(b));
    if dot_index(m) < m.len() {
        dot_index(m)
    } else {
        m.len() as int
    }
}

/// The signed exponent a number body writes (zero when it writes none).
pub open spec fn exponent_value(b: Seq<char>) -> int {
    if exp_index(b) == b.len() {
        0
    } else {
        let t = b.subrange(exp_index(b) + 1, b.len() as int);
        if t.len() > 0 && t[0] == '-' {
            -seq_val(t.subrange(1, t.len() as int))
        } else if t.len() > 0 && t[0] == '+' {
            seq_val(t.subrange(1, t.len() as int))
        } else {
            seq_val(t)
        }
    }
}

/// The decade of a number body's magnitude: a body with a non-zero
/// significand denotes a value in [10^(mag-1), 10^mag).
pub open spec fn magnitude_exp(b: Seq<char>) -> int {
    int_digit_count(b) - nonzero_index(significand(b)) + exponent_value(b)
}

/// The decimal expansion of 2^1024 - 2^970, the overflow threshold of binary64
/// floating point: a value of this magnitude or more rounds to infinity, one
/// below it rounds to a finite number.
pub open spec fn overflow_digits() -> Seq<char> {
    "179769313486231580793728971405303415079934132710037826936173778980444968292764750946649017977587207096330286416692887910946555547851940402630657488671505820681908902000708383676273854845817711531764475730270069855571366959622842914819860834936475292719074168444365510704342711559699508093042880177904174497792"@
}

/// The significant digits from position `fz` on, padded with '0' to width `n`.
pub open spec fn sig_window(sig: Seq<char>, fz: int, n: int) -> Seq<char> {
    Seq::new(
        n as nat,
        |i: int|
            if fz + i < sig.len() {
                sig[fz + i]
            } else {
                '0'
            },
    )
}

/// Whether digit string `a` spells a smaller number than `b` of the same
/// length: they differ, and the first differing place is smaller in `a`.
pub open spec fn digits_below(a: Seq<char>, b: Seq<char>) -> bool
    decreases a.len(),
{
    if a.len() == 0 {
        false
    } else if (a[0] as int) != (b[0] as int) {
        (a[0] as int) < (b[0] as int)
    } else {
        digits_below(a.drop_first(), b.drop_first())
    }
}

/// The range test, read from the text. A literal whose magnitude reaches the
/// binary64 overflow threshold (about 1.798*10^308) denotes a value outside
/// the floating-point range: zero and everything below decade 309 is in, from
/// decade 310 on everything is out, and in decade 309 the significant digits
/// are compared against the threshold's expansion.
pub open spec fn literal_in_range(s: Seq<char>) -> bool {
    s.len() > 0 && {
        let b = if is_sign(s[0]) {
            s.subrange(1, s.len() as int)
        } else {
            s
        };
        let sig = significand(b);
        let fz = nonzero_index(sig);
        fz == sig.len() || magnitude_exp(b) <= 308 || (magnitude_exp(b) == 309 && digits_below(
            sig_window(sig, fz, 309),
            overflow_digits(),
        ))
    }
}

/// A numeric measurement, kept as the literal text it was written as.
pub struct Measurement {
    pub text: String,
}

impl View for Measurement {
    type V = Seq<char>;

    open spec fn view(&self) -> Seq<char> {
        self.text@
    }
}

impl Measurement {
    /// The text is a well-formed float literal within range.
    pub open spec fn wf(self) -> bool {
        is_float_literal(self.text@) && literal_in_range(self.text@)
    }
}

/// The message body is not a number; such messages are dropped silently.
pub struct ParseError;

fn char_is_space(c: char) -> (r: bool)
    ensures
        r == is_space(c),
{
    let u = c as u32;
    u == 9 || u == 10 || u == 11 || u == 12 || u == 13 || u == 32 || u == 0x85 || u == 0xA0
        || u == 0x1680 || (0x2000 <= u && u <= 0x200A) || u == 0x2028 || u == 0x2029 || u == 0x202F
        || u == 0x205F || u == 0x3000
}

fn char_is_digit(c: char) -> (r: bool)
    ensures
        r == is_digit(c),
{
    let u = c as u32;
    48 <= u && u <= 57
}

fn char_is_sign(c: char) -> (r: bool)
    ensures
        r == is_sign(c),
{
    c == '+' || c == '-'
}

/// First position at or after `from` (up to `to`) whose character is not a
/// digit.
fn scan_digits(s: &str, from: usize, to: usize) -> (r: usize)
    requires
        from <= to <= s@.len(),
    ensures
        from <= r <= to,
        all_digits(s@.subrange(from as int, r as int)),
        r < to ==> !is_digit(s@[r as int]),
{
    let mut i = from;
    while i < to
        invariant
            from <= i <= to <= s@.len(),
            all_digits(s@.subrange(from as int, i as int)),
        decreases to - i,
    {
        let c = s.get_char(i);
        if !char_is_digit(c) {
            return i;
        }
        proof {
            assert forall|j: int| 0 <= j < i + 1 - from implies is_digit(
                #[trigger] s@.subrange(from as int, i + 1)[j],
            ) by {
                if j < i - from {
                    assert(s@.subrange(from as int, i as int)[j] == s@[from + j]);
                }
                assert(s@.subrange(from as int, i + 1)[j] == s@[from + j]);
            }
        }
        i = i + 1;
    }
    i
}

/// A mantissa holds only digits and at most one point.
proof fn lemma_mantissa_chars(b: Seq<char>)
    requires
        is_mantissa(b),
    ensures
        forall|i: int| 0 <= i < b.len() ==> is_digit(#[trigger] b[i]) || b[i] == '.',
        forall|i: int, j: int| 0 <= i < j < b.len() && b[i] == '.' ==> b[j] != '.',
{
    if all_digits(b) {
        assert forall|i: int, j: int| 0 <= i < j < b.len() && b[i] == '.' implies b[j] != '.' by {
            assert(is_digit(b[i]));
        }
    } else {
        let k = choose|k: int|
            0 <= k < b.len() && #[trigger] b[k] == '.' && b.len() > 1 && all_digits(
                b.subrange(0, k),
            ) && all_digits(b.subrange(k + 1, b.len() as int));
        assert forall|i: int| 0 <= i < b.len() implies is_digit(#[trigger] b[i]) || b[i] == '.' by {
            if i < k {
                assert(b.subrange(0, k)[i] == b[i]);
                assert(is_digit(b.subrange(0, k)[i]));
            } else if i > k {
                assert(b.subrange(k + 1, b.len() as int)[i - k - 1] == b[i]);
                assert(is_digit(b.subrange(k + 1, b.len() as int)[i - k - 1]));
            }
        }
        assert forall|i: int, j: int| 0 <= i < j < b.len() && b[i] == '.' implies b[j] != '.' by {
            if i < k {
                assert(b.subrange(0, k)[i] == b[i]);
                assert(is_digit(b.subrange(0, k)[i]));
            } else if i > k {
                assert(b.subrange(k + 1, b.len() as int)[i - k - 1] == b[i]);
                assert(is_digit(b.subrange(k + 1, b.len() as int)[i - k - 1]));
            } else {
                assert(j > k);
                assert(b.subrange(k + 1, b.len() as int)[j - k - 1] == b[j]);
                assert(is_digit(b.subrange(k + 1, b.len() as int)[j - k - 1]));
            }
        }
    }
}

/// A window scanned as `Digit* ['.' Digit*]` is a mantissa exactly when it
/// holds at least one digit.
proof fn lemma_mantissa_window(s: Seq<char>, start: int, d1_end: int, p: int, saw_dot: bool)
    requires
        0 <= start <= d1_end <= p <= s.len(),
        all_digits(s.subrange(start, d1_end)),
        saw_dot ==> d1_end < p && s[d1_end] == '.' && all_digits(s.subrange(d1_end + 1, p)),
        !saw_dot ==> p == d1_end,
    ensures
        is_mantissa(s.subrange(start, p)) == (p > start && !(saw_dot && p == start + 1)),
{
    let m = s.subrange(start, p);
    if !saw_dot {
        assert(m =~= s.subrange(start, d1_end));
        if p > start {
            assert(is_mantissa(m));
        } else {
            assert(m.len() == 0);
        }
    } else {
        let kd = d1_end - start;
        assert(m[kd] == s[d1_end]);
        if p > start + 1 {
            assert(m.subrange(0, kd) =~= s.subrange(start, d1_end));
            assert(m.subrange(kd + 1, m.len() as int) =~= s.subrange(d1_end + 1, p));
            assert(is_mantissa(m));
        } else {
            // the window is "." alone
            assert(m.len() == 1 && m[0] == '.');
            assert(!is_digit(m[0]));
            assert(!all_digits(m));
            assert(!is_mantissa(m));
        }
    }
}

/// Whether the window `[from, to)` of `s` is a complete float literal.
#[verifier::rlimit(100)]
fn is_float_text(s: &str, from: usize, to: usize) -> (r: bool)
    requires
        from <= to <= s@.len(),
    ensures
        r == is_float_literal(s@.subrange(from as int, to as int)),
{
    let ghost w = s@.subrange(from as int, to as int);
    if from == to {
        return false;
    }
    let c0 = s.get_char(from);
    let start = if char_is_sign(c0) {
        from + 1
    } else {
        from
    };
    let ghost b = s@.subrange(start as int, to as int);
    proof {
        assert(w[0] == c0);
        if is_sign(c0) {
            assert(w.subrange(1, w.len() as int) =~= b);
        } else {
            assert(w =~= b);
        }
        assert(is_float_literal(w) == is_number(b));
    }
    let d1_end = scan_digits(s, start, to);
    let mut p = d1_end;
    let mut saw_dot = false;
    if p < to && s.get_char(p) == '.' {
        saw_dot = true;
        p = scan_digits(s, p + 1, to);
    }
    let ghost j0 = d1_end - start;
    let ghost j = p - start;
    proof {
        // every scanned character is a digit, or the one point
        assert forall|k: int| 0 <= k < j implies (is_digit(#[trigger] b[k]) || (saw_dot && k == j0
            && b[k] == '.')) by {
            assert(b[k] == s@[start + k]);
            if k < j0 {
                assert(s@.subrange(start as int, d1_end as int)[k] == s@[start + k]);
                assert(is_digit(s@.subrange(start as int, d1_end as int)[k]));
            } else if saw_dot && k > j0 {
                assert(s@.subrange(d1_end + 1, p as int)[k - j0 - 1] == s@[start + k]);
                assert(is_digit(s@.subrange(d1_end + 1, p as int)[k - j0 - 1]));
            }
        }
        assert(b.subrange(0, j) =~= s@.subrange(start as int, p as int));
        lemma_mantissa_window(s@, start as int, d1_end as int, p as int, saw_dot);
    }
    let mant_ok = p > start && !(saw_dot && p == start + 1);
    if p == to {
        proof {
            assert(b =~= b.subrange(0, j));
            if !mant_ok {
                assert forall|k: int| 0 <= k < b.len() implies !(#[trigger] b[k] == 'e' || b[k]
                    == 'E') by {
                    assert(is_digit(b[k]) || b[k] == '.');
                }
                assert(!is_number(b));
            }
        }
        return mant_ok;
    }
    let ce = s.get_char(p);
    proof {
        assert(b[j] == ce);
        assert(!is_digit(ce));
        if !saw_dot {
            assert(ce != '.');
        }
    }
    if !(ce == 'e' || ce == 'E') {
        proof {
            // the blocking character is neither a digit, nor a second point,
            // nor an exponent marker: no reading succeeds
            if is_mantissa(b) {
                lemma_mantissa_chars(b);
                if saw_dot {
                    assert(b[j0] == '.');
                }
                assert(false);
            }
            assert forall|k: int|
                0 <= k < b.len() && (#[trigger] b[k] == 'e' || b[k] == 'E') implies !(is_mantissa(
                b.subrange(0, k),
            ) && is_exponent_tail(b.subrange(k + 1, b.len() as int))) by {
                if k < j {
                    assert(is_digit(b[k]) || b[k] == '.');
                    assert(false);
                } else if k == j {
                    assert(false);
                } else {
                    if is_mantissa(b.subrange(0, k)) {
                        lemma_mantissa_chars(b.subrange(0, k));
                        assert(b.subrange(0, k)[j] == b[j]);
                        if saw_dot {
                            assert(b.subrange(0, k)[j0] == b[j0]);
                        }
                        assert(false);
                    }
                }
            }
            assert(!is_number(b));
        }
        return false;
    }
    proof {
        // the body holds an exponent marker at j, so it is no plain mantissa
        if is_mantissa(b) {
            lemma_mantissa_chars(b);
            assert(is_digit(b[j]) || b[j] == '.');
            assert(false);
        }
        // and no marker can stand elsewhere
        assert forall|k: int|
            0 <= k < b.len() && (#[trigger] b[k] == 'e' || b[k] == 'E') && k != j implies !(
        is_mantissa(b.subrange(0, k)) && is_exponent_tail(
            b.subrange(k + 1, b.len() as int),
        )) by {
            if k < j {
                assert(is_digit(b[k]) || b[k] == '.');
                assert(false);
            } else {
                if is_mantissa(b.subrange(0, k)) {
                    lemma_mantissa_chars(b.subrange(0, k));
                    assert(b.subrange(0, k)[j] == b[j]);
                    assert(false);
                }
            }
        }
    }
    if !mant_ok {
        proof {
            assert(!is_mantissa(b.subrange(0, j)));
            assert forall|k: int|
                0 <= k < b.len() && (#[trigger] b[k] == 'e' || b[k] == 'E') implies !(is_mantissa(
                b.subrange(0, k),
            ) && is_exponent_tail(b.subrange(k + 1, b.len() as int))) by {
                if k == j {
                    assert(b.subrange(0, k) =~= b.subrange(0, j));
                }
            }
            assert(!is_number(b));
        }
        return false;
    }
    let q0 = p + 1;
    let ghost t0 = b.subrange(j + 1, b.len() as int);
    proof {
        assert(t0 =~= s@.subrange(q0 as int, to as int));
    }
    let mut q = q0;
    if q0 < to {
        let cs = s.get_char(q0);
        if char_is_sign(cs) {
            q = q0 + 1;
        }
        proof {
            assert(t0[0] == cs);
        }
    }
    let d3_end = scan_digits(s, q, to);
    let exp_ok = d3_end == to && d3_end > q;
    proof {
        let tail_ok = is_exponent_tail(t0);
        if q0 == to {
            assert(t0.len() == 0);
            assert(!tail_ok);
            assert(!exp_ok);
        } else {
            let td = if q > q0 {
                1int
            } else {
                0int
            };
            assert(q > q0 ==> is_sign(t0[0]));
            assert(q == q0 ==> !is_sign(t0[0]));
            let t = t0.subrange(td, t0.len() as int);
            assert(t =~= s@.subrange(q as int, to as int));
            assert(tail_ok == (t.len() > 0 && all_digits(t)));
            if exp_ok {
                assert(t =~= s@.subrange(q as int, d3_end as int));
                assert(tail_ok);
            } else if d3_end < to {
                assert(t[d3_end - q] == s@[d3_end as int]);
                assert(!is_digit(t[d3_end - q]));
                assert(!tail_ok);
            } else {
                assert(d3_end == q && q == to);
                assert(t.len() == 0);
                assert(!tail_ok);
            }
        }
        if exp_ok {
            assert(b[j] == 'e' || b[j] == 'E');
            assert(is_mantissa(b.subrange(0, j)));
            assert(is_number(b));
        } else {
            assert forall|k: int|
                0 <= k < b.len() && (#[trigger] b[k] == 'e' || b[k] == 'E') implies !(is_mantissa(
                b.subrange(0, k),
            ) && is_exponent_tail(b.subrange(k + 1, b.len() as int))) by {
                if k == j {
                    assert(b.subrange(k + 1, b.len() as int) =~= t0);
                    assert(!is_exponent_tail(t0));
                }
            }
            assert(!is_number(b));
        }
    }
    exp_ok
}

/// `exp_index` is the position of the first marker.
proof fn lemma_exp_index_at(s: Seq<char>, j: int)
    requires
        0 <= j <= s.len(),
        forall|k: int| 0 <= k < j ==> !((#[trigger] s[k]) == 'e' || s[k] == 'E'),
        j < s.len() ==> (s[j] == 'e' || s[j] == 'E'),
    ensures
        exp_index(s) == j,
    decreases s.len(),
{
    if s.len() == 0 {
    } else if s[0] == 'e' || s[0] == 'E' {
        if j > 0 {
            assert(!(s[0] == 'e' || s[0] == 'E'));
        }
    } else {
        assert(j >= 1) by {
            if j == 0 {
                assert(j < s.len());
            }
        }
        let s2 = s.drop_first();
        assert forall|k: int| 0 <= k < j - 1 implies !((#[trigger] s2[k]) == 'e' || s2[k]
            == 'E') by {
            assert(s2[k] == s[k + 1]);
        }
        assert(j - 1 < s2.len() ==> (s2[j - 1] == 'e' || s2[j - 1] == 'E')) by {
            if j - 1 < s2.len() {
                assert(s2[j - 1] == s[j]);
            }
        }
        lemma_exp_index_at(s2, j - 1);
    }
}

/// `dot_index` is the position of the first point.
proof fn lemma_dot_index_at(s: Seq<char>, j: int)
    requires
        0 <= j <= s.len(),
        forall|k: int| 0 <= k < j ==> (#[trigger] s[k]) != '.',
        j < s.len() ==> s[j] == '.',
    ensures
        dot_index(s) == j,
    decreases s.len(),
{
    if s.len() == 0 {
    } else if s[0] == '.' {
        if j > 0 {
            assert(s[0] != '.');
        }
    } else {
        assert(j >= 1) by {
            if j == 0 {
                assert(j < s.len());
            }
        }
        let s2 = s.drop_first();
        assert forall|k: int| 0 <= k < j - 1 implies (#[trigger] s2[k]) != '.' by {
            assert(s2[k] == s[k + 1]);
        }
        assert(j - 1 < s2.len() ==> s2[j - 1] == '.') by {
            if j - 1 < s2.len() {
                assert(s2[j - 1] == s[j]);
            }
        }
        lemma_dot_index_at(s2, j - 1);
    }
}

/// `nonzero_index` is the position of the first character that is not '0'.
proof fn lemma_nonzero_index_at(s: Seq<char>, j: int)
    requires
        0 <= j <= s.len(),
        forall|k: int| 0 <= k < j ==> (#[trigger] s[k]) == '0',
        j < s.len() ==> s[j] != '0',
    ensures
        nonzero_index(s) == j,
    decreases s.len(),
{
    if s.len() == 0 {
    } else if s[0] != '0' {
        if j > 0 {
            assert(s[0] == '0');
        }
    } else {
        assert(j >= 1) by {
            if j == 0 {
                assert(j < s.len());
            }
        }
        let s2 = s.drop_first();
        assert forall|k: int| 0 <= k < j - 1 implies (#[trigger] s2[k]) == '0' by {
            assert(s2[k] == s[k + 1]);
        }
        assert(j - 1 < s2.len() ==> s2[j - 1] != '0') by {
            if j - 1 < s2.len() {
                assert(s2[j - 1] == s[j]);
            }
        }
        lemma_nonzero_index_at(s2, j - 1);
    }
}

/// What `digits_below` says at the first undecided place: with all places
/// before `i` equal, the verdict is read off at `i`.
proof fn lemma_digits_below_at(a: Seq<char>, b: Seq<char>, i: int)
    requires
        a.len() == b.len(),
        0 <= i <= a.len(),
        forall|k: int| 0 <= k < i ==> ((#[trigger] a[k]) as int) == (b[k] as int),
    ensures
        i == a.len() ==> !digits_below(a, b),
        i < a.len() && (a[i] as int) < (b[i] as int) ==> digits_below(a, b),
        i < a.len() && (a[i] as int) > (b[i] as int) ==> !digits_below(a, b),
    decreases a.len(),
{
    if a.len() == 0 {
    } else if i == 0 {
    } else {
        assert((a[0] as int) == (b[0] as int));
        let a2 = a.drop_first();
        let b2 = b.drop_first();
        assert forall|k: int| 0 <= k < i - 1 implies ((#[trigger] a2[k]) as int) == (b2[k] as int) by {
            assert(a2[k] == a[k + 1]);
            assert(b2[k] == b[k + 1]);
        }
        lemma_digits_below_at(a2, b2, i - 1);
        if i < a.len() {
            assert(a2[i - 1] == a[i] && b2[i - 1] == b[i]);
        }
    }
}

/// In a number whose first exponent marker stands at `j`, the grammar splits
/// exactly there: a mantissa before it, `Sign? Digit+` after it.
proof fn lemma_number_structure(b: Seq<char>, j: int)
    requires
        is_number(b),
        0 <= j < b.len(),
        b[j] == 'e' || b[j] == 'E',
        forall|k: int| 0 <= k < j ==> !((#[trigger] b[k]) == 'e' || b[k] == 'E'),
    ensures
        is_mantissa(b.subrange(0, j)),
        is_exponent_tail(b.subrange(j + 1, b.len() as int)),
{
    if is_mantissa(b) {
        lemma_mantissa_chars(b);
        assert(is_digit(b[j]) || b[j] == '.');
        assert(false);
    }
    let k = choose|k: int|
        0 <= k < b.len() && (#[trigger] b[k] == 'e' || b[k] == 'E') && is_mantissa(
            b.subrange(0, k),
        ) && is_exponent_tail(b.subrange(k + 1, b.len() as int));
    if k < j {
        assert(!(b[k] == 'e' || b[k] == 'E'));
        assert(false);
    }
    if k > j {
        lemma_mantissa_chars(b.subrange(0, k));
        assert(b.subrange(0, k)[j] == b[j]);
        assert(is_digit(b[j]) || b[j] == '.');
        assert(false);
    }
    assert(k == j);
}

/// First position in `[from, to)` holding an exponent marker, or `to`.
fn find_exp_marker(s: &str, from: usize, to: usize) -> (r: usize)
    requires
        from <= to <= s@.len(),
    ensures
        from <= r <= to,
        forall|k: int| from <= k < r ==> !((#[trigger] s@[k]) == 'e' || s@[k] == 'E'),
        r < to ==> (s@[r as int] == 'e' || s@[r as int] == 'E'),
{
    let mut i = from;
    while i < to
        invariant
            from <= i <= to <= s@.len(),
            forall|k: int| from <= k < i ==> !((#[trigger] s@[k]) == 'e' || s@[k] == 'E'),
        decreases to - i,
    {
        let c = s.get_char(i);
        if c == 'e' || c == 'E' {
            return i;
        }
        i = i + 1;
    }
    i
}

/// First position in `[from, to)` holding a point, or `to`.
fn find_dot(s: &str, from: usize, to: usize) -> (r: usize)
    requires
        from <= to <= s@.len(),
    ensures
        from <= r <= to,
        forall|k: int| from <= k < r ==> (#[trigger] s@[k]) != '.',
        r < to ==> s@[r as int] == '.',
{
    let mut i = from;
    while i < to
        invariant
            from <= i <= to <= s@.len(),
            forall|k: int| from <= k < i ==> (#[trigger] s@[k]) != '.',
        decreases to - i,
    {
        let c = s.get_char(i);
        if c == '.' {
            return i;
        }
        i = i + 1;
    }
    i
}

/// First position in `[from, to)` whose character is not '0', or `to`.
fn find_nonzero(s: &str, from: usize, to: usize) -> (r: usize)
    requires
        from <= to <= s@.len(),
    ensures
        from <= r <= to,
        forall|k: int| from <= k < r ==> (#[trigger] s@[k]) == '0',
        r < to ==> s@[r as int] != '0',
{
    let mut i = from;
    while i < to
        invariant
            from <= i <= to <= s@.len(),
            forall|k: int| from <= k < i ==> (#[trigger] s@[k]) == '0',
        decreases to - i,
    {
        let c = s.get_char(i);
        if c != '0' {
            return i;
        }
        i = i + 1;
    }
    i
}

/// The value the digit window `[q, to)` spells, saturated at 10^30 — far past
/// any exponent that could matter for the range test.
fn read_exponent_digits(s: &str, q: usize, to: usize) -> (x: i128)
    requires
        q <= to <= s@.len(),
        all_digits(s@.subrange(q as int, to as int)),
    ensures
        0 <= x <= 1000000000000000000000000000000,
        seq_val(s@.subrange(q as int, to as int)) <= 1000000000000000000000000000000 ==> x
            == seq_val(s@.subrange(q as int, to as int)),
        seq_val(s@.subrange(q as int, to as int)) > 1000000000000000000000000000000 ==> x
            == 1000000000000000000000000000000,
{
    let ghost digits = s@.subrange(q as int, to as int);
    proof {
        assert(s@.subrange(q as int, q as int) =~= Seq::<char>::empty());
    }
    let cap: i128 = 1000000000000000000000000000000;
    let mut x: i128 = 0;
    let mut i = q;
    while i < to
        invariant
            q <= i <= to <= s@.len(),
            digits == s@.subrange(q as int, to as int),
            all_digits(digits),
            0 <= x <= 1000000000000000000000000000000,
            cap == 1000000000000000000000000000000,
            (seq_val(s@.subrange(q as int, i as int)) <= 1000000000000000000000000000000 && x
                == seq_val(s@.subrange(q as int, i as int))) || (seq_val(
                s@.subrange(q as int, i as int),
            ) > 1000000000000000000000000000000 && x == 1000000000000000000000000000000),
        decreases to - i,
    {
        let c = s.get_char(i);
        proof {
            assert(digits[i - q] == c);
            assert(is_digit(digits[i - q]));
            let pref = s@.subrange(q as int, i as int);
            let pref2 = s@.subrange(q as int, i + 1);
            assert(pref2.drop_last() =~= pref);
            assert(pref2.last() == c);
            assert(seq_val(pref2) == seq_val(pref) * 10 + digit_val(c));
            assert forall|k: int| 0 <= k < pref.len() implies is_digit(#[trigger] pref[k]) by {
                assert(pref[k] == digits[k]);
                assert(is_digit(digits[k]));
            }
            lemma_seq_val_nonneg(pref);
        }
        let d = ((c as u32) - 48) as i128;
        x = x * 10 + d;
        if x > cap {
            x = cap;
        }
        i = i + 1;
    }
    proof {
        assert(s@.subrange(q as int, i as int) == digits);
    }
    x
}

/// The index of the first significant digit in a significand laid out as
/// `[start, dlim)` and, when `dotted`, the digits past the point at `dlim`
/// up to `epos`; `None` when every digit is '0'.
fn find_sig_nonzero(s: &str, start: usize, dlim: usize, epos: usize, dotted: bool) -> (r: Option<
    usize,
>)
    requires
        start <= dlim <= epos <= s@.len(),
        dotted ==> dlim < epos,
    ensures
        ({
            let sig = if dotted {
                s@.subrange(start as int, dlim as int) + s@.subrange(dlim + 1, epos as int)
            } else {
                s@.subrange(start as int, dlim as int)
            };
            match r {
                Some(fz) => fz < sig.len() && nonzero_index(sig) == fz as int,
                None => nonzero_index(sig) == sig.len(),
            }
        }),
{
    let ghost sig = if dotted {
        s@.subrange(start as int, dlim as int) + s@.subrange(dlim + 1, epos as int)
    } else {
        s@.subrange(start as int, dlim as int)
    };
    let ghost int_len = dlim - start;
    let iz = find_nonzero(s, start, dlim);
    if iz < dlim {
        let fz = iz - start;
        proof {
            assert(sig[fz as int] == s@[iz as int]);
            assert forall|k: int| 0 <= k < fz implies (#[trigger] sig[k]) == '0' by {
                assert(sig[k] == s@[start + k]);
            }
            lemma_nonzero_index_at(sig, fz as int);
        }
        return Some(fz);
    }
    if dotted {
        let jz = find_nonzero(s, dlim + 1, epos);
        if jz < epos {
            let fz = (dlim - start) + (jz - (dlim + 1));
            proof {
                assert(sig[fz as int] == s@[jz as int]);
                assert forall|k: int| 0 <= k < fz implies (#[trigger] sig[k]) == '0' by {
                    if k < int_len {
                        assert(sig[k] == s@[start + k]);
                    } else {
                        assert(sig[k] == s@[dlim + 1 + (k - int_len)]);
                    }
                }
                lemma_nonzero_index_at(sig, fz as int);
            }
            return Some(fz);
        }
        proof {
            assert forall|k: int| 0 <= k < sig.len() implies (#[trigger] sig[k]) == '0' by {
                if k < int_len {
                    assert(sig[k] == s@[start + k]);
                } else {
                    assert(sig[k] == s@[dlim + 1 + (k - int_len)]);
                }
            }
            lemma_nonzero_index_at(sig, sig.len() as int);
        }
        return None;
    }
    proof {
        assert forall|k: int| 0 <= k < sig.len() implies (#[trigger] sig[k]) == '0' by {
            assert(sig[k] == s@[start + k]);
        }
        lemma_nonzero_index_at(sig, sig.len() as int);
    }
    None
}

/// Whether the significant digits from `fz` on (laid out as `[start, dlim)`
/// and, when `dotted`, `[dlim+1, epos)`), padded with '0' to 309 places, spell
/// a number below the overflow threshold.
fn boundary_below(s: &str, start: usize, dlim: usize, epos: usize, dotted: bool, fz: usize) -> (r:
    bool)
    requires
        start <= dlim <= epos <= s@.len(),
        dotted ==> dlim < epos,
        ({
            let sig = if dotted {
                s@.subrange(start as int, dlim as int) + s@.subrange(dlim + 1, epos as int)
            } else {
                s@.subrange(start as int, dlim as int)
            };
            fz <= sig.len()
        }),
    ensures
        ({
            let sig = if dotted {
                s@.subrange(start as int, dlim as int) + s@.subrange(dlim + 1, epos as int)
            } else {
                s@.subrange(start as int, dlim as int)
            };
            r == digits_below(sig_window(sig, fz as int, 309), overflow_digits())
        }),
{
    let ghost sig = if dotted {
        s@.subrange(start as int, dlim as int) + s@.subrange(dlim + 1, epos as int)
    } else {
        s@.subrange(start as int, dlim as int)
    };
    let ghost win = sig_window(sig, fz as int, 309);
    let t =
        "179769313486231580793728971405303415079934132710037826936173778980444968292764750946649017977587207096330286416692887910946555547851940402630657488671505820681908902000708383676273854845817711531764475730270069855571366959622842914819860834936475292719074168444365510704342711559699508093042880177904174497792";
    proof {
        reveal_strlit(
            "179769313486231580793728971405303415079934132710037826936173778980444968292764750946649017977587207096330286416692887910946555547851940402630657488671505820681908902000708383676273854845817711531764475730270069855571366959622842914819860834936475292719074168444365510704342711559699508093042880177904174497792",
        );
        assert(t@.len() == 309);
        assert(win.len() == 309);
    }
    let int_len = dlim - start;
    let sig_len = if dotted {
        int_len + (epos - dlim - 1)
    } else {
        int_len
    };
    proof {
        assert(sig.len() == sig_len);
    }
    let mut i: usize = 0;
    while i < 309
        invariant
            0 <= i <= 309,
            start <= dlim <= epos <= s@.len(),
            dotted ==> dlim < epos,
            int_len == dlim - start,
            sig == (if dotted {
                s@.subrange(start as int, dlim as int) + s@.subrange(dlim + 1, epos as int)
            } else {
                s@.subrange(start as int, dlim as int)
            }),
            sig_len == sig.len(),
            fz <= sig_len,
            win == sig_window(sig, fz as int, 309),
            win.len() == 309,
            t@ == overflow_digits(),
            t@.len() == 309,
            forall|k: int| 0 <= k < i ==> ((#[trigger] win[k]) as int) == (t@[k] as int),
        decreases 309 - i,
    {
        let d: char = if i < sig_len - fz {
            let k = fz + i;
            if k < int_len {
                s.get_char(start + k)
            } else {
                s.get_char(dlim + 1 + (k - int_len))
            }
        } else {
            '0'
        };
        proof {
            if i < sig_len - fz {
                let k = fz + i as int;
                if k < int_len {
                    assert(sig[k] == s@[start + k]);
                } else {
                    assert(sig[k] == s@[dlim + 1 + (k - int_len)]);
                }
                assert(win[i as int] == sig[fz + i]);
            } else {
                assert(win[i as int] == '0');
            }
            assert(d == win[i as int]);
        }
        let tc = t.get_char(i);
        if (d as u32) < (tc as u32) {
            proof {
                lemma_digits_below_at(win, t@, i as int);
            }
            return true;
        }
        if (d as u32) > (tc as u32) {
            proof {
                lemma_digits_below_at(win, t@, i as int);
            }
            return false;
        }
        i = i + 1;
    }
    proof {
        lemma_digits_below_at(win, t@, 309);
    }
    false
}

/// The exponent a number body in `[start, to)` writes: its sign, and its
/// magnitude saturated at 10^30.
fn read_exponent(s: &str, start: usize, epos: usize, to: usize) -> (r: (bool, i128))
    requires
        start <= epos <= to <= s@.len(),
        is_number(s@.subrange(start as int, to as int)),
        forall|k: int| start <= k < epos ==> !((#[trigger] s@[k]) == 'e' || s@[k] == 'E'),
        epos < to ==> (s@[epos as int] == 'e' || s@[epos as int] == 'E'),
    ensures
        0 <= r.1 <= 1000000000000000000000000000000,
        ({
            let ev = exponent_value(s@.subrange(start as int, to as int));
            let mag = if r.0 {
                -ev
            } else {
                ev
            };
            mag >= 0 && (mag <= 1000000000000000000000000000000 ==> r.1 == mag) && (mag
                > 1000000000000000000000000000000 ==> r.1 == 1000000000000000000000000000000)
        }),
{
    let ghost b = s@.subrange(start as int, to as int);
    let ghost e_idx = epos - start;
    proof {
        assert forall|k: int| 0 <= k < e_idx implies !((#[trigger] b[k]) == 'e' || b[k] == 'E') by {
            assert(b[k] == s@[start + k]);
        }
        if epos < to {
            assert(b[e_idx] == s@[epos as int]);
        }
        lemma_exp_index_at(b, e_idx);
    }
    if epos == to {
        proof {
            assert(exponent_value(b) == 0);
        }
        return (false, 0);
    }
    let ghost tail = b.subrange(e_idx + 1, b.len() as int);
    proof {
        lemma_number_structure(b, e_idx);
        assert(is_exponent_tail(tail));
        assert(tail =~= s@.subrange(epos + 1, to as int));
    }
    let q0 = epos + 1;
    let cq = s.get_char(q0);
    proof {
        assert(tail[0] == cq);
    }
    let mut neg = false;
    let q = if cq == '-' || cq == '+' {
        neg = cq == '-';
        q0 + 1
    } else {
        q0
    };
    let ghost digits = s@.subrange(q as int, to as int);
    proof {
        if is_sign(cq) {
            assert(digits =~= tail.subrange(1, tail.len() as int));
        } else {
            assert(digits =~= tail);
        }
        assert(all_digits(digits));
        assert(digits.len() > 0);
        lemma_seq_val_nonneg(digits);
        if is_sign(cq) {
            assert(exponent_value(b) == if cq == '-' {
                -seq_val(digits)
            } else {
                seq_val(digits)
            });
        } else {
            assert(exponent_value(b) == seq_val(digits));
        }
    }
    let x = read_exponent_digits(s, q, to);
    (neg, x)
}

/// Whether the literal in window `[from, to)` passes the textual range test.
#[verifier::rlimit(100)]
fn float_in_range(s: &str, from: usize, to: usize) -> (r: bool)
    requires
        from <= to <= s@.len(),
        is_float_literal(s@.subrange(from as int, to as int)),
    ensures
        r == literal_in_range(s@.subrange(from as int, to as int)),
{
    let ghost w = s@.subrange(from as int, to as int);
    let c0 = s.get_char(from);
    let start = if char_is_sign(c0) {
        from + 1
    } else {
        from
    };
    let ghost b = s@.subrange(start as int, to as int);
    proof {
        assert(w[0] == c0);
        if is_sign(c0) {
            assert(w.subrange(1, w.len() as int) =~= b);
        } else {
            assert(w =~= b);
        }
        assert(is_number(b));
        assert(b.len() > 0) by {
            if b.len() == 0 {
                assert(!is_mantissa(b));
            }
        }
        assert(literal_in_range(w) == (nonzero_index(significand(b)) == significand(b).len()
            || magnitude_exp(b) <= 308 || (magnitude_exp(b) == 309 && digits_below(
            sig_window(significand(b), nonzero_index(significand(b)), 309),
            overflow_digits(),
        ))));
    }
    // where the exponent part starts
    let epos = find_exp_marker(s, start, to);
    let ghost e_idx = epos - start;
    proof {
        assert forall|k: int| 0 <= k < e_idx implies !((#[trigger] b[k]) == 'e' || b[k] == 'E') by {
            assert(b[k] == s@[start + k]);
        }
        if epos < to {
            assert(b[e_idx] == s@[epos as int]);
        }
        lemma_exp_index_at(b, e_idx);
    }
    let ghost m = b.subrange(0, e_idx);
    proof {
        assert(m =~= s@.subrange(start as int, epos as int));
    }
    // where the point is
    let dpos = find_dot(s, start, epos);
    let ghost d_idx = dpos - start;
    proof {
        assert forall|k: int| 0 <= k < d_idx implies (#[trigger] m[k]) != '.' by {
            assert(m[k] == s@[start + k]);
        }
        if dpos < epos {
            assert(m[d_idx] == s@[dpos as int]);
        }
        lemma_dot_index_at(m, d_idx);
    }
    let dotted = dpos < epos;
    let dlim = if dotted {
        dpos
    } else {
        epos
    };
    let ghost sig = significand(b);
    let ghost int_len = dlim - start;
    proof {
        if dotted {
            assert(sig =~= s@.subrange(start as int, dlim as int) + s@.subrange(
                dlim + 1,
                epos as int,
            ));
        } else {
            assert(sig =~= s@.subrange(start as int, dlim as int));
        }
        assert(int_digit_count(b) == int_len);
        assert(sig.len() <= epos - start);
    }
    // the first significant digit
    let fz = match find_sig_nonzero(s, start, dlim, epos, dotted) {
        Option::None => {
            proof {
                assert(nonzero_index(sig) == sig.len());
            }
            return true;
        },
        Option::Some(fz) => fz,
    };
    proof {
        assert(fz < sig.len() && nonzero_index(sig) == fz as int);
    }
    // the written exponent
    let (neg, x) = read_exponent(s, start, epos, to);
    let signed_x: i128 = if neg {
        -x
    } else {
        x
    };
    let m_exec: i128 = (dlim - start) as i128 - (fz as i128) + signed_x;
    proof {
        let mag = magnitude_exp(b);
        let ev = exponent_value(b);
        assert(mag == int_len - fz + ev);
        let sv = if neg {
            -ev
        } else {
            ev
        };
        if sv <= 1000000000000000000000000000000 {
            assert(x == sv);
            assert(m_exec == mag);
        } else {
            // saturated: the magnitude is far past the boundary either way
            assert(x == 1000000000000000000000000000000);
            if neg {
                assert(mag < 309 && m_exec < 309);
            } else {
                assert(mag > 309 && m_exec > 309);
            }
        }
        // either way the two agree on the three-way split at the boundary
        assert((m_exec <= 308) == (mag <= 308));
        assert((m_exec == 309) == (mag == 309));
    }
    if m_exec <= 308 {
        proof {
            assert(literal_in_range(w));
        }
        return true;
    }
    if m_exec >= 310 {
        proof {
            assert(!literal_in_range(w));
        }
        return false;
    }
    // the boundary decade: compare the significant digits with the threshold
    let below = boundary_below(s, start, dlim, epos, dotted, fz);
    proof {
        assert(literal_in_range(w) == below);
    }
    below
}

/// Extract a measurement from free-form message text: trim surrounding
/// whitespace and accept exactly the float literals within range; everything
/// else is a parse error (and the message is ignored).
pub fn parse_value(body: &str) -> (r: Result<Measurement, ParseError>)
    ensures
        r is Ok <==> is_float_literal(trimmed(body@)) && literal_in_range(trimmed(body@)),
        r matches Ok(m) ==> m@ == trimmed(body@) && m.wf(),
{
    let n = body.unicode_len();
    proof {
        assert(body@.subrange(0, n as int) =~= body@);
    }
    let mut a: usize = 0;
    while a < n && char_is_space(body.get_char(a))
        invariant
            0 <= a <= n,
            n == body@.len(),
            trim_front(body@) == trim_front(body@.subrange(a as int, n as int)),
        decreases n - a,
    {
        proof {
            let sub = body@.subrange(a as int, n as int);
            assert(sub[0] == body@[a as int]);
            assert(sub.drop_first() =~= body@.subrange(a + 1, n as int));
        }
        a = a + 1;
    }
    proof {
        assert(trim_front(body@) == body@.subrange(a as int, n as int));
    }
    let mut e: usize = n;
    while e > a && char_is_space(body.get_char(e - 1))
        invariant
            a <= e <= n,
            n == body@.len(),
            trim_front(body@) == body@.subrange(a as int, n as int),
            trimmed(body@) == trim_back(body@.subrange(a as int, e as int)),
        decreases e,
    {
        proof {
            let sub = body@.subrange(a as int, e as int);
            assert(sub.last() == body@[e - 1]);
            assert(sub.drop_last() =~= body@.subrange(a as int, e - 1));
        }
        e = e - 1;
    }
    proof {
        assert(trimmed(body@) == body@.subrange(a as int, e as int));
    }
    if is_float_text(body, a, e) && float_in_range(body, a, e) {
        let t = body.substring_char(a, e);
        Ok(Measurement { text: t.to_owned() })
    } else {
        Err(ParseError)
    }
}

/// No float literal starts or ends with whitespace.
proof fn lemma_float_literal_edges(t: Seq<char>)
    requires
        is_float_literal(t),
    ensures
        t.len() > 0,
        !is_space(t[0]),
        !is_space(t.last()),
{
    let body = if is_sign(t[0]) {
        t.subrange(1, t.len() as int)
    } else {
        t
    };
    assert(body.len() > 0) by {
        if body.len() == 0 {
            assert(!is_mantissa(body));
            assert(!is_number(body));
        }
    }
    // the first character: a sign, a digit or a point
    assert(!is_space(t[0])) by {
        if !is_sign(t[0]) {
            assert(t[0] == body[0]);
            if is_mantissa(body) {
                lemma_mantissa_chars(body);
                assert(is_digit(body[0]) || body[0] == '.');
            } else {
                let k = choose|k: int|
                    0 <= k < body.len() && (#[trigger] body[k] == 'e' || body[k] == 'E')
                        && is_mantissa(body.subrange(0, k)) && is_exponent_tail(
                        body.subrange(k + 1, body.len() as int),
                    );
                lemma_mantissa_chars(body.subrange(0, k));
                assert(body.subrange(0, k)[0] == body[0]);
                assert(is_digit(body[0]) || body[0] == '.');
            }
        }
    }
    // the last character: a digit or a point
    assert(!is_space(t.last())) by {
        assert(t.last() == body.last());
        if is_mantissa(body) {
            lemma_mantissa_chars(body);
            assert(is_digit(body.last()) || body.last() == '.');
        } else {
            let k = choose|k: int|
                0 <= k < body.len() && (#[trigger] body[k] == 'e' || body[k] == 'E') && is_mantissa(
                    body.subrange(0, k),
                ) && is_exponent_tail(body.subrange(k + 1, body.len() as int));
            let tail = body.subrange(k + 1, body.len() as int);
            assert(tail.len() > 0);
            assert(tail.last() == body.last());
            if is_sign(tail[0]) {
                assert(tail.subrange(1, tail.len() as int).last() == tail.last());
                assert(is_digit(tail.last()));
            } else {
                assert(is_digit(tail.last()));
            }
        }
    }
}

/// Law: parsing is a pure function of the text and is idempotent — feeding a
/// parsed measurement's own text back to the parser returns it unchanged.
pub proof fn lemma_parse_idempotent(s: Seq<char>)
    ensures
        spec_parse(s) matches Some(t) ==> spec_parse(t) == Some(t),
{
    if spec_parse(s) is Some {
        let t = trimmed(s);
        lemma_float_literal_edges(t);
        assert(trim_front(t) == t);
        assert(trim_back(t) == t);
        assert(trimmed(t) == t);
    }
}

} // verus!

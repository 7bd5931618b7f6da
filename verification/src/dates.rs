//! Local calendar dates as plain values, and the day-derived idempotency key
//! (`BOT_YYYY-MM-DD`) that makes repeated submissions on one day collide
//! instead of duplicating.

use crate::numfmt::{
    dec_digits, is_digit, lemma_dec_digits_len, lemma_zero_pad_digits, lemma_zero_pad_val,
    u64_pad2, u64_pad4, zero_pad,
};
use vstd::prelude::*;

verus! {

/// A calendar date in the bot's local time zone.
#[derive(Clone, Copy, PartialEq, Eq, Structural, Debug)]
pub struct LocalDate {
    pub year: i32,
    pub month: u8,
    pub day: u8,
}

impl LocalDate {
    /// The ranges the date library guarantees for any date it hands out.
    pub open spec fn wf(self) -> bool {
        -262144 <= self.year <= 262143 && 1 <= self.month <= 12 && 1 <= self.day <= 31
    }
}

/// Relies on chrono's `Local::now` and the `Datelike` accessors: `month()` is
/// documented as 1..=12 and `day()` as 1..=31, and every chrono date's year
/// lies within about ±262,000 of the common era. In a degenerate environment
/// — a system clock before the Unix epoch, or a failed local-offset lookup —
/// the call itself panics; the contract holds of every date it returns.
#[verifier::external_body]
pub fn current_local_date() -> (d: LocalDate)
    ensures
        d.wf(),
{
    let now = chrono::Local::now();
    LocalDate {
        year: chrono::Datelike::year(&now),
        month: chrono::Datelike::month(&now) as u8,
        day: chrono::Datelike::day(&now) as u8,
    }
}

/// The year's text: zero-padded to four places, sign first when negative.
pub open spec fn year_text(y: int) -> Seq<char> {
    if y < 0 {
        seq!['-'] + zero_pad(dec_digits((-y) as nat), 4)
    } else {
        zero_pad(dec_digits(y as nat), 4)
    }
}

/// The idempotency key text for one date: `BOT_YYYY-MM-DD`.
pub open spec fn daily_id_text(d: LocalDate) -> Seq<char> {
    "BOT_"@ + year_text(d.year as int) + "-"@ + zero_pad(dec_digits(d.month as nat), 2) + "-"@
        + zero_pad(dec_digits(d.day as nat), 2)
}

/// The idempotency key for a given local date.
pub fn daily_request_id(d: &LocalDate) -> (r: String)
    requires
        d.wf(),
    ensures
        r@ == daily_id_text(*d),
{
    proof {
        reveal_strlit("BOT_");
        reveal_strlit("-");
    }
    let mut s = String::from_str("BOT_");
    if d.year < 0 {
        s.append("-");
        let y = u64_pad4((-(d.year as i64)) as u64);
        s.append(y.as_str());
        proof {
            assert(s@ =~= "BOT_"@ + year_text(d.year as int));
        }
    } else {
        let y = u64_pad4(d.year as u64);
        s.append(y.as_str());
    }
    s.append("-");
    let m = u64_pad2(d.month as u64);
    s.append(m.as_str());
    s.append("-");
    let dd = u64_pad2(d.day as u64);
    s.append(dd.as_str());
    proof {
        assert(s@ =~= daily_id_text(*d));
    }
    s
}

/// The idempotency key for today; the one operation here that reads the clock.
pub fn get_daily_request_id() -> (r: String)
    ensures
        exists|d: LocalDate| d.wf() && r@ == daily_id_text(d),
{
    let today = current_local_date();
    let r = daily_request_id(&today);
    proof {
        assert(today.wf() && r@ == daily_id_text(today));
    }
    r
}

/// Splitting equal concatenations at equal lengths gives equal halves.
proof fn lemma_split_concat(a1: Seq<char>, b1: Seq<char>, a2: Seq<char>, b2: Seq<char>)
    requires
        a1 + b1 == a2 + b2,
        a1.len() == a2.len(),
    ensures
        a1 == a2,
        b1 == b2,
{
    assert(a1 =~= a2) by {
        assert forall|i: int| 0 <= i < a1.len() implies a1[i] == a2[i] by {
            assert((a1 + b1)[i] == a1[i]);
            assert((a2 + b2)[i] == a2[i]);
        }
    }
    assert((a1 + b1).len() == a1.len() + b1.len());
    assert((a2 + b2).len() == a2.len() + b2.len());
    assert(b1.len() == b2.len());
    assert(b1 =~= b2) by {
        assert forall|i: int| 0 <= i < b1.len() implies b1[i] == b2[i] by {
            assert((a1 + b1)[a1.len() + i] == b1[i]);
            assert((a2 + b2)[a2.len() + i] == b2[i]);
        }
    }
}

/// How long the year's text is, and that a non-negative year starts with a
/// digit.
proof fn lemma_year_text_shape(y: int)
    requires
        -262144 <= y <= 262143,
    ensures
        y >= 0 ==> year_text(y).len() == zero_pad(dec_digits(y as nat), 4).len(),
        y < 0 ==> year_text(y).len() == 1 + zero_pad(dec_digits((-y) as nat), 4).len(),
        y >= 0 ==> is_digit(year_text(y)[0]),
        y < 0 ==> year_text(y)[0] == '-',
        year_text(y).len() >= 4,
{
    if y >= 0 {
        lemma_zero_pad_val(y as nat, 4);
        lemma_zero_pad_digits(y as nat, 4);
    } else {
        lemma_zero_pad_val((-y) as nat, 4);
        assert(year_text(y)[0] == '-');
    }
}

/// Law: the idempotency key is a pure function of the local date, so any
/// number of derivations on one day give the same string; and distinct dates
/// give distinct strings, so the next day's key differs.
pub proof fn lemma_daily_id_injective(d1: LocalDate, d2: LocalDate)
    requires
        d1.wf(),
        d2.wf(),
        daily_id_text(d1) == daily_id_text(d2),
    ensures
        d1 == d2,
{
    reveal_strlit("BOT_");
    reveal_strlit("-");
    let p = "BOT_"@;
    let h = "-"@;
    assert(p.len() == 4 && h.len() == 1);
    let y1 = year_text(d1.year as int);
    let y2 = year_text(d2.year as int);
    let m1 = zero_pad(dec_digits(d1.month as nat), 2);
    let m2 = zero_pad(dec_digits(d2.month as nat), 2);
    let dd1 = zero_pad(dec_digits(d1.day as nat), 2);
    let dd2 = zero_pad(dec_digits(d2.day as nat), 2);
    lemma_dec_digits_len(d1.month as nat);
    lemma_dec_digits_len(d2.month as nat);
    lemma_dec_digits_len(d1.day as nat);
    lemma_dec_digits_len(d2.day as nat);
    assert(m1.len() == 2 && m2.len() == 2 && dd1.len() == 2 && dd2.len() == 2);
    lemma_year_text_shape(d1.year as int);
    lemma_year_text_shape(d2.year as int);
    // regroup and peel the pieces off, front to back
    assert(daily_id_text(d1) =~= p + (y1 + (h + (m1 + (h + dd1)))));
    assert(daily_id_text(d2) =~= p + (y2 + (h + (m2 + (h + dd2)))));
    lemma_split_concat(p, y1 + (h + (m1 + (h + dd1))), p, y2 + (h + (m2 + (h + dd2))));
    // the tails past the year have equal length, so the years do too
    assert(y1.len() == y2.len());
    lemma_split_concat(y1, h + (m1 + (h + dd1)), y2, h + (m2 + (h + dd2)));
    lemma_split_concat(h, m1 + (h + dd1), h, m2 + (h + dd2));
    lemma_split_concat(m1, h + dd1, m2, h + dd2);
    lemma_split_concat(h, dd1, h, dd2);
    // equal digit strings spell equal numbers
    lemma_zero_pad_val(d1.month as nat, 2);
    lemma_zero_pad_val(d2.month as nat, 2);
    assert(d1.month == d2.month);
    lemma_zero_pad_val(d1.day as nat, 2);
    lemma_zero_pad_val(d2.day as nat, 2);
    assert(d1.day == d2.day);
    // the year: same sign, then same magnitude
    if d1.year >= 0 && d2.year >= 0 {
        lemma_zero_pad_val(d1.year as nat, 4);
        lemma_zero_pad_val(d2.year as nat, 4);
        assert(d1.year == d2.year);
    } else if d1.year < 0 && d2.year < 0 {
        let z1 = zero_pad(dec_digits((-(d1.year as int)) as nat), 4);
        let z2 = zero_pad(dec_digits((-(d2.year as int)) as nat), 4);
        assert(y1 == seq!['-'] + z1 && y2 == seq!['-'] + z2);
        lemma_split_concat(seq!['-'], z1, seq!['-'], z2);
        lemma_zero_pad_val((-(d1.year as int)) as nat, 4);
        lemma_zero_pad_val((-(d2.year as int)) as nat, 4);
        assert(d1.year == d2.year);
    } else if d1.year >= 0 {
        assert(is_digit(y1[0]) && y2[0] == '-');
        assert(false);
    } else {
        assert(y1[0] == '-' && is_digit(y2[0]));
        assert(false);
    }
}

} // verus!

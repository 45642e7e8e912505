//! The calendar of Imperator: every year has 365 days.

use crate::digits::{all_digits, decimal_value, digits, padded, push_number};
use vstd::prelude::*;
use vstd::slice::slice_subrange;
use vstd::string::StringSliceAdditionalSpecFns;

verus! {

/// The byte `.`, which separates the parts of a date in the game's notation.
pub const DOT: u8 = 46;

/// The byte `-`, which separates the parts of a date in ISO 8601.
pub const DASH: u8 = 45;

/// The byte `+`.
pub const PLUS: u8 = 43;

/// The earliest year that an integer of a binary save is taken to denote.
pub const EARLIEST_PLAUSIBLE_YEAR: u16 = 1;

/// The latest year that an integer of a binary save is taken to denote.
pub const LATEST_PLAUSIBLE_YEAR: u16 = 32767;

/// A date as mathematics sees it: three integers.
pub struct Ymd {
    pub year: int,
    pub month: int,
    pub day: int,
}

/// The number of days of a month; zero for what is no month.
pub open spec fn days_in_month(month: int) -> int {
    if month == 2 {
        28
    } else if month == 4 || month == 6 || month == 9 || month == 11 {
        30
    } else if 1 <= month <= 12 {
        31
    } else {
        0
    }
}

/// The number of days of a year that lie before the first of a month.
pub open spec fn days_before_month(month: int) -> int {
    if month <= 1 {
        0
    } else if month == 2 {
        31
    } else if month == 3 {
        59
    } else if month == 4 {
        90
    } else if month == 5 {
        120
    } else if month == 6 {
        151
    } else if month == 7 {
        181
    } else if month == 8 {
        212
    } else if month == 9 {
        243
    } else if month == 10 {
        273
    } else if month == 11 {
        304
    } else {
        334
    }
}

/// Whether the three integers name a day of the calendar.
pub open spec fn valid_ymd(v: Ymd) -> bool {
    &&& 1 <= v.year <= 65535
    &&& 1 <= v.month <= 12
    &&& 1 <= v.day <= days_in_month(v.month)
}

/// The days from the start of year zero to a date, that day not counted.
pub open spec fn day_number(v: Ymd) -> int {
    v.year * 365 + days_before_month(v.month) + v.day - 1
}

/// The month in which the day of the year `ordinal` (from zero) falls.
pub open spec fn month_of_ordinal(ordinal: int) -> int {
    if ordinal <= 30 {
        1
    } else if ordinal <= 58 {
        2
    } else if ordinal <= 89 {
        3
    } else if ordinal <= 119 {
        4
    } else if ordinal <= 150 {
        5
    } else if ordinal <= 180 {
        6
    } else if ordinal <= 211 {
        7
    } else if ordinal <= 242 {
        8
    } else if ordinal <= 272 {
        9
    } else if ordinal <= 303 {
        10
    } else if ordinal <= 333 {
        11
    } else {
        12
    }
}

/// The day of the month on which the day of the year `ordinal` (from zero) falls.
pub open spec fn day_of_ordinal(ordinal: int) -> int {
    ordinal - days_before_month(month_of_ordinal(ordinal)) + 1
}

/// The date that lies `n` days after the start of year zero.
pub open spec fn date_of_day_number(n: int) -> Ymd {
    Ymd { year: n / 365, month: month_of_ordinal(n % 365), day: day_of_ordinal(n % 365) }
}

/// The date that a 32-bit integer of a binary save denotes: hours are dropped,
/// years count from 5000 before the first, and years outside the calendar
/// denote nothing.
pub open spec fn decode_binary(v: int) -> Option<Ymd> {
    let days = v / 24;
    let year = days / 365 - 5000;
    if 1 <= year <= 65535 {
        Some(Ymd { year, month: month_of_ordinal(days % 365), day: day_of_ordinal(days % 365) })
    } else {
        None
    }
}

/// A decoded date whose year is plausible for the game.
pub open spec fn decode_heuristic(v: int) -> Option<Ymd> {
    match decode_binary(v) {
        Some(d) if EARLIEST_PLAUSIBLE_YEAR <= d.year <= LATEST_PLAUSIBLE_YEAR => Some(d),
        _ => None,
    }
}

/// The index of the first `b` in `s`, or the length of `s` where there is none.
pub open spec fn find_byte(s: Seq<u8>, b: u8) -> int
    decreases s.len(),
{
    if s.len() == 0 || s[0] == b {
        0
    } else {
        1 + find_byte(s.skip(1), b)
    }
}

/// The number that an unsigned decimal text denotes: digits, or a `+` and then
/// digits (none of them after the sign counts as zero), with a value that a
/// `u64` holds.
pub open spec fn unsigned_value(s: Seq<u8>) -> Option<u64> {
    let body = if s.len() > 0 && s[0] == PLUS {
        s.skip(1)
    } else {
        s
    };
    if s.len() > 0 && all_digits(body) && decimal_value(body) <= u64::MAX {
        Some(decimal_value(body) as u64)
    } else {
        None
    }
}

/// The number that one part of a date denotes: digits only, at least one.
pub open spec fn field_value(s: Seq<u8>) -> Option<u64> {
    if all_digits(s) {
        unsigned_value(s)
    } else {
        None
    }
}

/// The date made of three numbers, if they name a day of the calendar. A
/// number that is too great for its part names none.
pub open spec fn date_from_fields(year: Option<u64>, month: Option<u64>, day: Option<u64>) -> Option<Ymd> {
    if year is Some && month is Some && day is Some {
        let v = Ymd {
            year: year.unwrap() as int,
            month: month.unwrap() as int,
            day: day.unwrap() as int,
        };
        if valid_ymd(v) {
            Some(v)
        } else {
            None
        }
    } else {
        None
    }
}

/// The date that a text of three numbers with `sep` between them denotes.
pub open spec fn parse_fields(s: Seq<u8>, sep: u8) -> Option<Ymd> {
    let i = find_byte(s, sep);
    let rest = s.skip(i + 1);
    let j = find_byte(rest, sep);
    if i < s.len() && j < rest.len() {
        date_from_fields(
            field_value(s.take(i)),
            field_value(rest.take(j)),
            field_value(rest.skip(j + 1)),
        )
    } else {
        None
    }
}

/// A date in the game's notation: `Y.M.D`, no part padded.
pub open spec fn game_text(v: Ymd) -> Seq<u8> {
    digits(v.year as nat, 10) + seq![DOT] + digits(v.month as nat, 10) + seq![DOT] + digits(
        v.day as nat,
        10,
    )
}

/// A date in ISO 8601: `YYYY-MM-DD`.
pub open spec fn iso_text(v: Ymd) -> Seq<u8> {
    padded(v.year as nat, 10, 4) + seq![DASH] + padded(v.month as nat, 10, 2) + seq![DASH] + padded(
        v.day as nat,
        10,
        2,
    )
}

/// The characters of an ASCII text.
pub open spec fn ascii_text(bytes: Seq<u8>) -> Seq<char> {
    Seq::new(bytes.len(), |i: int| bytes[i] as char)
}

/// Whether a byte is a digit or one of the two separators of a date.
pub open spec fn is_date_byte(b: u8) -> bool {
    48 <= b <= 57 || b == DOT || b == DASH
}

/// Pins down what `find_byte` returns.
pub proof fn lemma_find_byte(s: Seq<u8>, b: u8, i: int)
    requires
        0 <= i <= s.len(),
        forall|k: int| 0 <= k < i ==> s[k] != b,
        i < s.len() ==> s[i] == b,
    ensures
        find_byte(s, b) == i,
    decreases i,
{
    if i == 0 {
    } else {
        let t = s.skip(1);
        assert forall|k: int| 0 <= k < i - 1 implies t[k] != b by {
            assert(t[k] == s[k + 1]);
        }
        lemma_find_byte(t, b, i - 1);
    }
}

/// Counting days and naming the day are inverse to each other.
pub proof fn lemma_day_number_of_date(n: int)
    requires
        n >= 0,
    ensures
        day_number(date_of_day_number(n)) == n,
        1 <= date_of_day_number(n).month <= 12,
        1 <= date_of_day_number(n).day <= days_in_month(date_of_day_number(n).month),
{
}

/// Naming the day and counting days are inverse to each other.
pub proof fn lemma_date_of_day_number(v: Ymd)
    requires
        valid_ymd(v),
    ensures
        date_of_day_number(day_number(v)) == v,
{
    let n = day_number(v);
    let o = days_before_month(v.month) + v.day - 1;
    assert(0 <= o < 365);
    assert(n == v.year * 365 + o);
    assert(n / 365 == v.year && n % 365 == o) by (nonlinear_arith)
        requires
            n == v.year * 365 + o,
            0 <= o < 365,
    ;
}

/// The length of a month.
fn month_length(month: u8) -> (r: u8)
    ensures
        r == days_in_month(month as int),
{
    if month == 2 {
        28
    } else if month == 4 || month == 6 || month == 9 || month == 11 {
        30
    } else if 1 <= month && month <= 12 {
        31
    } else {
        0
    }
}

/// The days of a year before the first of a month, less one.
fn month_offset(month: u8) -> (r: i32)
    requires
        1 <= month <= 12,
    ensures
        r == days_before_month(month as int) - 1,
{
    if month == 1 {
        -1
    } else if month == 2 {
        30
    } else if month == 3 {
        58
    } else if month == 4 {
        89
    } else if month == 5 {
        119
    } else if month == 6 {
        150
    } else if month == 7 {
        180
    } else if month == 8 {
        211
    } else if month == 9 {
        242
    } else if month == 10 {
        272
    } else if month == 11 {
        303
    } else {
        333
    }
}

/// The month and the day of the month of a day of the year, counted from zero.
pub fn month_day_from_julian(days_since_jan1: i32) -> (r: (i32, i32))
    requires
        0 <= days_since_jan1 <= 364,
    ensures
        r.0 == month_of_ordinal(days_since_jan1 as int),
        r.1 == day_of_ordinal(days_since_jan1 as int),
{
    if days_since_jan1 <= 30 {
        (1, days_since_jan1 + 1)
    } else if days_since_jan1 <= 58 {
        (2, days_since_jan1 - 30)
    } else if days_since_jan1 <= 89 {
        (3, days_since_jan1 - 58)
    } else if days_since_jan1 <= 119 {
        (4, days_since_jan1 - 89)
    } else if days_since_jan1 <= 150 {
        (5, days_since_jan1 - 119)
    } else if days_since_jan1 <= 180 {
        (6, days_since_jan1 - 150)
    } else if days_since_jan1 <= 211 {
        (7, days_since_jan1 - 180)
    } else if days_since_jan1 <= 242 {
        (8, days_since_jan1 - 211)
    } else if days_since_jan1 <= 272 {
        (9, days_since_jan1 - 242)
    } else if days_since_jan1 <= 303 {
        (10, days_since_jan1 - 272)
    } else if days_since_jan1 <= 333 {
        (11, days_since_jan1 - 303)
    } else {
        (12, days_since_jan1 - 333)
    }
}

/// Calls `jomini::Scalar::to_u64` on the bytes: the number that the text
/// denotes, as `unsigned_value` states it, and nothing where the call reports
/// an error (no digit, a byte that is none, a value beyond `u64`).
#[verifier::external_body]
fn scalar_to_u64(data: &[u8]) -> (r: Option<u64>)
    ensures
        r == unsigned_value(data@),
{
    jomini::Scalar::new(data).to_u64().ok()
}

/// The index of the first `b` in `data`, or its length.
fn index_of(data: &[u8], b: u8) -> (r: usize)
    ensures
        r == find_byte(data@, b),
        r <= data.len(),
{
    let mut i: usize = 0;
    while i < data.len() && data[i] != b
        invariant
            i <= data.len(),
            forall|k: int| 0 <= k < i ==> data@[k] != b,
        decreases data.len() - i,
    {
        i = i + 1;
    }
    proof {
        lemma_find_byte(data@, b, i as int);
    }
    i
}

/// Whether all bytes are decimal digits.
fn only_digits(data: &[u8]) -> (r: bool)
    ensures
        r == all_digits(data@),
{
    let mut i: usize = 0;
    while i < data.len()
        invariant
            i <= data.len(),
            forall|k: int| 0 <= k < i ==> crate::digits::is_digit(#[trigger] data@[k]),
        decreases data.len() - i,
    {
        let c: u8 = data[i];
        if c < 48 || c > 57 {
            return false;
        }
        i = i + 1;
    }
    true
}

/// One part of a date as a number.
fn parse_field(data: &[u8]) -> (r: Option<u64>)
    ensures
        r == field_value(data@),
{
    if only_digits(data) {
        scalar_to_u64(data)
    } else {
        None
    }
}

/// Appends the character of a byte of a date to a string.
fn push_date_byte(text: &mut String, b: u8)
    requires
        is_date_byte(b),
    ensures
        final(text)@ == old(text)@.push(b as char),
{
    let table: &str = "0123456789-.";
    proof {
        reveal_strlit("0123456789-.");
    }
    let idx: usize = if b == DASH {
        10
    } else if b == DOT {
        11
    } else {
        (b - 48) as usize
    };
    let piece: &str = table.substring_ascii(idx, idx + 1);
    assert(piece@ =~= seq![b as char]);
    text.append(piece);
    assert(text@ =~= old(text)@.push(b as char));
}

/// The string of an ASCII text made of digits and separators.
fn date_string(bytes: &Vec<u8>) -> (r: String)
    requires
        forall|i: int| 0 <= i < bytes@.len() ==> is_date_byte(#[trigger] bytes@[i]),
    ensures
        r@ == ascii_text(bytes@),
{
    let mut text: String = String::new();
    let mut i: usize = 0;
    while i < bytes.len()
        invariant
            i <= bytes.len(),
            forall|i: int| 0 <= i < bytes@.len() ==> is_date_byte(#[trigger] bytes@[i]),
            text@ == ascii_text(bytes@.take(i as int)),
        decreases bytes.len() - i,
    {
        push_date_byte(&mut text, bytes[i]);
        i = i + 1;
        assert(text@ =~= ascii_text(bytes@.take(i as int)));
    }
    assert(bytes@.take(i as int) =~= bytes@);
    text
}

/// A day of the calendar of Imperator, in which every year has 365 days.
#[derive(Debug, Clone, Copy, PartialEq, Eq, Structural, Ord)]
pub struct ImperatorDate {
    year: u16,
    month: u8,
    day: u8,
}

impl View for ImperatorDate {
    type V = Ymd;

    closed spec fn view(&self) -> Ymd {
        Ymd { year: self.year as int, month: self.month as int, day: self.day as int }
    }
}

impl ImperatorDate {
    /// Every date is a day of the calendar.
    #[verifier::type_invariant]
    closed spec fn exists_in_calendar(self) -> bool {
        valid_ymd(self@)
    }

    /// The date of a year, a month and a day, if the calendar has it.
    pub fn new(year: u16, month: u8, day: u8) -> (r: Option<Self>)
        ensures
            r is Some <==> valid_ymd(
                (Ymd { year: year as int, month: month as int, day: day as int }),
            ),
            r matches Some(d) ==> d@ == (Ymd {
                year: year as int,
                month: month as int,
                day: day as int,
            }),
    {
        if year != 0 && month != 0 && day != 0 {
            let days: u8 = month_length(month);
            if day <= days {
                return Some(ImperatorDate { year, month, day });
            }
        }
        None
    }

    /// The year, from 1 to 65535.
    pub fn year(&self) -> (r: u16)
        ensures
            r == self@.year,
            valid_ymd(self@),
    {
        proof {
            use_type_invariant(self);
        }
        self.year
    }

    /// The month, from 1 to 12.
    pub fn month(&self) -> (r: u8)
        ensures
            r == self@.month,
            valid_ymd(self@),
    {
        proof {
            use_type_invariant(self);
        }
        self.month
    }

    /// The day of the month, from 1.
    pub fn day(&self) -> (r: u8)
        ensures
            r == self@.day,
            valid_ymd(self@),
    {
        proof {
            use_type_invariant(self);
        }
        self.day
    }

    /// Reads three numbers with `sep` between them as a date.
    fn parse_with(data: &[u8], sep: u8) -> (r: Option<Self>)
        ensures
            match parse_fields(data@, sep) {
                Some(v) => r matches Some(d) && d@ == v,
                None => r is None,
            },
    {
        let i: usize = index_of(data, sep);
        if i >= data.len() {
            return None;
        }
        let rest: &[u8] = slice_subrange(data, i + 1, data.len());
        let j: usize = index_of(rest, sep);
        if j >= rest.len() {
            return None;
        }
        assert(rest@ =~= data@.skip(i + 1));
        let first: &[u8] = slice_subrange(data, 0, i);
        let second: &[u8] = slice_subrange(rest, 0, j);
        let third: &[u8] = slice_subrange(rest, j + 1, rest.len());
        assert(first@ =~= data@.take(i as int));
        assert(second@ =~= rest@.take(j as int));
        assert(third@ =~= rest@.skip(j + 1));
        let year: Option<u64> = parse_field(first);
        let month: Option<u64> = parse_field(second);
        let day: Option<u64> = parse_field(third);
        match (year, month, day) {
            (Some(y), Some(m), Some(d)) => {
                if y <= 65535 && m <= 12 && d <= 31 {
                    ImperatorDate::new(y as u16, m as u8, d as u8)
                } else {
                    None
                }
            },
            _ => None,
        }
    }

    /// Reads a date in the game's notation, `Y.M.D`. Each part is a run of
    /// digits, and the three numbers must name a day of the calendar.
    pub fn parse_from_str(s: &str) -> (r: Option<Self>)
        ensures
            match parse_fields(s.spec_bytes(), DOT) {
                Some(v) => r matches Some(d) && d@ == v,
                None => r is None,
            },
    {
        ImperatorDate::parse_with(s.as_bytes(), DOT)
    }

    /// Reads a date in ISO 8601, `YYYY-MM-DD`, with the same rules for the
    /// parts as `parse_from_str`.
    pub fn parse_iso_8601(s: &str) -> (r: Option<Self>)
        ensures
            match parse_fields(s.spec_bytes(), DASH) {
                Some(v) => r matches Some(d) && d@ == v,
                None => r is None,
            },
    {
        ImperatorDate::parse_with(s.as_bytes(), DASH)
    }

    /// The days from the start of year zero to this date.
    pub fn days(&self) -> (r: i32)
        ensures
            r == day_number(self@),
    {
        proof {
            use_type_invariant(self);
        }
        let mut days: i32 = 0;
        days += (self.year as i32) * 365;
        days += month_offset(self.month);
        days += self.day as i32;
        days
    }

    /// The days from this date to `other`; negative where `other` is earlier.
    pub fn days_until(&self, other: &ImperatorDate) -> (r: i32)
        ensures
            r == day_number(other@) - day_number(self@),
    {
        proof {
            use_type_invariant(self);
            use_type_invariant(other);
        }
        other.days() - self.days()
    }

    /// The date `days` days after this one (before it, where negative). The
    /// day that is asked for must lie in the calendar.
    pub fn add_days(&self, days: i32) -> (r: ImperatorDate)
        requires
            valid_ymd(date_of_day_number(day_number(self@) + days)),
        ensures
            r@ == date_of_day_number(day_number(self@) + days),
            day_number(r@) == day_number(self@) + days,
    {
        proof {
            use_type_invariant(self);
        }
        let new_days: i32 = self.days() + days;
        proof {
            lemma_day_number_of_date(new_days as int);
        }
        let days_since_jan1: i32 = new_days % 365;
        let year: i32 = new_days / 365;
        let (month, day) = month_day_from_julian(days_since_jan1);
        ImperatorDate { year: year as u16, month: month as u8, day: day as u8 }
    }

    /// The date that an integer of a binary save denotes.
    pub fn from_i32(s: i32) -> (r: Option<Self>)
        ensures
            match decode_binary(s as int) {
                Some(v) => r matches Some(d) && d@ == v,
                None => r is None,
            },
    {
        if s < 0 {
            return None;
        }
        let days: i32 = s / 24;
        let days_since_jan1: i32 = days % 365;
        let year: i32 = days / 365 - 5000;
        if year < 1 || year > 65535 {
            return None;
        }
        let (month, day) = month_day_from_julian(days_since_jan1);
        proof {
            lemma_day_number_of_date(days as int);
        }
        Some(ImperatorDate { year: year as u16, month: month as u8, day: day as u8 })
    }

    /// The date that an integer of a binary save denotes, if its year is one
    /// that the game can plausibly mean; used where an integer may as well be
    /// a plain number.
    pub fn from_binary_heuristic(s: i32) -> (r: Option<Self>)
        ensures
            match decode_heuristic(s as int) {
                Some(v) => r matches Some(d) && d@ == v,
                None => r is None,
            },
    {
        match ImperatorDate::from_i32(s) {
            Some(date) => {
                if EARLIEST_PLAUSIBLE_YEAR <= date.year && date.year <= LATEST_PLAUSIBLE_YEAR {
                    Some(date)
                } else {
                    None
                }
            },
            None => None,
        }
    }

    /// The date in the game's notation, as bytes.
    pub fn game_fmt(&self) -> (r: Vec<u8>)
        ensures
            r@ == game_text(self@),
    {
        let mut out: Vec<u8> = Vec::new();
        push_number(&mut out, self.year as u64, 10, 0);
        out.push(DOT);
        push_number(&mut out, self.month as u64, 10, 0);
        out.push(DOT);
        push_number(&mut out, self.day as u64, 10, 0);
        proof {
            crate::digits::lemma_digits_len(self@.year as nat, 10);
            crate::digits::lemma_digits_len(self@.month as nat, 10);
            crate::digits::lemma_digits_len(self@.day as nat, 10);
            assert(out@ =~= game_text(self@));
        }
        out
    }

    /// The date in ISO 8601, as bytes.
    pub fn iso_8601_bytes(&self) -> (r: Vec<u8>)
        ensures
            r@ == iso_text(self@),
    {
        let mut out: Vec<u8> = Vec::new();
        push_number(&mut out, self.year as u64, 10, 4);
        out.push(DASH);
        push_number(&mut out, self.month as u64, 10, 2);
        out.push(DASH);
        push_number(&mut out, self.day as u64, 10, 2);
        proof {
            assert(out@ =~= iso_text(self@));
        }
        out
    }

    /// Formats the date in ISO 8601: `YYYY-MM-DD`.
    pub fn iso_8601(&self) -> (r: String)
        ensures
            r@ == ascii_text(iso_text(self@)),
    {
        let bytes: Vec<u8> = self.iso_8601_bytes();
        proof {
            lemma_iso_text_bytes(self@);
        }
        date_string(&bytes)
    }

    /// Formats the date in the game's notation: `Y.M.D`.
    pub fn imperator_fmt(&self) -> (r: String)
        ensures
            r@ == ascii_text(game_text(self@)),
    {
        let bytes: Vec<u8> = self.game_fmt();
        proof {
            lemma_game_text_bytes(self@);
        }
        date_string(&bytes)
    }
}

/// The game's notation holds digits and dots only.
pub proof fn lemma_game_text_bytes(v: Ymd)
    requires
        v.year >= 0,
        v.month >= 0,
        v.day >= 0,
    ensures
        forall|i: int| 0 <= i < game_text(v).len() ==> is_date_byte(#[trigger] game_text(v)[i]),
{
    crate::digits::lemma_decimal_digits_are_digits(v.year as nat);
    crate::digits::lemma_decimal_digits_are_digits(v.month as nat);
    crate::digits::lemma_decimal_digits_are_digits(v.day as nat);
}

/// ISO 8601 holds digits and dashes only.
pub proof fn lemma_iso_text_bytes(v: Ymd)
    requires
        v.year >= 0,
        v.month >= 0,
        v.day >= 0,
    ensures
        forall|i: int| 0 <= i < iso_text(v).len() ==> is_date_byte(#[trigger] iso_text(v)[i]),
{
    crate::digits::lemma_decimal_value_of_padded(v.year as nat, 4);
    crate::digits::lemma_decimal_value_of_padded(v.month as nat, 2);
    crate::digits::lemma_decimal_value_of_padded(v.day as nat, 2);
}

/// An ASCII text and the characters of its bytes encode to the same bytes.
pub proof fn lemma_ascii_text_bytes(bytes: Seq<u8>)
    requires
        forall|i: int| 0 <= i < bytes.len() ==> #[trigger] bytes[i] < 128,
    ensures
        vstd::utf8::encode_utf8(ascii_text(bytes)) == bytes,
{
    let chars = ascii_text(bytes);
    assert(vstd::utf8::is_ascii_chars(chars)) by {
        assert forall|i: int| 0 <= i < chars.len() implies '\0' <= #[trigger] chars[i]
            <= '\u{7f}' by {
            assert(chars[i] == bytes[i] as char);
            assert(bytes[i] < 128);
        }
    }
    vstd::utf8::is_ascii_chars_encode_utf8(chars);
    let encoded = vstd::utf8::encode_utf8(chars);
    assert forall|i: int| 0 <= i < bytes.len() implies encoded[i] == bytes[i] by {
        assert(chars[i] as u8 == encoded[i]);
        assert(chars[i] == bytes[i] as char);
        assert(bytes[i] < 128);
    }
    assert(encoded =~= bytes);
}

/// Three runs of digits with a separator between them are read as the date of
/// their three numbers.
pub proof fn lemma_parse_joined(a: Seq<u8>, b: Seq<u8>, c: Seq<u8>, sep: u8)
    requires
        all_digits(a),
        all_digits(b),
        all_digits(c),
        !crate::digits::is_digit(sep),
    ensures
        parse_fields(a + seq![sep] + b + seq![sep] + c, sep) == date_from_fields(
            field_value(a),
            field_value(b),
            field_value(c),
        ),
{
    let s = a + seq![sep] + b + seq![sep] + c;
    let i = a.len() as int;
    assert(s[i] == sep);
    assert forall|k: int| 0 <= k < i implies s[k] != sep by {
        assert(s[k] == a[k]);
    }
    lemma_find_byte(s, sep, i);
    let rest = s.skip(i + 1);
    assert(rest =~= b + seq![sep] + c);
    let j = b.len() as int;
    assert(rest[j] == sep);
    assert forall|k: int| 0 <= k < j implies rest[k] != sep by {
        assert(rest[k] == b[k]);
    }
    lemma_find_byte(rest, sep, j);
    assert(s.take(i) =~= a);
    assert(rest.take(j) =~= b);
    assert(rest.skip(j + 1) =~= c);
}

/// A number of at most sixteen bits, written in decimal with or without
/// padding, is read back as itself.
pub proof fn lemma_field_value_of_padded(n: nat, width: nat)
    requires
        n <= 65535,
    ensures
        field_value(padded(n, 10, width)) == Some(n as u64),
        all_digits(padded(n, 10, width)),
{
    crate::digits::lemma_decimal_value_of_padded(n, width);
    let s = padded(n, 10, width);
    assert(crate::digits::is_digit(s[0]));
}

/// Writing a date in the game's notation and reading it back gives the date,
/// on the bytes and on the string of them.
pub proof fn game_text_round_trip(v: Ymd)
    requires
        valid_ymd(v),
    ensures
        parse_fields(game_text(v), DOT) == Some(v),
        vstd::utf8::encode_utf8(ascii_text(game_text(v))) == game_text(v),
{
    lemma_field_value_of_padded(v.year as nat, 0);
    lemma_field_value_of_padded(v.month as nat, 0);
    lemma_field_value_of_padded(v.day as nat, 0);
    lemma_parse_joined(
        digits(v.year as nat, 10),
        digits(v.month as nat, 10),
        digits(v.day as nat, 10),
        DOT,
    );
    lemma_game_text_bytes(v);
    lemma_ascii_text_bytes(game_text(v));
}

/// Writing a date in ISO 8601 and reading it back gives the date, on the
/// bytes and on the string of them.
pub proof fn iso_text_round_trip(v: Ymd)
    requires
        valid_ymd(v),
    ensures
        parse_fields(iso_text(v), DASH) == Some(v),
        vstd::utf8::encode_utf8(ascii_text(iso_text(v))) == iso_text(v),
{
    lemma_field_value_of_padded(v.year as nat, 4);
    lemma_field_value_of_padded(v.month as nat, 2);
    lemma_field_value_of_padded(v.day as nat, 2);
    lemma_parse_joined(
        padded(v.year as nat, 10, 4),
        padded(v.month as nat, 10, 2),
        padded(v.day as nat, 10, 2),
        DASH,
    );
    lemma_iso_text_bytes(v);
    lemma_ascii_text_bytes(iso_text(v));
}

/// Going `k` days on from a date and counting the days back gives `-k`,
/// wherever the day that is reached lies in the calendar.
pub proof fn add_days_then_days_until(v: Ymd, k: int)
    requires
        valid_ymd(v),
        -3650 <= k <= 3650,
        valid_ymd(date_of_day_number(day_number(v) + k)),
    ensures
        day_number(v) - day_number(date_of_day_number(day_number(v) + k)) == -k,
{
    lemma_day_number_of_date(day_number(v) + k);
}

/// Going `i` days on from the first of January reaches the day of that year
/// whose number in the year, counted from zero, is `i`.
pub proof fn days_of_a_year(year: int, i: int)
    requires
        1 <= year <= 65535,
        0 <= i <= 364,
    ensures
        date_of_day_number(day_number((Ymd { year, month: 1, day: 1 })) + i) == (Ymd {
            year,
            month: month_of_ordinal(i),
            day: day_of_ordinal(i),
        }),
        valid_ymd((Ymd { year, month: month_of_ordinal(i), day: day_of_ordinal(i) })),
{
    let n = year * 365 + i;
    assert(n / 365 == year && n % 365 == i) by (nonlinear_arith)
        requires
            n == year * 365 + i,
            0 <= i < 365,
    ;
}

} // verus!

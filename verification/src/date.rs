use vstd::prelude::*;

verus! {

/// A calendar date in the proleptic Gregorian calendar, held as plain
/// year, month and day numbers (month and day are 1-based).
#[derive(Clone, Copy, PartialEq, Eq, Structural, Debug)]
pub struct Date {
    pub year: u32,
    pub month: u32,
    pub day: u32,
}

pub open spec fn is_leap_year(y: int) -> bool {
    (y % 4 == 0 && y % 100 != 0) || y % 400 == 0
}

pub open spec fn spec_days_in_month(y: int, m: int) -> int {
    if m == 2 {
        if is_leap_year(y) {
            29
        } else {
            28
        }
    } else if m == 4 || m == 6 || m == 9 || m == 11 {
        30
    } else {
        31
    }
}

pub open spec fn spec_days_in_year(y: int) -> int {
    if is_leap_year(y) {
        366
    } else {
        365
    }
}

/// Days of year `y` that precede month `m`.
pub open spec fn spec_days_before_month(y: int, m: int) -> int
    decreases m,
{
    if m <= 1 {
        0
    } else {
        spec_days_before_month(y, m - 1) + spec_days_in_month(y, m - 1)
    }
}

/// Days that precede year `y` in a linear count starting at year 1.
pub open spec fn spec_days_before_year(y: int) -> int
    decreases y,
{
    if y <= 1 {
        0
    } else {
        spec_days_before_year(y - 1) + spec_days_in_year(y - 1)
    }
}

/// The chars '0' through '9', for decimal rendering.
pub open spec fn digit_char(d: int) -> char {
    if d == 0 {
        '0'
    } else if d == 1 {
        '1'
    } else if d == 2 {
        '2'
    } else if d == 3 {
        '3'
    } else if d == 4 {
        '4'
    } else if d == 5 {
        '5'
    } else if d == 6 {
        '6'
    } else if d == 7 {
        '7'
    } else if d == 8 {
        '8'
    } else {
        '9'
    }
}

/// The `dd.mm.yyyy` rendering of a date, digit by digit.
pub open spec fn spec_format_dmy(d: Date) -> Seq<char> {
    seq![
        digit_char(d.day as int / 10),
        digit_char(d.day as int % 10),
        '.',
        digit_char(d.month as int / 10),
        digit_char(d.month as int % 10),
        '.',
        digit_char(d.year as int / 1000),
        digit_char((d.year as int / 100) % 10),
        digit_char((d.year as int / 10) % 10),
        digit_char(d.year as int % 10),
    ]
}

pub fn days_in_month(year: u32, month: u32) -> (r: u32)
    requires
        1 <= month <= 12,
    ensures
        r == spec_days_in_month(year as int, month as int),
        28 <= r <= 31,
{
    if month == 2 {
        if (year % 4 == 0 && year % 100 != 0) || year % 400 == 0 {
            29
        } else {
            28
        }
    } else if month == 4 || month == 6 || month == 9 || month == 11 {
        30
    } else {
        31
    }
}

/// The months of a year account for exactly its number of days.
pub proof fn lemma_months_total(y: int)
    ensures
        spec_days_before_month(y, 13) == spec_days_in_year(y),
{
    reveal_with_fuel(spec_days_before_month, 13);
}

/// `spec_days_before_month` is monotone in the month.
pub proof fn lemma_days_before_month_mono(y: int, m1: int, m2: int)
    requires
        m1 <= m2,
    ensures
        spec_days_before_month(y, m1) <= spec_days_before_month(y, m2),
    decreases m2 - m1,
{
    if m1 < m2 {
        lemma_days_before_month_mono(y, m1, m2 - 1);
    }
}

/// `spec_days_before_year` is monotone in the year.
pub proof fn lemma_days_before_year_mono(y1: int, y2: int)
    requires
        y1 <= y2,
    ensures
        spec_days_before_year(y1) <= spec_days_before_year(y2),
    decreases y2 - y1,
{
    if y1 < y2 {
        lemma_days_before_year_mono(y1, y2 - 1);
    }
}

impl Date {
    pub open spec fn valid(self) -> bool {
        &&& 1 <= self.year <= 9999
        &&& 1 <= self.month <= 12
        &&& 1 <= self.day <= spec_days_in_month(self.year as int, self.month as int)
    }

    /// The date's position in a linear count of days: day 1 is the first of
    /// January of year 1.
    pub open spec fn day_index(self) -> int {
        spec_days_before_year(self.year as int) + spec_days_before_month(
            self.year as int,
            self.month as int,
        ) + self.day
    }

    /// A valid date's day index stays below the count of days of all its years.
    pub proof fn lemma_day_index_bound(self)
        requires
            self.valid(),
        ensures
            spec_days_before_year(self.year as int) < self.day_index() <= spec_days_before_year(
                self.year as int + 1,
            ),
    {
        let y = self.year as int;
        let m = self.month as int;
        lemma_days_before_month_mono(y, 1, m);
        lemma_days_before_month_mono(y, m + 1, 13);
        lemma_months_total(y);
        assert(spec_days_before_month(y, m + 1) == spec_days_before_month(y, m)
            + spec_days_in_month(y, m));
        assert(spec_days_before_year(y + 1) == spec_days_before_year(y) + spec_days_in_year(y));
    }

    /// Valid dates and day indices correspond one to one: equal indices
    /// mean equal dates.
    pub proof fn lemma_day_index_injective(self, other: Date)
        requires
            self.valid(),
            other.valid(),
            self.day_index() == other.day_index(),
        ensures
            self == other,
    {
        let ya = self.year as int;
        let yb = other.year as int;
        if ya < yb {
            self.lemma_day_index_bound();
            other.lemma_day_index_bound();
            lemma_days_before_year_mono(ya + 1, yb);
        } else if yb < ya {
            self.lemma_day_index_bound();
            other.lemma_day_index_bound();
            lemma_days_before_year_mono(yb + 1, ya);
        } else {
            let ma = self.month as int;
            let mb = other.month as int;
            if ma < mb {
                lemma_days_before_month_mono(ya, ma + 1, mb);
                assert(spec_days_before_month(ya, ma + 1) == spec_days_before_month(ya, ma)
                    + spec_days_in_month(ya, ma));
            } else if mb < ma {
                lemma_days_before_month_mono(ya, mb + 1, ma);
                assert(spec_days_before_month(ya, mb + 1) == spec_days_before_month(ya, mb)
                    + spec_days_in_month(ya, mb));
            }
        }
    }

    /// Checked construction: `Some` exactly for valid dates.
    pub fn from_ymd(year: u32, month: u32, day: u32) -> (r: Option<Date>)
        ensures
            match r {
                Some(d) => d == (Date { year, month, day }) && d.valid(),
                None => !(Date { year, month, day }).valid(),
            },
    {
        if 1 <= year && year <= 9999 && 1 <= month && month <= 12 && 1 <= day && day
            <= days_in_month(year, month) {
            Some(Date { year, month, day })
        } else {
            None
        }
    }

    /// The day after this one.
    pub fn next_day(self) -> (r: Date)
        requires
            self.valid(),
            !(self.year == 9999 && self.month == 12 && self.day == 31),
        ensures
            r.valid(),
            r.day_index() == self.day_index() + 1,
    {
        let dim = days_in_month(self.year, self.month);
        if self.day < dim {
            Date { year: self.year, month: self.month, day: self.day + 1 }
        } else if self.month < 12 {
            let r = Date { year: self.year, month: self.month + 1, day: 1 };
            proof {
                assert(spec_days_before_month(self.year as int, self.month as int + 1)
                    == spec_days_before_month(self.year as int, self.month as int)
                    + spec_days_in_month(self.year as int, self.month as int));
            }
            r
        } else {
            let r = Date { year: self.year + 1, month: 1, day: 1 };
            proof {
                lemma_months_total(self.year as int);
                assert(spec_days_before_month(self.year as int, 13) == spec_days_before_month(
                    self.year as int,
                    12,
                ) + spec_days_in_month(self.year as int, 12));
            }
            r
        }
    }

    /// The date `n` days after this one.
    pub fn plus_days(self, n: u32) -> (r: Date)
        requires
            self.valid(),
            self.year <= 9998,
            n <= 300,
        ensures
            r.valid(),
            r.day_index() == self.day_index() + n,
    {
        let mut cur = self;
        let mut i: u32 = 0;
        while i < n
            invariant
                self.valid(),
                self.year <= 9998,
                n <= 300,
                i <= n,
                cur.valid(),
                cur.day_index() == self.day_index() + i,
            decreases n - i,
        {
            proof {
                if cur.year == 9999 && cur.month == 12 && cur.day == 31 {
                    cur.lemma_day_index_bound();
                    self.lemma_day_index_bound();
                    lemma_days_before_year_mono(self.year as int + 1, 9999);
                    lemma_months_total(9999);
                    lemma_days_before_month_mono(9999, 12, 13);
                    assert(spec_days_before_month(9999int, 13) == spec_days_before_month(9999int, 12)
                        + spec_days_in_month(9999int, 12));
                    assert(false);
                }
            }
            cur = cur.next_day();
            i = i + 1;
        }
        cur
    }

    /// Renders the date as `dd.mm.yyyy`, day and month zero-padded to two
    /// digits and the year to four.
    pub fn format_dd_mm_yyyy(&self) -> (r: String)
        requires
            self.valid(),
        ensures
            r@ == spec_format_dmy(*self),
    {
        let mut s = String::new();
        s.append(digit_str(self.day / 10));
        s.append(digit_str(self.day % 10));
        s.append(dot_str());
        s.append(digit_str(self.month / 10));
        s.append(digit_str(self.month % 10));
        s.append(dot_str());
        s.append(digit_str(self.year / 1000));
        s.append(digit_str((self.year / 100) % 10));
        s.append(digit_str((self.year / 10) % 10));
        s.append(digit_str(self.year % 10));
        proof {
            assert(s@ =~= spec_format_dmy(*self));
        }
        s
    }
}

/// A one-character string for the decimal digit `d`.
fn digit_str(d: u32) -> (r: &'static str)
    requires
        d <= 9,
    ensures
        r@ =~= seq![digit_char(d as int)],
{
    proof {
        reveal_strlit("0");
        reveal_strlit("1");
        reveal_strlit("2");
        reveal_strlit("3");
        reveal_strlit("4");
        reveal_strlit("5");
        reveal_strlit("6");
        reveal_strlit("7");
        reveal_strlit("8");
        reveal_strlit("9");
    }
    match d {
        0 => "0",
        1 => "1",
        2 => "2",
        3 => "3",
        4 => "4",
        5 => "5",
        6 => "6",
        7 => "7",
        8 => "8",
        _ => "9",
    }
}

/// A one-character string holding the date separator.
fn dot_str() -> (r: &'static str)
    ensures
        r@ =~= seq!['.'],
{
    proof {
        reveal_strlit(".");
    }
    "."
}

} // verus!

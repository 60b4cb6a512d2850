use vstd::prelude::*;
use crate::date::{Date, days_in_month, is_leap, leap, month_len, MAX_YEAR};
use crate::text::{chars_of, push_char};

verus! {

/// Unit of a recurrence: one day, week, month or year.
#[derive(Clone, Copy, Debug, PartialEq, Eq, Structural)]
pub enum Period {
    Day,
    Week,
    Month,
    Year,
}

/// Day after carrying an overflowing day of month into the next month.
pub open spec fn carry(y: int, m: int, d: int) -> (int, int, int) {
    if d > month_len(y, m) {
        if m == 12 {
            (y + 1, 1, d - month_len(y, m))
        } else {
            (y, m + 1, d - month_len(y, m))
        }
    } else {
        (y, m, d)
    }
}

/// The date one unit of `p` after `d`. A month or a year later keeps the day
/// of month; where the target month is shorter, the surplus days roll into the
/// following month (January 31 plus one month is March 3 or 2, February 29
/// plus one year is March 1).
pub open spec fn step(p: Period, d: Date) -> Date {
    let y = d.year as int;
    let m = d.month as int;
    let n = d.day as int;
    let t = match p {
        Period::Year => (y + 1, m, n),
        Period::Month => if m == 12 { (y + 1, 1, n) } else { (y, m + 1, n) },
        Period::Week => (y, m, n + 7),
        Period::Day => (y, m, n + 1),
    };
    let c = carry(t.0, t.1, t.2);
    Date { year: c.0 as i32, month: c.1 as u32, day: c.2 as u32 }
}

/// `n` units of `p` after `d`, one unit at a time.
pub open spec fn steps(p: Period, n: nat, d: Date) -> Date
    decreases n,
{
    if n == 0 {
        d
    } else {
        step(p, steps(p, (n - 1) as nat, d))
    }
}

/// One step moves a valid date to a valid date at most one year later.
pub proof fn lemma_step(p: Period, d: Date)
    requires
        d.wf(),
        d.year < MAX_YEAR,
    ensures
        step(p, d).wf(),
        d.year <= step(p, d).year <= d.year + 1,
{
}

/// `n` steps move a valid date at most `n` years forward, and keep it valid.
pub proof fn lemma_steps(p: Period, n: nat, d: Date)
    requires
        d.wf(),
        d.year + n <= MAX_YEAR,
    ensures
        steps(p, n, d).wf(),
        d.year <= steps(p, n, d).year <= d.year + n,
    decreases n,
{
    if n > 0 {
        lemma_steps(p, (n - 1) as nat, d);
        lemma_step(p, steps(p, (n - 1) as nat, d));
    }
}

/// Letter that stands for a period in text.
pub open spec fn period_code(p: Period) -> char {
    match p {
        Period::Day => 'd',
        Period::Week => 'w',
        Period::Month => 'm',
        Period::Year => 'y',
    }
}

/// Period that a letter stands for.
pub open spec fn period_of_code(c: char) -> Option<Period> {
    if c == 'd' {
        Some(Period::Day)
    } else if c == 'w' {
        Some(Period::Week)
    } else if c == 'm' {
        Some(Period::Month)
    } else if c == 'y' {
        Some(Period::Year)
    } else {
        None
    }
}

/// Each period's letter reads back as that period.
pub proof fn lemma_period_code(p: Period)
    ensures
        period_of_code(period_code(p)) == Some(p),
{
}

/// Each of the first `n` steps from `d` starts before the last year, so
/// that none of them leaves the calendar.
pub open spec fn stays_in_range(p: Period, n: nat, d: Date) -> bool {
    forall|i: nat| i < n ==> (#[trigger] steps(p, i, d)).year < MAX_YEAR
}

/// Steps that stay in range give valid dates.
pub proof fn lemma_steps_in_range(p: Period, i: nat, n: nat, d: Date)
    requires
        d.wf(),
        i <= n,
        stays_in_range(p, n, d),
    ensures
        steps(p, i, d).wf(),
    decreases i,
{
    if i > 0 {
        lemma_steps_in_range(p, (i - 1) as nat, n, d);
        assert(steps(p, (i - 1) as nat, d).year < MAX_YEAR);
        lemma_step(p, steps(p, (i - 1) as nat, d));
    }
}

/// `n` steps from a date at least `n` years before the last year stay in
/// range: a step moves at most one year.
pub proof fn lemma_years_in_range(p: Period, n: nat, d: Date)
    requires
        d.wf(),
        d.year + n <= MAX_YEAR,
    ensures
        stays_in_range(p, n, d),
{
    assert forall|i: nat| i < n implies (#[trigger] steps(p, i, d)).year < MAX_YEAR by {
        lemma_steps(p, i, d);
    }
}

impl Period {
    /// The period of a one-letter code `d`, `w`, `m` or `y`.
    pub fn from_char(c: char) -> (r: Option<Period>)
        ensures
            r == period_of_code(c),
    {
        if c == 'd' {
            Some(Period::Day)
        } else if c == 'w' {
            Some(Period::Week)
        } else if c == 'm' {
            Some(Period::Month)
        } else if c == 'y' {
            Some(Period::Year)
        } else {
            None
        }
    }

    /// Parses the text form of a period: exactly one of `d`, `w`, `m`, `y`.
    pub fn from_str(s: &str) -> (r: Result<Period, ()>)
        ensures
            r.is_ok() <==> (s@.len() == 1 && period_of_code(s@[0]).is_some()),
            r.is_ok() ==> Some(r->Ok_0) == period_of_code(s@[0]),
    {
        let v = chars_of(s);
        if v.len() != 1 {
            return Err(());
        }
        match Period::from_char(v[0]) {
            Some(p) => Ok(p),
            None => Err(()),
        }
    }

    /// Letter of this period.
    pub fn code(&self) -> (r: char)
        ensures
            r == period_code(*self),
    {
        match self {
            Period::Day => 'd',
            Period::Week => 'w',
            Period::Month => 'm',
            Period::Year => 'y',
        }
    }

    /// Text form of this period: its letter.
    pub fn to_text(&self) -> (r: String)
        ensures
            r@ == seq![period_code(*self)],
    {
        let mut s = String::new();
        push_char(&mut s, self.code());
        proof {
            assert(s@ =~= seq![period_code(*self)]);
        }
        s
    }

    /// Gregorian leap year rule.
    pub fn is_leap_year(year: i32) -> (r: bool)
        ensures
            r == leap(year as int),
    {
        is_leap(year)
    }

    /// The date one unit of this period after `date`.
    pub fn add(self, date: Date) -> (r: Date)
        requires
            date.wf(),
            date.year < MAX_YEAR,
        ensures
            r == step(self, date),
            r.wf(),
    {
        proof {
            lemma_step(self, date);
        }
        let mut y = date.year;
        let mut m = date.month;
        let mut d = date.day;
        match self {
            Period::Year => y = y + 1,
            Period::Month => {
                if m == 12 {
                    y = y + 1;
                    m = 1;
                } else {
                    m = m + 1;
                }
            },
            Period::Week => d = d + 7,
            Period::Day => d = d + 1,
        }
        let max_days = days_in_month(y, m);
        if d > max_days {
            d = d - max_days;
            if m == 12 {
                y = y + 1;
                m = 1;
            } else {
                m = m + 1;
            }
        }
        Date { year: y, month: m, day: d }
    }
}

} // verus!

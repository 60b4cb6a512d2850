use vstd::prelude::*;
use crate::date::{Date, MAX_YEAR};
use crate::period::{
    lemma_period_code, lemma_steps_in_range, period_code, period_of_code, stays_in_range, steps,
    Period,
};
use crate::text::{
    all_digits, chars_of, decimal, decimal_chars, digit_value, digits_value, is_digit,
    lemma_decimal, push_char, push_chars,
};

verus! {

/// A repeat rule: `num` units of `period`. A strict rule counts from the
/// task's own due date, any other from the day of completion.
#[derive(Clone, Copy, Debug, PartialEq, Eq, Structural)]
pub struct Recurrence {
    pub num: i64,
    pub period: Period,
    pub strict: bool,
}

/// The part of a recurrence text after an optional leading `+`.
pub open spec fn rec_body(s: Seq<char>) -> Seq<char> {
    if s.len() > 0 && s[0] == '+' {
        s.subrange(1, s.len() as int)
    } else {
        s
    }
}

/// Text of the shape `[+]<digits><d|w|m|y>`.
pub open spec fn rec_shape(s: Seq<char>) -> bool {
    let b = rec_body(s);
    b.len() >= 2 && all_digits(b.drop_last()) && period_of_code(b.last()).is_some()
}

/// Text of a recurrence whose count fits the count's type.
pub open spec fn rec_text_ok(s: Seq<char>) -> bool {
    rec_shape(s) && digits_value(rec_body(s).drop_last()) <= i64::MAX
}

/// The recurrence that an acceptable text stands for.
pub open spec fn rec_of(s: Seq<char>) -> Recurrence {
    let b = rec_body(s);
    Recurrence {
        num: digits_value(b.drop_last()) as i64,
        period: period_of_code(b.last())->0,
        strict: s.len() > 0 && s[0] == '+',
    }
}

/// Text form of a recurrence with a non-negative count.
pub open spec fn rec_text(r: Recurrence) -> Seq<char> {
    let body = decimal(r.num as nat).push(period_code(r.period));
    if r.strict {
        seq!['+'].add(body)
    } else {
        body
    }
}

/// A recurrence written as text reads back as itself.
pub proof fn lemma_rec_round_trip(r: Recurrence)
    requires
        r.num >= 0,
    ensures
        rec_text_ok(rec_text(r)),
        rec_of(rec_text(r)) == r,
{
    lemma_decimal(r.num as nat);
    lemma_period_code(r.period);
    let body = decimal(r.num as nat).push(period_code(r.period));
    assert(body.drop_last() =~= decimal(r.num as nat));
    if r.strict {
        assert(rec_body(rec_text(r)) =~= body);
    } else {
        assert(rec_body(rec_text(r)) =~= body);
    }
}

impl Recurrence {
    pub open spec fn wf(&self) -> bool {
        self.num >= 0
    }

    /// Parses `[+]<count><d|w|m|y>`; a leading `+` makes the rule strict.
    pub fn from_str(s: &str) -> (r: Result<Recurrence, ()>)
        ensures
            r.is_ok() <==> rec_text_ok(s@),
            r.is_ok() ==> r->Ok_0 == rec_of(s@) && r->Ok_0.wf(),
    {
        let v = chars_of(s);
        let n = v.len();
        let strict = n > 0 && v[0] == '+';
        let start: usize = if strict { 1 } else { 0 };
        let ghost b = rec_body(s@);
        proof {
            if strict {
                assert(b =~= v@.subrange(1, n as int));
            }
        }
        if n < start + 2 {
            return Err(());
        }
        let period = match Period::from_char(v[n - 1]) {
            Some(p) => p,
            None => return Err(()),
        };
        let mut num: i64 = 0;
        let mut i: usize = start;
        while i < n - 1
            invariant
                start <= i <= n - 1,
                n == v.len(),
                v@ == s@,
                b == v@.subrange(start as int, n as int),
                b == rec_body(s@),
                forall|j: int| start <= j < i ==> is_digit(#[trigger] v@[j]),
                num as int == digits_value(v@.subrange(start as int, i as int)),
                num >= 0,
            decreases n - 1 - i,
        {
            let c = v[i];
            let ghost pre = v@.subrange(start as int, i as int);
            proof {
                assert(v@.subrange(start as int, i + 1).drop_last() =~= pre);
            }
            if c < '0' || c > '9' {
                proof {
                    assert(b.drop_last()[i - start] == c);
                    assert(!is_digit(b.drop_last()[i - start]));
                    assert(!all_digits(b.drop_last()));
                }
                return Err(());
            }
            let d = (c as u32 - '0' as u32) as i64;
            if num > (i64::MAX - d) / 10 {
                proof {
                    assert(num * 10 + d > i64::MAX) by (nonlinear_arith)
                        requires
                            num > (i64::MAX - d) / 10,
                            0 <= d <= 9,
                    ;
                    let t = v@.subrange(start as int, i + 1);
                    assert(t.drop_last() =~= pre);
                    assert(t.last() == c);
                    assert(digit_value(c) == d);
                    assert(digits_value(t) == digits_value(pre) * 10 + digit_value(c));
                    assert(digits_value(t) == num * 10 + d);
                    if all_digits(b.drop_last()) {
                        lemma_digits_prefix_le(b.drop_last(), (i + 1 - start) as int);
                        assert(b.drop_last().subrange(0, i + 1 - start) =~= t);
                    }
                }
                return Err(());
            }
            proof {
                assert(num * 10 + d <= i64::MAX) by (nonlinear_arith)
                    requires
                        num <= (i64::MAX - d) / 10,
                        0 <= d <= 9,
                        num >= 0,
                ;
            }
            num = num * 10 + d;
            i = i + 1;
        }
        proof {
            assert(b.drop_last() =~= v@.subrange(start as int, i as int));
            assert(b.last() == v@[n - 1]);
            lemma_digits_prefix_le(b.drop_last(), b.drop_last().len() as int);
            assert(b.drop_last().subrange(0, b.drop_last().len() as int) =~= b.drop_last());
        }
        Ok(Recurrence { num, period, strict })
    }

    /// Text form: `+` if strict, the count in decimal, the period's letter.
    pub fn to_text(&self) -> (r: String)
        requires
            self.wf(),
        ensures
            r@ == rec_text(*self),
    {
        let mut s = String::new();
        if self.strict {
            push_char(&mut s, '+');
        }
        let digits = decimal_chars(self.num as u64);
        push_chars(&mut s, &digits);
        push_char(&mut s, self.period.code());
        proof {
            if self.strict {
                assert(s@ =~= rec_text(*self));
            } else {
                assert(s@ =~= rec_text(*self));
            }
        }
        s
    }

    /// The date `num` units of the period after `date`, applied one unit at
    /// a time.
    pub fn add(&self, date: Date) -> (r: Date)
        requires
            date.wf(),
            self.wf(),
            stays_in_range(self.period, self.num as nat, date),
        ensures
            r == steps(self.period, self.num as nat, date),
            r.wf(),
    {
        let mut result = date;
        let mut i: i64 = 0;
        while i < self.num
            invariant
                0 <= i <= self.num,
                date.wf(),
                stays_in_range(self.period, self.num as nat, date),
                result == steps(self.period, i as nat, date),
            decreases self.num - i,
        {
            proof {
                lemma_steps_in_range(self.period, i as nat, self.num as nat, date);
                assert(steps(self.period, i as nat, date).year < MAX_YEAR);
            }
            result = self.period.add(result);
            i = i + 1;
        }
        proof {
            lemma_steps_in_range(self.period, self.num as nat, self.num as nat, date);
        }
        result
    }

    /// The date `num` units of the period after `date`, where every step
    /// stays in the calendar; none where one would leave it.
    pub fn checked_add(&self, date: Date) -> (r: Option<Date>)
        requires
            date.wf(),
            self.wf(),
        ensures
            r.is_some() == stays_in_range(self.period, self.num as nat, date),
            r.is_some() ==> r->0 == steps(self.period, self.num as nat, date) && r->0.wf(),
    {
        let mut result = date;
        let mut i: i64 = 0;
        while i < self.num
            invariant
                0 <= i <= self.num,
                date.wf(),
                result == steps(self.period, i as nat, date),
                stays_in_range(self.period, i as nat, date),
            decreases self.num - i,
        {
            proof {
                lemma_steps_in_range(self.period, i as nat, i as nat, date);
            }
            if result.year >= MAX_YEAR {
                proof {
                    assert(steps(self.period, i as nat, date).year >= MAX_YEAR);
                }
                return None;
            }
            result = self.period.add(result);
            proof {
                assert forall|j: nat| j < (i + 1) as nat implies (#[trigger] steps(
                    self.period,
                    j,
                    date,
                )).year < MAX_YEAR by {
                    if j < i as nat {
                    }
                }
            }
            i = i + 1;
        }
        proof {
            lemma_steps_in_range(self.period, self.num as nat, self.num as nat, date);
        }
        Some(result)
    }
}

/// A prefix of a digit string never reads as more than the whole string.
pub proof fn lemma_digits_prefix_le(s: Seq<char>, k: int)
    requires
        0 <= k <= s.len(),
        all_digits(s),
    ensures
        digits_value(s.subrange(0, k)) <= digits_value(s),
        0 <= digits_value(s.subrange(0, k)),
    decreases s.len(),
{
    if s.len() > 0 {
        if k == s.len() {
            assert(s.subrange(0, k) =~= s);
            lemma_digits_prefix_le(s.drop_last(), s.len() - 1);
            assert(s.drop_last().subrange(0, s.len() - 1) =~= s.drop_last());
        } else {
            lemma_digits_prefix_le(s.drop_last(), k);
            assert(s.drop_last().subrange(0, k) =~= s.subrange(0, k));
            lemma_digits_prefix_le(s.drop_last(), s.len() - 1);
            assert(s.drop_last().subrange(0, s.len() - 1) =~= s.drop_last());
        }
    }
}

} // verus!

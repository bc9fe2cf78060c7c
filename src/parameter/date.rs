use super::integer::{int_range, lemma_range_bound, range_values};
use super::{subset_items, texts_of, Between, Choice, Placeholder, Powerset};
use chrono::{Datelike, NaiveDate};
use vstd::prelude::*;

verus! {

/// The day number, counted from 1 January of year 1, of the earliest date
/// that can be handled: 1 January of year -262143.
pub const FIRST_DAY: i32 = -95746129;

/// The day number of the latest date that can be handled: 31 December of
/// year 262142.
pub const LAST_DAY: i32 = 95745399;

/// The day number of a calendar date, if that date exists and can be handled.
pub uninterp spec fn ymd_day(year: int, month: nat, day: nat) -> Option<int>;

/// A date written as `YYYY-MM-DD`, from its day number.
pub uninterp spec fn iso_date(day: int) -> Seq<char>;

/// Relies on chrono's NaiveDate::from_ymd_opt and Datelike::num_days_from_ce:
/// the day number of an existing date in chrono's range.
#[verifier::external_body]
fn day_of_ymd(year: i32, month: u32, day: u32) -> (r: Option<i32>)
    ensures
        r matches Some(n) ==> FIRST_DAY <= n <= LAST_DAY,
        r matches Some(n) ==> ymd_day(year as int, month as nat, day as nat) == Some(n as int),
        r is None ==> ymd_day(year as int, month as nat, day as nat) is None,
{
    NaiveDate::from_ymd_opt(year, month, day).map(|d| d.num_days_from_ce())
}

/// Relies on chrono's NaiveDate::from_num_days_from_ce_opt, which accepts
/// every day number in chrono's range, and on NaiveDate's Display.
#[verifier::external_body]
fn day_text(day: i32) -> (r: String)
    requires
        FIRST_DAY <= day <= LAST_DAY,
    ensures
        r@ == iso_date(day as int),
{
    NaiveDate::from_num_days_from_ce_opt(day).unwrap().to_string()
}

/// A calendar date, held as its day number counted from 1 January of year 1.
#[derive(Clone, Copy)]
pub struct Date {
    day: i32,
}

impl Date {
    #[verifier::type_invariant]
    closed spec fn in_range(&self) -> bool {
        FIRST_DAY <= self.day <= LAST_DAY
    }

    pub closed spec fn day(&self) -> int {
        self.day as int
    }

    /// The date with a given day number, if it can be handled.
    pub fn from_day(day: i32) -> (r: Option<Date>)
        ensures
            r is Some <==> FIRST_DAY <= day <= LAST_DAY,
            r matches Some(d) ==> d.day() == day,
    {
        if FIRST_DAY <= day && day <= LAST_DAY {
            Some(Date { day })
        } else {
            None
        }
    }

    /// The date of a year, month and day, if that date exists.
    pub fn from_ymd(year: i32, month: u32, day: u32) -> (r: Option<Date>)
        ensures
            r is Some <==> ymd_day(year as int, month as nat, day as nat) is Some,
            r matches Some(d) ==> ymd_day(year as int, month as nat, day as nat) == Some(d.day()),
    {
        match day_of_ymd(year, month, day) {
            Some(n) => Some(Date { day: n }),
            None => None,
        }
    }

    pub fn day_number(&self) -> (r: i32)
        ensures
            r == self.day(),
    {
        self.day
    }

    /// The date as `YYYY-MM-DD`.
    pub fn text(&self) -> (r: String)
        ensures
            r@ == iso_date(self.day()),
    {
        proof {
            use_type_invariant(self);
        }
        day_text(self.day)
    }
}

/// How the values of a date parameter are given. A range advances by a
/// number of days.
pub enum DateValueFactory {
    Scala(Date),
    Choice(Choice<Vec<Date>>),
    Between(Between<Date, usize>),
    Powerset(Powerset<Date>),
}

/// A format pattern for dates; dates are written as `YYYY-MM-DD` whatever it
/// holds.
pub struct DateFormatter(String);

impl DateFormatter {
    pub closed spec fn pattern(&self) -> Seq<char> {
        self.0@
    }

    pub fn new(pattern: &str) -> (r: Self)
        ensures
            r.pattern() == pattern@,
    {
        DateFormatter(crate::text::copy_text(pattern))
    }
}

/// The day numbers of a list of dates.
pub open spec fn day_numbers(dates: Seq<Date>) -> Seq<int> {
    dates.map_values(|d: Date| d.day())
}

impl DateValueFactory {
    /// The day numbers of the dates this specification produces, in order.
    pub open spec fn days(&self) -> Seq<int> {
        match self {
            DateValueFactory::Scala(x) => seq![x.day()],
            DateValueFactory::Choice(c) => day_numbers(c.value()@),
            DateValueFactory::Between(b) => int_range(
                b.from().day() as i32,
                b.to().day() as i32,
                b.step(),
            ).map_values(|n: i32| n as int),
            DateValueFactory::Powerset(p) => day_numbers(subset_items(p.items())),
        }
    }

    /// A range advances by a positive number of days.
    pub open spec fn wf(&self) -> bool {
        match self {
            DateValueFactory::Between(b) => b.step() > 0,
            _ => true,
        }
    }

    pub fn scala(x: Date) -> (r: Self)
        ensures
            r.wf(),
            r.days() == seq![x.day()],
    {
        DateValueFactory::Scala(x)
    }

    pub fn choice(x: Vec<Date>) -> (r: Self)
        ensures
            r.wf(),
            r.days() == day_numbers(x@),
    {
        DateValueFactory::Choice(Choice(x))
    }

    pub fn between(from: Date, to: Date, step: usize) -> (r: Self)
        requires
            step > 0,
        ensures
            r.wf(),
            r.days() == int_range(from.day() as i32, to.day() as i32, step).map_values(
                |n: i32| n as int,
            ),
    {
        DateValueFactory::Between(Between::new(from, to, step))
    }

    pub fn powerset(x: Vec<Date>) -> (r: Self)
        ensures
            r.wf(),
            r.days() == day_numbers(subset_items(x@)),
    {
        DateValueFactory::Powerset(Powerset::new(x))
    }
}

/// The dates whose day numbers run from `from` to `to` by `step` days.
fn date_range(from: Date, to: Date, step: usize) -> (r: Vec<Date>)
    requires
        step > 0,
    ensures
        day_numbers(r@) == int_range(from.day() as i32, to.day() as i32, step).map_values(
            |n: i32| n as int,
        ),
{
    proof {
        use_type_invariant(&from);
        use_type_invariant(&to);
    }
    let days = range_values(from.day, to.day, step);
    let mut out: Vec<Date> = Vec::new();
    let mut k: usize = 0;
    while k < days.len()
        invariant
            FIRST_DAY <= from.day() <= LAST_DAY,
            FIRST_DAY <= to.day() <= LAST_DAY,
            step > 0,
            days@ == int_range(from.day() as i32, to.day() as i32, step),
            0 <= k <= days@.len(),
            out@.len() == k,
            forall|a: int| 0 <= a < k ==> (#[trigger] out@[a]).day() == days@[a] as int,
        decreases days@.len() - k,
    {
        proof {
            lemma_range_bound(from.day() as i32, to.day() as i32, step, k as int);
        }
        out.push(Date { day: days[k] });
        k = k + 1;
    }
    proof {
        assert(day_numbers(out@) =~= days@.map_values(|n: i32| n as int));
    }
    out
}

impl Placeholder<DateValueFactory, DateFormatter> {
    /// The text of each value the parameter produces.
    pub open spec fn date_texts(&self) -> Seq<Seq<char>> {
        self.factory().days().map_values(|n: int| iso_date(n))
    }

    pub fn date_values(&self) -> (r: Vec<String>)
        requires
            self.factory().wf(),
        ensures
            texts_of(r@) == self.date_texts(),
    {
        let dates = match &self.factory {
            DateValueFactory::Scala(x) => vec![*x],
            DateValueFactory::Choice(c) => c.0.clone(),
            DateValueFactory::Between(b) => date_range(b.from, b.to, b.step),
            DateValueFactory::Powerset(p) => p.subset_run(),
        };
        proof {
            assert(day_numbers(dates@) =~= self.factory().days());
        }
        let mut out: Vec<String> = Vec::new();
        let mut k: usize = 0;
        while k < dates.len()
            invariant
                day_numbers(dates@) == self.factory().days(),
                0 <= k <= dates@.len(),
                texts_of(out@) =~= day_numbers(dates@).subrange(0, k as int).map_values(
                    |n: int| iso_date(n),
                ),
            decreases dates@.len() - k,
        {
            let t = dates[k].text();
            let ghost before = out@;
            out.push(t);
            proof {
                assert(texts_of(before).len() == k);
                assert(texts_of(out@) =~= texts_of(before).push(t@));
            }
            k = k + 1;
            proof {
                assert(texts_of(out@) =~= day_numbers(dates@).subrange(0, k as int).map_values(
                    |n: int| iso_date(n),
                ));
            }
        }
        proof {
            assert(day_numbers(dates@).subrange(0, dates@.len() as int) =~= day_numbers(dates@));
        }
        out
    }
}

} // verus!

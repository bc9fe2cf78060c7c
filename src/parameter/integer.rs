use super::{subset_items, texts_of, Between, Choice, Placeholder, Powerset};
use crate::text::{decimal, int_text};
use vstd::arithmetic::div_mod::lemma_fundamental_div_mod;
use vstd::prelude::*;

verus! {

/// How the values of an integer parameter are given.
pub enum IntValueFactory {
    Scala(i32),
    Choice(Choice<Vec<i32>>),
    Between(Between<i32, usize>),
    Powerset(Powerset<i32>),
}

/// Formatting of integers: they are always written in decimal.
pub struct IntFormatter;

/// How many values the inclusive range from `from` to `to` by `step` holds.
pub open spec fn range_len(from: int, to: int, step: nat) -> nat {
    if to < from {
        0
    } else {
        ((to - from) / (step as int) + 1) as nat
    }
}

/// The integers from `from` up to and including `to` at most, advancing by
/// `step`.
pub open spec fn int_range(from: i32, to: i32, step: usize) -> Seq<i32> {
    Seq::new(range_len(from as int, to as int, step as nat), |k: int| (from + k * step) as i32)
}

impl IntValueFactory {
    /// The values this specification produces, in order.
    pub open spec fn values(&self) -> Seq<i32> {
        match self {
            IntValueFactory::Scala(x) => seq![*x],
            IntValueFactory::Choice(c) => c.value()@,
            IntValueFactory::Between(b) => int_range(b.from(), b.to(), b.step()),
            IntValueFactory::Powerset(p) => subset_items(p.items()),
        }
    }

    /// A range advances by a positive step.
    pub open spec fn wf(&self) -> bool {
        match self {
            IntValueFactory::Between(b) => b.step() > 0,
            _ => true,
        }
    }

    pub fn scala(x: i32) -> (r: Self)
        ensures
            r.wf(),
            r.values() == seq![x],
    {
        IntValueFactory::Scala(x)
    }

    pub fn choice(x: Vec<i32>) -> (r: Self)
        ensures
            r.wf(),
            r.values() == x@,
    {
        IntValueFactory::Choice(Choice(x))
    }

    pub fn between(from: i32, to: i32, step: usize) -> (r: Self)
        requires
            step > 0,
        ensures
            r.wf(),
            r.values() == int_range(from, to, step),
    {
        IntValueFactory::Between(Between::new(from, to, step))
    }

    pub fn powerset(x: Vec<i32>) -> (r: Self)
        ensures
            r.wf(),
            r.values() == subset_items(x@),
    {
        IntValueFactory::Powerset(Powerset::new(x))
    }
}

proof fn lemma_range_step(d: nat, s: nat, k: nat)
    requires
        s > 0,
        k <= d / s,
    ensures
        k * s <= d,
{
    lemma_fundamental_div_mod(d as int, s as int);
    assert(k * s <= (d / s) * s) by (nonlinear_arith)
        requires
            k <= d / s,
            s > 0,
    ;
    assert((d / s) * s == s * (d / s)) by (nonlinear_arith);
}

/// Every value of a range lies between its ends.
pub(crate) proof fn lemma_range_bound(from: i32, to: i32, step: usize, k: int)
    requires
        step > 0,
        0 <= k < int_range(from, to, step).len(),
    ensures
        from <= int_range(from, to, step)[k] <= to,
        int_range(from, to, step)[k] == from + k * step,
{
    let d = (to - from) as nat;
    lemma_range_step(d, step as nat, k as nat);
    assert(k * step >= 0) by (nonlinear_arith)
        requires
            k >= 0,
    ;
}

/// The integers of an inclusive range.
pub fn range_values(from: i32, to: i32, step: usize) -> (r: Vec<i32>)
    requires
        step > 0,
    ensures
        r@ == int_range(from, to, step),
{
    let mut out: Vec<i32> = Vec::new();
    if to < from {
        proof {
            assert(out@ =~= int_range(from, to, step));
        }
        return out;
    }
    let d: u64 = (to as i64 - from as i64) as u64;
    let count: u64 = d / (step as u64) + 1;
    let mut cur: i64 = from as i64;
    let mut k: u64 = 0;
    while k < count
        invariant
            d == to - from,
            count == (d as nat) / (step as nat) + 1,
            step > 0,
            0 <= k <= count,
            k < count ==> cur == from + k * step,
            out@ =~= int_range(from, to, step).subrange(0, k as int),
        decreases count - k,
    {
        proof {
            lemma_range_step(d as nat, step as nat, k as nat);
        }
        out.push(cur as i32);
        if k + 1 < count {
            proof {
                lemma_range_step(d as nat, step as nat, (k + 1) as nat);
                assert((k + 1) * step == k * step + step) by (nonlinear_arith);
            }
            cur = cur + step as i64;
        }
        k = k + 1;
    }
    out
}

/// The decimal text of each integer.
fn int_texts(v: &Vec<i32>) -> (r: Vec<String>)
    ensures
        texts_of(r@) == v@.map_values(|x: i32| decimal(x as int)),
{
    let mut out: Vec<String> = Vec::new();
    let mut k: usize = 0;
    while k < v.len()
        invariant
            0 <= k <= v@.len(),
            texts_of(out@) =~= v@.subrange(0, k as int).map_values(|x: i32| decimal(x as int)),
        decreases v@.len() - k,
    {
        let t = int_text(v[k]);
        let ghost before = out@;
        out.push(t);
        proof {
            assert(texts_of(before).len() == k);
            assert(texts_of(out@) =~= texts_of(before).push(t@));
        }
        k = k + 1;
        proof {
            assert(texts_of(out@) =~= v@.subrange(0, k as int).map_values(
                |x: i32| decimal(x as int),
            ));
        }
    }
    proof {
        assert(v@.subrange(0, v@.len() as int) =~= v@);
    }
    out
}

impl Placeholder<IntValueFactory, IntFormatter> {
    /// The text of each value the parameter produces.
    pub open spec fn int_texts(&self) -> Seq<Seq<char>> {
        self.factory().values().map_values(|x: i32| decimal(x as int))
    }

    pub fn int_values(&self) -> (r: Vec<String>)
        requires
            self.factory().wf(),
        ensures
            texts_of(r@) == self.int_texts(),
    {
        let values = match &self.factory {
            IntValueFactory::Scala(x) => vec![*x],
            IntValueFactory::Choice(c) => c.0.clone(),
            IntValueFactory::Between(b) => range_values(b.from, b.to, b.step),
            IntValueFactory::Powerset(p) => p.subset_run(),
        };
        int_texts(&values)
    }
}

} // verus!

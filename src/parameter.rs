pub mod boolean;
pub mod date;
pub mod float;
pub mod integer;
pub mod string;

use self::boolean::{BoolFormatter, BoolValueFactory};
use self::date::{DateFormatter, DateValueFactory};
use self::integer::{IntFormatter, IntValueFactory};
use self::string::{StringFormatter, StringValueFactory};
use itertools::Itertools;
use vstd::prelude::*;

verus! {

/// The subsets of the positions `0..n`, each as an increasing list of
/// positions, in the order in which the powerset of `0..n` comes out.
pub uninterp spec fn index_subsets(n: nat) -> Seq<Seq<usize>>;

/// Relies on itertools::Itertools::powerset, applied to `0..n`: every subset
/// it yields holds only elements of `0..n`.
#[verifier::external_body]
fn range_subsets(n: usize) -> (r: Vec<Vec<usize>>)
    ensures
        r@.map_values(|v: Vec<usize>| v@) == index_subsets(n as nat),
        forall|k: int, m: int| 0 <= k < r@.len() && 0 <= m < r@[k]@.len() ==> r@[k]@[m] < n,
{
    (0..n).powerset().collect()
}

/// The items of `items` at the positions `idx`, in that order.
pub open spec fn pick<T>(items: Seq<T>, idx: Seq<usize>) -> Seq<T> {
    idx.map_values(|i: usize| items[i as int])
}

/// Every subset of `items`, each keeping the items' relative order.
pub open spec fn subsets<T>(items: Seq<T>) -> Seq<Seq<T>> {
    index_subsets(items.len()).map_values(|idx: Seq<usize>| pick(items, idx))
}

/// The subsets of `items` one after the other, as one run of items.
pub open spec fn subset_items<T>(items: Seq<T>) -> Seq<T> {
    subsets(items).flatten()
}

/// The text of each string.
pub open spec fn texts_of(v: Seq<String>) -> Seq<Seq<char>> {
    v.map_values(|s: String| s@)
}

/// A choice among candidates: a list of values, or for booleans both truth
/// values.
pub struct Choice<T>(T);

impl<T> Choice<T> {
    pub closed spec fn value(&self) -> T {
        self.0
    }
}

/// The values from `from` to `to`, advancing by `step`.
pub struct Between<T, Step> {
    from: T,
    to: T,
    step: Step,
}

impl<T, Step> Between<T, Step> {
    pub closed spec fn from(&self) -> T {
        self.from
    }

    pub closed spec fn to(&self) -> T {
        self.to
    }

    pub closed spec fn step(&self) -> Step {
        self.step
    }

    pub fn new(from: T, to: T, step: Step) -> (r: Self)
        ensures
            r.from() == from,
            r.to() == to,
            r.step() == step,
    {
        Between { from, to, step }
    }
}

/// Every subset of a list of values.
pub struct Powerset<T>(Vec<T>);

impl<T> Powerset<T> {
    pub closed spec fn items(&self) -> Seq<T> {
        self.0@
    }

    pub fn new(vec: Vec<T>) -> (r: Self)
        ensures
            r.items() == vec@,
    {
        Powerset(vec)
    }
}

impl<T> Powerset<T> {
    /// The position lists of every subset of the items, with each position
    /// inside the list.
    pub(crate) fn index_lists(&self) -> (r: Vec<Vec<usize>>)
        ensures
            r@.map_values(|v: Vec<usize>| v@) == index_subsets(self.items().len()),
            forall|k: int, m: int|
                0 <= k < r@.len() && 0 <= m < r@[k]@.len() ==> r@[k]@[m] < self.items().len(),
    {
        range_subsets(self.0.len())
    }
}

impl<T: Copy> Powerset<T> {
    /// The items of all subsets, one subset after the other.
    pub(crate) fn subset_run(&self) -> (r: Vec<T>)
        ensures
            r@ == subset_items(self.items()),
    {
        let subs = self.subsets();
        let ghost whole = subs@.map_values(|v: Vec<T>| v@);
        let mut out: Vec<T> = Vec::new();
        let mut k: usize = 0;
        while k < subs.len()
            invariant
                0 <= k <= subs@.len(),
                whole == subs@.map_values(|v: Vec<T>| v@),
                out@ == whole.subrange(0, k as int).flatten(),
            decreases subs@.len() - k,
        {
            let row = &subs[k];
            let mut m: usize = 0;
            let ghost start = out@;
            while m < row.len()
                invariant
                    0 <= m <= row@.len(),
                    out@ == start + row@.subrange(0, m as int),
                decreases row@.len() - m,
            {
                out.push(row[m]);
                m = m + 1;
                proof {
                    assert(out@ =~= start + row@.subrange(0, m as int));
                }
            }
            proof {
                assert(row@.subrange(0, row@.len() as int) =~= row@);
                assert(whole.subrange(0, k + 1) =~= whole.subrange(0, k as int).push(row@));
                whole.subrange(0, k as int).lemma_flatten_push(row@);
            }
            k = k + 1;
        }
        proof {
            assert(whole.subrange(0, whole.len() as int) =~= whole);
        }
        out
    }

    /// The subsets, the empty one first and the whole list last.
    pub fn subsets(&self) -> (r: Vec<Vec<T>>)
        ensures
            r@.map_values(|v: Vec<T>| v@) == subsets(self.items()),
    {
        let idx = range_subsets(self.0.len());
        let mut out: Vec<Vec<T>> = Vec::new();
        let mut k: usize = 0;
        while k < idx.len()
            invariant
                0 <= k <= idx@.len(),
                idx@.map_values(|v: Vec<usize>| v@) == index_subsets(self.0@.len()),
                forall|a: int, m: int|
                    0 <= a < idx@.len() && 0 <= m < idx@[a]@.len() ==> idx@[a]@[m]
                        < self.0@.len(),
                out@.len() == k,
                forall|a: int| 0 <= a < k ==> (#[trigger] out@[a])@ == pick(self.0@, idx@[a]@),
            decreases idx@.len() - k,
        {
            let row = &idx[k];
            let mut picked: Vec<T> = Vec::new();
            let mut m: usize = 0;
            while m < row.len()
                invariant
                    0 <= k < idx@.len(),
                    *row == idx@[k as int],
                    forall|b: int| 0 <= b < row@.len() ==> row@[b] < self.0@.len(),
                    0 <= m <= row@.len(),
                    picked@ =~= pick(self.0@, row@.subrange(0, m as int)),
                decreases row@.len() - m,
            {
                picked.push(self.0[row[m]]);
                m = m + 1;
                proof {
                    assert(picked@ =~= pick(self.0@, row@.subrange(0, m as int)));
                }
            }
            proof {
                assert(row@.subrange(0, row@.len() as int) =~= row@);
            }
            out.push(picked);
            k = k + 1;
        }
        proof {
            assert(out@.map_values(|v: Vec<T>| v@) =~= subsets(self.0@)) by {
                assert forall|a: int| 0 <= a < out@.len() implies out@.map_values(
                    |v: Vec<T>| v@,
                )[a] == subsets(self.0@)[a] by {
                    assert(idx@.map_values(|v: Vec<usize>| v@)[a] == idx@[a]@);
                }
            }
        }
        out
    }
}

/// A value specification together with an optional formatter for the values
/// it produces.
pub struct Placeholder<V, F> {
    factory: V,
    format: Option<F>,
}

impl<V, F> Placeholder<V, F> {
    pub closed spec fn factory(&self) -> V {
        self.factory
    }

    pub closed spec fn format(&self) -> Option<F> {
        self.format
    }

    pub fn new(factory: V, format: Option<F>) -> (r: Self)
        ensures
            r.factory() == factory,
            r.format() == format,
    {
        Placeholder { factory, format }
    }
}

/// The value specification of one parameter, for one of the scalar types.
pub enum Value {
    Bool(Placeholder<BoolValueFactory, BoolFormatter>),
    String(Placeholder<StringValueFactory, StringFormatter>),
    Int(Placeholder<IntValueFactory, IntFormatter>),
    Date(Placeholder<DateValueFactory, DateFormatter>),
}

impl Value {
    /// The formatted values this specification produces, in order.
    pub open spec fn texts(&self) -> Seq<Seq<char>> {
        match self {
            Value::Bool(p) => p.bool_texts(),
            Value::String(p) => p.string_texts(),
            Value::Int(p) => p.int_texts(),
            Value::Date(p) => p.date_texts(),
        }
    }

    pub open spec fn wf(&self) -> bool {
        match self {
            Value::Int(p) => p.factory().wf(),
            Value::Date(p) => p.factory().wf(),
            _ => true,
        }
    }

    pub fn bool(factory: BoolValueFactory) -> (r: Self)
        ensures
            r.wf(),
            r.texts() == factory.values().map_values(|x: bool| boolean::plain_text(x)),
    {
        Value::Bool(Placeholder::new(factory, None))
    }

    pub fn bool_with_format(factory: BoolValueFactory, format: BoolFormatter) -> (r: Self)
        ensures
            r.wf(),
            r.texts() == factory.values().map_values(|x: bool| boolean::bool_text(Some(format), x)),
    {
        Value::Bool(Placeholder::new(factory, Some(format)))
    }

    pub fn string(factory: StringValueFactory) -> (r: Self)
        ensures
            r.wf(),
            r.texts() == factory.values(),
    {
        Value::String(Placeholder::new(factory, None))
    }

    pub fn integer(factory: IntValueFactory) -> (r: Self)
        requires
            factory.wf(),
        ensures
            r.wf(),
            r.texts() == factory.values().map_values(|x: i32| crate::text::decimal(x as int)),
    {
        Value::Int(Placeholder::new(factory, None))
    }

    pub fn date(factory: DateValueFactory) -> (r: Self)
        requires
            factory.wf(),
        ensures
            r.wf(),
            r.texts() == factory.days().map_values(|n: int| date::iso_date(n)),
    {
        Value::Date(Placeholder::new(factory, None))
    }

    pub fn date_with_format(factory: DateValueFactory, format: DateFormatter) -> (r: Self)
        requires
            factory.wf(),
        ensures
            r.wf(),
            r.texts() == factory.days().map_values(|n: int| date::iso_date(n)),
    {
        Value::Date(Placeholder::new(factory, Some(format)))
    }

    /// The formatted values, in order.
    pub fn values(&self) -> (r: Vec<String>)
        requires
            self.wf(),
        ensures
            texts_of(r@) == self.texts(),
    {
        match self {
            Value::Bool(p) => p.bool_values(),
            Value::String(p) => p.string_values(),
            Value::Int(p) => p.int_values(),
            Value::Date(p) => p.date_values(),
        }
    }
}

/// A named query-string key; it contributes `key=value` once for each value
/// of its specification.
pub struct QueryParameter {
    key: String,
    value: Value,
}

impl QueryParameter {
    pub closed spec fn key_text(&self) -> Seq<char> {
        self.key@
    }

    pub closed spec fn spec_value(&self) -> Value {
        self.value
    }

    pub fn new(key: &str, value: Value) -> (r: Self)
        ensures
            r.key_text() == key@,
            r.spec_value() == value,
    {
        QueryParameter { key: crate::text::copy_text(key), value }
    }

    pub fn key(&self) -> (r: &str)
        ensures
            r@ == self.key_text(),
    {
        self.key.as_str()
    }

    pub fn value(&self) -> (r: &Value)
        ensures
            *r == self.spec_value(),
    {
        &self.value
    }

    /// One pair of key and formatted value for each value, in order.
    pub fn pairs(&self) -> (r: Vec<(String, String)>)
        requires
            self.spec_value().wf(),
        ensures
            r@.len() == self.spec_value().texts().len(),
            forall|k: int|
                0 <= k < r@.len() ==> (#[trigger] r@[k]).0@ == self.key_text() && r@[k].1@
                    == self.spec_value().texts()[k],
    {
        let values = self.value.values();
        let mut out: Vec<(String, String)> = Vec::new();
        let mut k: usize = 0;
        while k < values.len()
            invariant
                texts_of(values@) == self.spec_value().texts(),
                0 <= k <= values@.len(),
                out@.len() == k,
                forall|a: int|
                    0 <= a < k ==> (#[trigger] out@[a]).0@ == self.key_text() && out@[a].1@
                        == values@[a]@,
            decreases values@.len() - k,
        {
            out.push((self.key.clone(), values[k].clone()));
            k = k + 1;
        }
        out
    }
}

} // verus!

use super::{subset_items, subsets, texts_of, Choice, Placeholder, Powerset};
use vstd::prelude::*;

verus! {

/// How the values of a string parameter are given.
pub enum StringValueFactory {
    Scala(String),
    Choice(Choice<Vec<String>>),
    Powerset(Powerset<String>),
}

/// Formatting of strings: there is none, strings stand as they are.
pub struct StringFormatter;

impl StringValueFactory {
    /// The values this specification produces, in order.
    pub open spec fn values(&self) -> Seq<Seq<char>> {
        match self {
            StringValueFactory::Scala(s) => seq![s@],
            StringValueFactory::Choice(c) => texts_of(c.value()@),
            StringValueFactory::Powerset(p) => texts_of(subset_items(p.items())),
        }
    }

    pub fn scala(s: &str) -> (r: StringValueFactory)
        ensures
            r.values() == seq![s@],
    {
        StringValueFactory::Scala(crate::text::copy_text(s))
    }

    pub fn choice(vec: &Vec<String>) -> (r: StringValueFactory)
        ensures
            r.values() == texts_of(vec@),
    {
        StringValueFactory::Choice(Choice(vec.clone()))
    }

    pub fn powerset(vec: &Vec<String>) -> (r: StringValueFactory)
        ensures
            r.values() == texts_of(subset_items(vec@)),
    {
        StringValueFactory::Powerset(Powerset::new(vec.clone()))
    }
}

/// The strings of all subsets of `p`, one subset after the other.
fn string_subset_run(p: &Powerset<String>) -> (r: Vec<String>)
    ensures
        r@ == subset_items(p.items()),
{
    let idx = p.index_lists();
    let ghost items = p.items();
    let ghost whole = subsets(items);
    let mut out: Vec<String> = Vec::new();
    let mut k: usize = 0;
    while k < idx.len()
        invariant
            items == p.items(),
            whole == subsets(items),
            idx@.map_values(|v: Vec<usize>| v@) == super::index_subsets(items.len()),
            forall|a: int, m: int|
                0 <= a < idx@.len() && 0 <= m < idx@[a]@.len() ==> idx@[a]@[m] < items.len(),
            0 <= k <= idx@.len(),
            out@ == whole.subrange(0, k as int).flatten(),
        decreases idx@.len() - k,
    {
        let row = &idx[k];
        let ghost start = out@;
        let ghost chosen = super::pick(items, row@);
        proof {
            assert(idx@.map_values(|v: Vec<usize>| v@)[k as int] == row@);
            assert(whole[k as int] == chosen);
        }
        let mut m: usize = 0;
        while m < row.len()
            invariant
                items == p.items(),
                0 <= k < idx@.len(),
                *row == idx@[k as int],
                forall|b: int| 0 <= b < row@.len() ==> row@[b] < items.len(),
                chosen == super::pick(items, row@),
                0 <= m <= row@.len(),
                out@ == start + chosen.subrange(0, m as int),
            decreases row@.len() - m,
        {
            let s = p.0[row[m]].clone();
            out.push(s);
            m = m + 1;
            proof {
                assert(out@ =~= start + chosen.subrange(0, m as int));
            }
        }
        proof {
            assert(chosen.subrange(0, chosen.len() as int) =~= chosen);
            assert(whole.subrange(0, k + 1) =~= whole.subrange(0, k as int).push(chosen));
            whole.subrange(0, k as int).lemma_flatten_push(chosen);
        }
        k = k + 1;
    }
    proof {
        assert(whole.subrange(0, whole.len() as int) =~= whole);
    }
    out
}

impl Placeholder<StringValueFactory, StringFormatter> {
    /// The text of each value the parameter produces.
    pub open spec fn string_texts(&self) -> Seq<Seq<char>> {
        self.factory().values()
    }

    pub fn string_values(&self) -> (r: Vec<String>)
        ensures
            texts_of(r@) == self.string_texts(),
    {
        match &self.factory {
            StringValueFactory::Scala(s) => {
                let r = vec![s.clone()];
                proof {
                    assert(texts_of(r@) =~= seq![s@]);
                }
                r
            },
            StringValueFactory::Choice(c) => {
                let r = c.0.clone();
                proof {
                    assert(texts_of(r@) =~= texts_of(c.value()@));
                }
                r
            },
            StringValueFactory::Powerset(p) => string_subset_run(p),
        }
    }
}

} // verus!

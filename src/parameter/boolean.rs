use super::{texts_of, Choice, Placeholder};
use vstd::prelude::*;
use vstd::string::*;

verus! {

/// How the values of a boolean parameter are given. A choice always yields
/// both truth values, `true` first.
pub enum BoolValueFactory {
    Scala(bool),
    Choice(Choice<bool>),
}

/// How a boolean is written.
pub enum BoolFormatter {
    /// `1` for true, `0` for false.
    ZeroOne,
}

impl BoolValueFactory {
    /// The values this specification produces, in order.
    pub open spec fn values(&self) -> Seq<bool> {
        match self {
            BoolValueFactory::Scala(x) => seq![*x],
            BoolValueFactory::Choice(_) => seq![true, false],
        }
    }

    pub fn scala(x: bool) -> (r: Self)
        ensures
            r.values() == seq![x],
    {
        BoolValueFactory::Scala(x)
    }

    pub fn choice() -> (r: Self)
        ensures
            r.values() == seq![true, false],
    {
        BoolValueFactory::Choice(Choice(true))
    }

    /// The values, as booleans.
    pub fn bools(&self) -> (r: Vec<bool>)
        ensures
            r@ == self.values(),
    {
        match self {
            BoolValueFactory::Scala(x) => {
                let r = vec![*x];
                proof {
                    assert(r@ =~= seq![*x]);
                }
                r
            },
            BoolValueFactory::Choice(_) => {
                let r = vec![true, false];
                proof {
                    assert(r@ =~= seq![true, false]);
                }
                r
            },
        }
    }
}

/// `1` for true, `0` for false.
pub open spec fn zero_one_text(x: bool) -> Seq<char> {
    if x {
        seq!['1']
    } else {
        seq!['0']
    }
}

/// A boolean as Rust writes it: `true` or `false`.
pub open spec fn plain_text(x: bool) -> Seq<char> {
    if x {
        seq!['t', 'r', 'u', 'e']
    } else {
        seq!['f', 'a', 'l', 's', 'e']
    }
}

/// A boolean written with an optional formatter.
pub open spec fn bool_text(format: Option<BoolFormatter>, x: bool) -> Seq<char> {
    match format {
        Some(BoolFormatter::ZeroOne) => zero_one_text(x),
        None => plain_text(x),
    }
}

impl BoolFormatter {
    pub fn format(&self, x: bool) -> (r: String)
        ensures
            r@ == bool_text(Some(*self), x),
    {
        match self {
            BoolFormatter::ZeroOne => zero_one(x),
        }
    }
}

pub fn zero_one(x: bool) -> (r: String)
    ensures
        r@ == zero_one_text(x),
{
    if x {
        proof {
            reveal_strlit("1");
        }
        String::from_str("1")
    } else {
        proof {
            reveal_strlit("0");
        }
        String::from_str("0")
    }
}

fn plain(x: bool) -> (r: String)
    ensures
        r@ == plain_text(x),
{
    if x {
        proof {
            reveal_strlit("true");
        }
        String::from_str("true")
    } else {
        proof {
            reveal_strlit("false");
        }
        String::from_str("false")
    }
}

impl Placeholder<BoolValueFactory, BoolFormatter> {
    /// The text of each value the parameter produces.
    pub open spec fn bool_texts(&self) -> Seq<Seq<char>> {
        self.factory().values().map_values(|x: bool| bool_text(self.format(), x))
    }

    pub fn bool_values(&self) -> (r: Vec<String>)
        ensures
            texts_of(r@) == self.bool_texts(),
    {
        let values = self.factory.bools();
        let mut out: Vec<String> = Vec::new();
        let mut k: usize = 0;
        while k < values.len()
            invariant
                values@ == self.factory().values(),
                0 <= k <= values@.len(),
                texts_of(out@) =~= values@.subrange(0, k as int).map_values(
                    |x: bool| bool_text(self.format(), x),
                ),
            decreases values@.len() - k,
        {
            let t = match &self.format {
                Some(f) => f.format(values[k]),
                None => plain(values[k]),
            };
            let ghost before = out@;
            out.push(t);
            proof {
                assert(texts_of(before).len() == k);
                assert(texts_of(out@) =~= texts_of(before).push(t@));
            }
            k = k + 1;
            proof {
                assert(texts_of(out@) =~= values@.subrange(0, k as int).map_values(
                    |x: bool| bool_text(self.format(), x),
                ));
            }
        }
        proof {
            assert(values@.subrange(0, values@.len() as int) =~= values@);
        }
        out
    }
}

} // verus!

use vstd::arithmetic::div_mod::lemma_fundamental_div_mod;
use vstd::arithmetic::div_mod::lemma_fundamental_div_mod_converse;
use vstd::prelude::*;

verus! {

/// The number of combinations after which digit `i` moves on to its next
/// value: the product of the lengths of all digits before it.
pub open spec fn stride<T>(digits: Seq<Seq<T>>, i: int) -> nat
    decreases i,
{
    if i <= 0 {
        1
    } else {
        stride(digits, i - 1) * digits[i - 1].len()
    }
}

/// The number of combinations of `digits`: the product of all their lengths.
pub open spec fn total<T>(digits: Seq<Seq<T>>) -> nat {
    stride(digits, digits.len() as int)
}

/// Digits a counter can be built from: at least one, and every digit but the
/// last one non-empty.
pub open spec fn valid_digits<T>(digits: Seq<Seq<T>>) -> bool {
    &&& digits.len() >= 1
    &&& forall|i: int| 0 <= i < digits.len() - 1 ==> #[trigger] digits[i].len() > 0
}

/// Which value of digit `i` stands in combination number `j`: the mixed-radix
/// decomposition of `j`, where every digit but the last wraps around and the
/// last one only counts up.
pub open spec fn digit_index<T>(digits: Seq<Seq<T>>, i: int, j: nat) -> nat {
    if i == digits.len() - 1 {
        j / stride(digits, i)
    } else {
        (j / stride(digits, i)) % digits[i].len()
    }
}

/// Combination number `j` in odometer order: one value from each digit.
pub open spec fn combination<T>(digits: Seq<Seq<T>>, j: nat) -> Seq<T> {
    Seq::new(digits.len(), |i: int| digits[i][digit_index(digits, i, j) as int])
}

/// The position, within each digit, of the value that combination number `j`
/// takes.
pub open spec fn value_positions<T>(digits: Seq<Seq<T>>, j: nat) -> Seq<nat> {
    Seq::new(digits.len(), |i: int| digit_index(digits, i, j))
}

/// What call number `j` of a counter over `digits` returns.
pub open spec fn counter_output<T>(digits: Seq<Seq<T>>, j: nat) -> Option<Seq<T>> {
    if j < total(digits) {
        Some(combination(digits, j))
    } else {
        None
    }
}

/// The contents of an optional vector.
pub open spec fn opt_seq<T>(r: Option<Vec<T>>) -> Option<Seq<T>> {
    match r {
        Some(v) => Some(v@),
        None => None,
    }
}

proof fn lemma_div_mod_step(p: nat, s: nat)
    requires
        s > 0,
    ensures
        p % s + 1 == s ==> (p + 1) % s == 0 && (p + 1) / s == p / s + 1,
        p % s + 1 != s ==> (p + 1) % s == p % s + 1 && (p + 1) / s == p / s,
{
    lemma_fundamental_div_mod(p as int, s as int);
    let q = p / s;
    let m = p % s;
    assert(p == s * q + m);
    if m + 1 == s {
        assert(p + 1 == (q + 1) * s + 0) by (nonlinear_arith)
            requires
                p == s * q + m,
                m + 1 == s,
        ;
        lemma_fundamental_div_mod_converse((p + 1) as int, s as int, (q + 1) as int, 0);
    } else {
        assert(p + 1 == q * s + (m + 1)) by (nonlinear_arith)
            requires
                p == s * q + m,
        ;
        lemma_fundamental_div_mod_converse((p + 1) as int, s as int, q as int, (m + 1) as int);
    }
}

pub(crate) proof fn lemma_last_digit(c: nat, s: nat, n: nat)
    requires
        s > 0,
    ensures
        c < s * n ==> c / s < n,
        c == s * n ==> c / s == n,
{
    lemma_fundamental_div_mod(c as int, s as int);
    if c < s * n && c / s >= n {
        assert(s * (c / s) >= s * n) by (nonlinear_arith)
            requires
                c / s >= n,
                s > 0,
        ;
    }
    if c == s * n {
        lemma_fundamental_div_mod_converse(c as int, s as int, n as int, 0);
    }
}

pub(crate) proof fn lemma_stride_grows<T>(digits: Seq<Seq<T>>, i: int, j: int)
    requires
        valid_digits(digits),
        0 <= i <= j <= digits.len() - 1,
    ensures
        0 < stride(digits, i) <= stride(digits, j),
    decreases j - i,
{
    if i < j {
        lemma_stride_grows(digits, i, j - 1);
        assert(digits[j - 1].len() > 0);
        assert(stride(digits, j) == stride(digits, j - 1) * digits[j - 1].len());
        assert(stride(digits, j - 1) * digits[j - 1].len() >= stride(digits, j - 1)) by (
        nonlinear_arith)
            requires
                digits[j - 1].len() > 0,
        ;
    } else {
        lemma_stride_positive(digits, i);
    }
}

pub(crate) proof fn lemma_stride_positive<T>(digits: Seq<Seq<T>>, i: int)
    requires
        valid_digits(digits),
        0 <= i <= digits.len() - 1,
    ensures
        stride(digits, i) > 0,
    decreases i,
{
    if i > 0 {
        lemma_stride_positive(digits, i - 1);
        assert(digits[i - 1].len() > 0);
        assert(stride(digits, i - 1) * digits[i - 1].len() > 0) by (nonlinear_arith)
            requires
                stride(digits, i - 1) > 0,
                digits[i - 1].len() > 0,
        ;
    }
}

/// Strides depend on the digits' lengths alone.
pub(crate) proof fn lemma_stride_by_lengths<T, U>(a: Seq<Seq<T>>, b: Seq<Seq<U>>, i: int)
    requires
        a.len() == b.len(),
        0 <= i <= a.len(),
        forall|k: int| 0 <= k < a.len() ==> #[trigger] a[k].len() == b[k].len(),
    ensures
        stride(a, i) == stride(b, i),
    decreases i,
{
    if i > 0 {
        lemma_stride_by_lengths(a, b, i - 1);
        assert(a[i - 1].len() == b[i - 1].len());
    }
}

/// One digit of a counter: it hands out each value of `inner` for
/// `countup_by` calls in a row, then moves on. A cycling digit starts over
/// after its last value; any other stays exhausted.
pub struct Cycler<T> {
    inner: Vec<T>,
    countup_by: usize,
    count: usize,
    index: usize,
    cycles: bool,
}

impl<T: Copy> Cycler<T> {
    pub closed spec fn items(&self) -> Seq<T> {
        self.inner@
    }

    pub closed spec fn countup_by(&self) -> nat {
        self.countup_by as nat
    }

    /// Calls made since the current value was first handed out.
    pub closed spec fn count(&self) -> nat {
        self.count as nat
    }

    /// Position in `items` of the value handed out next.
    pub closed spec fn index(&self) -> nat {
        self.index as nat
    }

    pub closed spec fn cycles(&self) -> bool {
        self.cycles
    }

    pub closed spec fn wf(&self) -> bool {
        &&& self.countup_by > 0
        &&& self.count < self.countup_by
        &&& self.index <= self.inner.len()
        &&& self.cycles && self.inner.len() > 0 ==> self.index < self.inner.len()
    }

    pub fn new(inner: Vec<T>, countup_by: usize) -> (r: Self)
        requires
            countup_by > 0,
        ensures
            r.wf(),
            r.items() == inner@,
            r.countup_by() == countup_by,
            r.count() == 0,
            r.index() == 0,
            !r.cycles(),
    {
        Cycler { inner, countup_by, count: 0, index: 0, cycles: false }
    }

    /// The same digit, starting over from its first value each time its
    /// values run out.
    pub fn cycle(self) -> (r: Self)
        requires
            self.wf(),
            self.count() == 0,
            self.index() == 0,
        ensures
            r.wf(),
            r.items() == self.items(),
            r.countup_by() == self.countup_by(),
            r.count() == 0,
            r.index() == 0,
            r.cycles(),
    {
        Cycler { cycles: true, ..self }
    }

    pub fn next(&mut self) -> (r: Option<T>)
        requires
            old(self).wf(),
        ensures
            final(self).wf(),
            final(self).items() == old(self).items(),
            final(self).countup_by() == old(self).countup_by(),
            final(self).cycles() == old(self).cycles(),
            old(self).index() < old(self).items().len() ==> {
                &&& r == Some(old(self).items()[old(self).index() as int])
                &&& old(self).count() + 1 == old(self).countup_by() ==> {
                    &&& final(self).count() == 0
                    &&& final(self).index() == if old(self).cycles() && old(self).index() + 1
                        == old(self).items().len() {
                        0
                    } else {
                        old(self).index() + 1
                    }
                }
                &&& old(self).count() + 1 != old(self).countup_by() ==> {
                    &&& final(self).count() == old(self).count() + 1
                    &&& final(self).index() == old(self).index()
                }
            },
            old(self).index() >= old(self).items().len() ==> r is None && *final(self)
                == *old(self),
    {
        if self.index >= self.inner.len() {
            return None;
        }
        let value = self.inner[self.index];
        if self.count + 1 == self.countup_by {
            self.count = 0;
            if self.cycles && self.index + 1 == self.inner.len() {
                self.index = 0;
            } else {
                self.index = self.index + 1;
            }
        } else {
            self.count = self.count + 1;
        }
        Some(value)
    }
}

/// An odometer over several digits: each call returns one value of every
/// digit, the first digit changing fastest and the last one slowest. It stops
/// for good once the last digit runs out.
pub struct Counter<T> {
    cyclers: Vec<Cycler<T>>,
    last: Cycler<T>,
    calls: Ghost<nat>,
}

impl<T: Copy> Counter<T> {
    /// The digits the counter was built from, in order.
    pub closed spec fn digits(&self) -> Seq<Seq<T>> {
        Seq::new(self.cyclers@.len(), |i: int| self.cyclers@[i].items()).push(self.last.items())
    }

    /// How many times `next` has been called.
    pub closed spec fn calls(&self) -> nat {
        self.calls@
    }

    pub closed spec fn wf(&self) -> bool {
        let d = self.digits();
        let c = self.calls@;
        let k = self.cyclers@.len() as int;
        let s = stride(d, k);
        &&& valid_digits(d)
        &&& forall|i: int|
            0 <= i < k ==> {
                &&& (#[trigger] self.cyclers@[i]).wf()
                &&& self.cyclers@[i].cycles()
                &&& self.cyclers@[i].countup_by() == stride(d, i)
                &&& self.cyclers@[i].count() == c % stride(d, i)
                &&& self.cyclers@[i].index() == (c / stride(d, i)) % d[i].len()
            }
        &&& self.last.wf()
        &&& !self.last.cycles()
        &&& self.last.countup_by() == s
        &&& c <= total(d) ==> self.last.count() == c % s && self.last.index() == c / s
        &&& c > total(d) ==> self.last.index() == self.last.items().len()
    }

    pub fn new(digits: Vec<Vec<T>>) -> (r: Self)
        requires
            valid_digits(digits@.map_values(|v: Vec<T>| v@)),
            stride(digits@.map_values(|v: Vec<T>| v@), digits@.len() - 1) <= usize::MAX,
        ensures
            r.wf(),
            r.digits() == digits@.map_values(|v: Vec<T>| v@),
            r.calls() == 0,
    {
        let ghost d = digits@.map_values(|v: Vec<T>| v@);
        let mut digits = digits;
        let k = digits.len() - 1;
        let mut cyclers: Vec<Cycler<T>> = Vec::new();
        let mut countup_by: usize = 1;
        let mut i: usize = 0;
        while i < k
            invariant
                k == d.len() - 1,
                valid_digits(d),
                stride(d, k as int) <= usize::MAX,
                0 <= i <= k,
                digits@.len() == d.len() - i,
                forall|j: int|
                    0 <= j < digits@.len() ==> (#[trigger] digits@[j])@ == d[j + i],
                cyclers@.len() == i,
                countup_by == stride(d, i as int),
                forall|j: int|
                    0 <= j < i ==> {
                        &&& (#[trigger] cyclers@[j]).wf()
                        &&& cyclers@[j].cycles()
                        &&& cyclers@[j].items() == d[j]
                        &&& cyclers@[j].countup_by() == stride(d, j)
                        &&& cyclers@[j].count() == 0
                        &&& cyclers@[j].index() == 0
                    },
            decreases k - i,
        {
            proof {
                lemma_stride_grows(d, i as int, i as int + 1);
                lemma_stride_grows(d, i as int + 1, k as int);
            }
            let v = digits.remove(0);
            let len = v.len();
            cyclers.push(Cycler::new(v, countup_by).cycle());
            countup_by = countup_by * len;
            i = i + 1;
        }
        proof {
            lemma_stride_positive(d, k as int);
        }
        let v = digits.remove(0);
        let last = Cycler::new(v, countup_by);
        let r = Counter { cyclers, last, calls: Ghost(0) };
        proof {
            assert(r.digits() =~= d);
            assert forall|j: int| 0 <= j < k implies (#[trigger] r.cyclers@[j]).index() == (0nat
                / stride(d, j)) % d[j].len() by {
                lemma_stride_grows(d, j, k as int);
                assert(0nat / stride(d, j) == 0);
                assert(d[j].len() > 0);
                assert(0nat % d[j].len() == 0);
            }
        }
        r
    }

    pub fn next(&mut self) -> (r: Option<Vec<T>>)
        requires
            old(self).wf(),
        ensures
            final(self).wf(),
            final(self).digits() == old(self).digits(),
            final(self).calls() == old(self).calls() + 1,
            opt_seq(r) == counter_output(old(self).digits(), old(self).calls()),
    {
        let ghost d = self.digits();
        let ghost c = self.calls@;
        let ghost k = self.cyclers@.len() as int;
        let mut values: Vec<T> = Vec::new();
        let mut i: usize = 0;
        while i < self.cyclers.len()
            invariant
                self.digits() == d,
                self.calls@ == c,
                k == self.cyclers@.len(),
                0 <= i <= k,
                valid_digits(d),
                self.last == old(self).last,
                values@.len() == i,
                forall|j: int| 0 <= j < i ==> #[trigger] values@[j] == combination(d, c)[j],
                forall|j: int|
                    0 <= j < k ==> {
                        &&& (#[trigger] self.cyclers@[j]).wf()
                        &&& self.cyclers@[j].cycles()
                        &&& self.cyclers@[j].countup_by() == stride(d, j)
                    },
                forall|j: int|
                    i <= j < k ==> {
                        &&& (#[trigger] self.cyclers@[j]).count() == c % stride(d, j)
                        &&& self.cyclers@[j].index() == (c / stride(d, j)) % d[j].len()
                    },
                forall|j: int|
                    0 <= j < i ==> {
                        &&& (#[trigger] self.cyclers@[j]).count() == (c + 1) % stride(d, j)
                        &&& self.cyclers@[j].index() == ((c + 1) / stride(d, j)) % d[j].len()
                    },
            decreases k - i,
        {
            proof {
                lemma_stride_positive(d, i as int);
                let s = stride(d, i as int);
                let n = d[i as int].len();
                lemma_div_mod_step(c, s);
                lemma_div_mod_step(c / s, n);
                assert(self.cyclers@[i as int].items() == d[i as int]);
            }
            let ghost before = self.cyclers@;
            let v = self.cyclers[i].next();
            proof {
                assert(self.cyclers@ == before.update(i as int, self.cyclers@[i as int]));
                assert(self.digits() =~= d);
            }
            match v {
                Some(x) => {
                    values.push(x);
                },
                None => {},
            }
            i = i + 1;
        }
        proof {
            lemma_stride_positive(d, k);
            lemma_div_mod_step(c, stride(d, k));
            lemma_last_digit(c, stride(d, k), d[k].len());
            assert(total(d) == stride(d, k) * d[k].len());
        }
        let ghost old_last = self.last;
        let end = self.last.next();
        proof {
            self.calls@ = c + 1;
            assert(self.digits() =~= d);
        }
        match end {
            Some(x) => {
                values.push(x);
                proof {
                    assert(values@ =~= combination(d, c));
                }
                Some(values)
            },
            None => None,
        }
    }
}

proof fn lemma_low_parts_agree<T>(d: Seq<Seq<T>>, i: int, j1: nat, j2: nat)
    requires
        valid_digits(d),
        0 <= i <= d.len() - 1,
        forall|k: int| 0 <= k < i ==> digit_index(d, k, j1) == digit_index(d, k, j2),
    ensures
        j1 % stride(d, i) == j2 % stride(d, i),
    decreases i,
{
    if i > 0 {
        lemma_low_parts_agree(d, i - 1, j1, j2);
        lemma_stride_positive(d, i - 1);
        let y = stride(d, i - 1);
        let z = d[i - 1].len();
        assert(z > 0);
        assert(digit_index(d, i - 1, j1) == digit_index(d, i - 1, j2));
        vstd::arithmetic::div_mod::lemma_breakdown(j1 as int, y as int, z as int);
        vstd::arithmetic::div_mod::lemma_breakdown(j2 as int, y as int, z as int);
    }
}

/// A counter over valid digits returns a combination on exactly the first
/// `total(digits)` calls, the product of the digits' lengths, and nothing on
/// every call after those. No two of those combinations take their values from
/// the same positions.
pub proof fn lemma_counter_exhausts<T>(digits: Seq<Seq<T>>)
    requires
        valid_digits(digits),
    ensures
        forall|j: nat| #[trigger] counter_output(digits, j) is Some <==> j < total(digits),
        forall|j: nat|
            j < total(digits) ==> (#[trigger] counter_output(digits, j)) == Some(
                combination(digits, j),
            ) && combination(digits, j).len() == digits.len(),
        forall|j1: nat, j2: nat|
            j1 < total(digits) && j2 < total(digits) && j1 != j2 ==> #[trigger] value_positions(
                digits,
                j1,
            ) != #[trigger] value_positions(digits, j2),
{
    assert forall|j1: nat, j2: nat|
        j1 < total(digits) && j2 < total(digits) && j1 != j2 implies #[trigger] value_positions(
        digits,
        j1,
    ) != #[trigger] value_positions(digits, j2) by {
        let last = digits.len() - 1;
        if forall|k: int| 0 <= k < last ==> digit_index(digits, k, j1) == digit_index(digits, k, j2) {
            lemma_low_parts_agree(digits, last, j1, j2);
            lemma_stride_positive(digits, last);
            let s = stride(digits, last);
            lemma_fundamental_div_mod(j1 as int, s as int);
            lemma_fundamental_div_mod(j2 as int, s as int);
            assert(digit_index(digits, last, j1) != digit_index(digits, last, j2));
            assert(value_positions(digits, j1)[last] != value_positions(digits, j2)[last]);
        } else {
            let k = choose|k: int|
                0 <= k < last && digit_index(digits, k, j1) != digit_index(digits, k, j2);
            assert(value_positions(digits, j1)[k] != value_positions(digits, j2)[k]);
        }
    }
}

/// How fast each digit changes: from one combination to the next, digit `i`
/// moves on exactly when the number of the new combination is a multiple of
/// its stride (for the first digit that is every time). A wrapping digit then
/// goes to its next value, starting over after its last one; the last digit
/// only counts up and never comes back to an earlier value.
pub proof fn lemma_digit_rates<T>(digits: Seq<Seq<T>>, i: int, j: nat)
    requires
        valid_digits(digits),
        0 <= i < digits.len(),
    ensures
        stride(digits, 0) == 1,
        i < digits.len() - 1 ==> digit_index(digits, i, j + 1) == if (j + 1) % stride(digits, i)
            == 0 {
            (digit_index(digits, i, j) + 1) % digits[i].len()
        } else {
            digit_index(digits, i, j)
        },
        i == digits.len() - 1 ==> digit_index(digits, i, j + 1) == if (j + 1) % stride(digits, i)
            == 0 {
            digit_index(digits, i, j) + 1
        } else {
            digit_index(digits, i, j)
        },
        i == digits.len() - 1 ==> digit_index(digits, i, j) <= digit_index(digits, i, j + 1),
{
    lemma_stride_positive(digits, i);
    let s = stride(digits, i);
    lemma_div_mod_step(j, s);
    if i < digits.len() - 1 {
        let n = digits[i].len();
        assert(n > 0);
        lemma_div_mod_step(j / s, n);
        vstd::arithmetic::div_mod::lemma_mod_bound((j / s + 1) as int, n as int);
        if (j / s) % n + 1 == n {
            vstd::arithmetic::div_mod::lemma_mod_self_0(n as int);
        } else {
            vstd::arithmetic::div_mod::lemma_small_mod(((j / s) % n + 1) as nat, n);
        }
    }
}

} // verus!

use crate::counter::{
    combination, counter_output, digit_index, lemma_stride_by_lengths, lemma_stride_grows,
    stride, total, valid_digits, Counter,
};
use crate::parameter::{texts_of, QueryParameter, Value};
use crate::text::{copy_text, push_char, replace_all, replace_text};
use vstd::prelude::*;
use vstd::string::*;

verus! {

/// A formatted value together with its parameter's name and role: a query
/// key, or a placeholder of the URL's path.
pub enum Type {
    Query(String, String),
    Param(String, String),
}

/// A tagged value as plain data: whether it fills a path placeholder, the
/// parameter's name, and the value.
pub open spec fn tag(t: Type) -> (bool, Seq<char>, Seq<char>) {
    match t {
        Type::Query(k, v) => (false, k@, v@),
        Type::Param(k, v) => (true, k@, v@),
    }
}

/// The placeholder for a path parameter: its name in braces.
pub open spec fn placeholder_of(name: Seq<char>) -> Seq<char> {
    seq!['{'] + name + seq!['}']
}

/// The URL with the placeholder of each path value replaced by that value, in
/// the order of the combination.
pub open spec fn substitute(url: Seq<char>, combo: Seq<(bool, Seq<char>, Seq<char>)>) -> Seq<
    char,
>
    decreases combo.len(),
{
    if combo.len() == 0 {
        url
    } else {
        let s = substitute(url, combo.drop_last());
        let t = combo.last();
        if t.0 {
            replace_all(s, placeholder_of(t.1), t.2)
        } else {
            s
        }
    }
}

/// `key=value` for each query value of the combination, in order.
pub open spec fn fragments(combo: Seq<(bool, Seq<char>, Seq<char>)>) -> Seq<Seq<char>>
    decreases combo.len(),
{
    if combo.len() == 0 {
        Seq::empty()
    } else {
        let f = fragments(combo.drop_last());
        let t = combo.last();
        if t.0 {
            f
        } else {
            f.push(t.1 + seq!['='] + t.2)
        }
    }
}

/// The parts joined with `&` between them.
pub open spec fn join(parts: Seq<Seq<char>>) -> Seq<char>
    decreases parts.len(),
{
    if parts.len() == 0 {
        Seq::empty()
    } else if parts.len() == 1 {
        parts[0]
    } else {
        join(parts.drop_last()) + seq!['&'] + parts.last()
    }
}

/// The URL for one combination: the substituted template, `?`, and the query
/// fragments joined with `&`.
pub open spec fn render(url: Seq<char>, combo: Seq<(bool, Seq<char>, Seq<char>)>) -> Seq<char> {
    substitute(url, combo) + seq!['?'] + join(fragments(combo))
}

/// What call number `j` of an enumeration over `digits` returns.
pub open spec fn url_output(
    url: Seq<char>,
    digits: Seq<Seq<(bool, Seq<char>, Seq<char>)>>,
    j: nat,
) -> Option<Seq<char>> {
    match counter_output(digits, j) {
        Some(combo) => Some(render(url, combo)),
        None => None,
    }
}

/// The text of an optional string.
pub open spec fn opt_text(r: Option<String>) -> Option<Seq<char>> {
    match r {
        Some(s) => Some(s@),
        None => None,
    }
}

/// The positions `0..n`.
pub open spec fn positions(n: nat) -> Seq<usize> {
    Seq::new(n, |k: int| k as usize)
}

/// Why a query cannot be enumerated.
pub enum QueryError {
    /// It has neither path nor query parameters.
    NoParameters,
    /// A parameter other than the last one produces no values.
    EmptyValues,
    /// The combinations of all parameters but the last do not fit in `usize`.
    TooManyCombinations,
}

/// A URL template with its query parameters, in order, and its path
/// parameters, each a name and the specification of its values.
pub struct Query {
    url: String,
    query: Vec<QueryParameter>,
    param: Vec<(String, Value)>,
}

/// The tagged values of a path parameter.
pub open spec fn path_digit(p: (String, Value)) -> Seq<(bool, Seq<char>, Seq<char>)> {
    p.1.texts().map_values(|t: Seq<char>| (true, p.0@, t))
}

/// The tagged values of a query parameter.
pub open spec fn query_digit(q: QueryParameter) -> Seq<(bool, Seq<char>, Seq<char>)> {
    q.spec_value().texts().map_values(|t: Seq<char>| (false, q.key_text(), t))
}

impl Query {
    pub closed spec fn url_text(&self) -> Seq<char> {
        self.url@
    }

    pub closed spec fn query_params(&self) -> Seq<QueryParameter> {
        self.query@
    }

    pub closed spec fn path_params(&self) -> Seq<(String, Value)> {
        self.param@
    }

    /// Every value specification is well formed.
    pub open spec fn wf(&self) -> bool {
        &&& forall|i: int|
            0 <= i < self.path_params().len() ==> (#[trigger] self.path_params()[i]).1.wf()
        &&& forall|i: int|
            0 <= i < self.query_params().len() ==> (
            #[trigger] self.query_params()[i]).spec_value().wf()
    }

    /// The digits to enumerate: every path parameter, then every query
    /// parameter.
    pub open spec fn digits(&self) -> Seq<Seq<(bool, Seq<char>, Seq<char>)>> {
        self.path_params().map_values(|p: (String, Value)| path_digit(p))
            + self.query_params().map_values(|q: QueryParameter| query_digit(q))
    }

    pub fn new(url: &str, query: Vec<QueryParameter>, param: Vec<(String, Value)>) -> (r: Self)
        ensures
            r.url_text() == url@,
            r.query_params() == query@,
            r.path_params() == param@,
    {
        Query { url: copy_text(url), query, param }
    }

    /// The enumeration of all URLs of the query, or why there is none.
    pub fn into_iter(self) -> (r: Result<Iter, QueryError>)
        requires
            self.wf(),
        ensures
            r is Ok <==> valid_digits(self.digits()) && stride(
                self.digits(),
                self.digits().len() - 1,
            ) <= usize::MAX,
            r matches Ok(it) ==> {
                &&& it.wf()
                &&& it.url_text() == self.url_text()
                &&& it.digits() == self.digits()
                &&& it.calls() == 0
            },
            r matches Err(QueryError::NoParameters) <==> self.digits().len() == 0,
            r matches Err(QueryError::EmptyValues) <==> {
                &&& self.digits().len() > 0
                &&& exists|i: int|
                    0 <= i < self.digits().len() - 1 && #[trigger] self.digits()[i].len() == 0
            },
            r matches Err(QueryError::TooManyCombinations) <==> {
                &&& valid_digits(self.digits())
                &&& stride(self.digits(), self.digits().len() - 1) > usize::MAX
            },
    {
        let ghost d = self.digits();
        let mut tags: Vec<Vec<Type>> = Vec::new();
        let mut i: usize = 0;
        while i < self.param.len()
            invariant
                self.wf(),
                d == self.digits(),
                0 <= i <= self.param@.len(),
                tags@.len() == i,
                forall|a: int|
                    0 <= a < i ==> (#[trigger] tags@[a])@.map_values(|t: Type| tag(t)) == d[a],
            decreases self.param@.len() - i,
        {
            let values = self.param[i].1.values();
            let digit = tagged_path(&self.param[i].0, &values);
            proof {
                assert(d[i as int] == path_digit(self.param@[i as int]));
            }
            tags.push(digit);
            i = i + 1;
        }
        let mut j: usize = 0;
        while j < self.query.len()
            invariant
                self.wf(),
                d == self.digits(),
                0 <= j <= self.query@.len(),
                tags@.len() == self.param@.len() + j,
                forall|a: int|
                    0 <= a < tags@.len() ==> (#[trigger] tags@[a])@.map_values(|t: Type| tag(t))
                        == d[a],
            decreases self.query@.len() - j,
        {
            let values = self.query[j].value().values();
            let digit = tagged_query(&self.query[j], &values);
            proof {
                assert(d[self.param@.len() + j] == query_digit(self.query@[j as int]));
            }
            tags.push(digit);
            j = j + 1;
        }
        let ghost lens = tags@.map_values(|v: Vec<Type>| v@);
        proof {
            assert(d.len() == tags@.len());
            assert forall|a: int| 0 <= a < d.len() implies #[trigger] lens[a].len() == d[a].len() by {
                assert(tags@[a]@.map_values(|t: Type| tag(t)) == d[a]);
            }
        }
        let n = tags.len();
        if n == 0 {
            return Err(QueryError::NoParameters);
        }
        let mut k: usize = 0;
        while k < n - 1
            invariant
                d == self.digits(),
                n == tags@.len(),
                n == d.len(),
                n > 0,
                lens == tags@.map_values(|v: Vec<Type>| v@),
                forall|a: int| 0 <= a < d.len() ==> #[trigger] lens[a].len() == d[a].len(),
                0 <= k <= n - 1,
                forall|a: int| 0 <= a < k ==> #[trigger] d[a].len() > 0,
            decreases n - 1 - k,
        {
            if tags[k].len() == 0 {
                proof {
                    assert(lens[k as int].len() == 0);
                    assert(d[k as int].len() == 0);
                }
                return Err(QueryError::EmptyValues);
            }
            proof {
                assert(lens[k as int].len() == tags@[k as int]@.len());
            }
            k = k + 1;
        }
        assert(valid_digits(d));
        let mut product: usize = 1;
        let mut m: usize = 0;
        while m < n - 1
            invariant
                d == self.digits(),
                n == tags@.len(),
                n == d.len(),
                valid_digits(d),
                lens == tags@.map_values(|v: Vec<Type>| v@),
                forall|a: int| 0 <= a < d.len() ==> #[trigger] lens[a].len() == d[a].len(),
                0 <= m <= n - 1,
                product == stride(d, m as int),
            decreases n - 1 - m,
        {
            proof {
                assert(lens[m as int].len() == tags@[m as int]@.len());
            }
            match product.checked_mul(tags[m].len()) {
                Some(p) => {
                    product = p;
                },
                None => {
                    proof {
                        assert(stride(d, m + 1) == stride(d, m as int) * d[m as int].len());
                        lemma_stride_grows(d, m + 1, n - 1);
                    }
                    return Err(QueryError::TooManyCombinations);
                },
            }
            m = m + 1;
        }
        let mut index_digits: Vec<Vec<usize>> = Vec::new();
        let mut a: usize = 0;
        while a < n
            invariant
                n == tags@.len(),
                lens == tags@.map_values(|v: Vec<Type>| v@),
                0 <= a <= n,
                index_digits@.len() == a,
                forall|b: int| 0 <= b < a ==> (#[trigger] index_digits@[b])@ == positions(
                    lens[b].len(),
                ),
            decreases n - a,
        {
            proof {
                assert(lens[a as int].len() == tags@[a as int]@.len());
            }
            index_digits.push(position_list(tags[a].len()));
            a = a + 1;
        }
        let ghost idx = index_digits@.map_values(|v: Vec<usize>| v@);
        proof {
            assert forall|b: int| 0 <= b < idx.len() implies #[trigger] idx[b].len() == d[b].len() by {
                assert(idx[b] == index_digits@[b]@);
            }
            lemma_stride_by_lengths(idx, d, n - 1);
            assert forall|b: int| 0 <= b < idx.len() - 1 implies #[trigger] idx[b].len() > 0 by {
                assert(idx[b].len() == d[b].len());
            }
            assert(valid_digits(d));
        }
        let inner = Counter::new(index_digits);
        let it = Iter { url: self.url, tags, inner };
        proof {
            assert(it.digits() =~= d) by {
                assert forall|b: int| 0 <= b < d.len() implies it.digits()[b] == d[b] by {
                    assert(tags@[b]@.map_values(|t: Type| tag(t)) == d[b]);
                }
            }
            assert forall|b: int| 0 <= b < n implies #[trigger] it.inner.digits()[b] == positions(
                tags@[b]@.len(),
            ) by {
                assert(idx[b] == index_digits@[b]@);
                assert(lens[b] == tags@[b]@);
            }
        }
        Ok(it)
    }
}

/// The positions `0..n`, in order.
fn position_list(n: usize) -> (r: Vec<usize>)
    ensures
        r@ == positions(n as nat),
{
    let mut out: Vec<usize> = Vec::new();
    let mut k: usize = 0;
    while k < n
        invariant
            0 <= k <= n,
            out@ =~= positions(k as nat),
        decreases n - k,
    {
        out.push(k);
        k = k + 1;
    }
    out
}

/// The values of a path parameter, each tagged with its name.
fn tagged_path(name: &String, values: &Vec<String>) -> (r: Vec<Type>)
    ensures
        r@.map_values(|t: Type| tag(t)) == texts_of(values@).map_values(
            |t: Seq<char>| (true, name@, t),
        ),
{
    let mut out: Vec<Type> = Vec::new();
    let mut k: usize = 0;
    while k < values.len()
        invariant
            0 <= k <= values@.len(),
            out@.len() == k,
            forall|a: int| 0 <= a < k ==> tag(#[trigger] out@[a]) == (true, name@, values@[a]@),
        decreases values@.len() - k,
    {
        out.push(Type::Param(name.clone(), values[k].clone()));
        k = k + 1;
    }
    proof {
        assert(out@.map_values(|t: Type| tag(t)) =~= texts_of(values@).map_values(
            |t: Seq<char>| (true, name@, t),
        ));
    }
    out
}

/// The values of a query parameter, each tagged with its key.
fn tagged_query(q: &QueryParameter, values: &Vec<String>) -> (r: Vec<Type>)
    ensures
        r@.map_values(|t: Type| tag(t)) == texts_of(values@).map_values(
            |t: Seq<char>| (false, q.key_text(), t),
        ),
{
    let mut out: Vec<Type> = Vec::new();
    let mut k: usize = 0;
    while k < values.len()
        invariant
            0 <= k <= values@.len(),
            out@.len() == k,
            forall|a: int|
                0 <= a < k ==> tag(#[trigger] out@[a]) == (false, q.key_text(), values@[a]@),
        decreases values@.len() - k,
    {
        out.push(Type::Query(copy_text(q.key()), values[k].clone()));
        k = k + 1;
    }
    proof {
        assert(out@.map_values(|t: Type| tag(t)) =~= texts_of(values@).map_values(
            |t: Seq<char>| (false, q.key_text(), t),
        ));
    }
    out
}

/// The enumeration of a query's URLs, one per combination of its
/// parameters' values.
pub struct Iter {
    url: String,
    tags: Vec<Vec<Type>>,
    inner: Counter<usize>,
}

impl Iter {
    pub closed spec fn url_text(&self) -> Seq<char> {
        self.url@
    }

    /// The tagged values of each parameter, in enumeration order.
    pub closed spec fn digits(&self) -> Seq<Seq<(bool, Seq<char>, Seq<char>)>> {
        Seq::new(self.tags@.len(), |i: int| self.tags@[i]@.map_values(|t: Type| tag(t)))
    }

    /// How many times `next` has been called.
    pub closed spec fn calls(&self) -> nat {
        self.inner.calls()
    }

    pub closed spec fn wf(&self) -> bool {
        &&& self.inner.wf()
        &&& valid_digits(self.inner.digits())
        &&& self.inner.digits().len() == self.tags@.len()
        &&& forall|i: int|
            0 <= i < self.tags@.len() ==> #[trigger] self.inner.digits()[i] == positions(
                self.tags@[i]@.len(),
            )
    }

    pub fn next(&mut self) -> (r: Option<String>)
        requires
            old(self).wf(),
        ensures
            final(self).wf(),
            final(self).url_text() == old(self).url_text(),
            final(self).digits() == old(self).digits(),
            final(self).calls() == old(self).calls() + 1,
            opt_text(r) == url_output(old(self).url_text(), old(self).digits(), old(self).calls()),
    {
        let ghost d = self.digits();
        let ghost c = self.calls();
        let ghost idx = self.inner.digits();
        proof {
            assert forall|b: int| 0 <= b < idx.len() implies #[trigger] idx[b].len()
                == d[b].len() by {}
            lemma_stride_by_lengths(idx, d, idx.len() as int);
            assert forall|b: int| 0 <= b < d.len() - 1 implies #[trigger] d[b].len() > 0 by {
                assert(idx[b].len() == d[b].len());
            }
            assert(valid_digits(d));
        }
        let combo = self.inner.next();
        match combo {
            None => None,
            Some(picked) => {
                let ghost full = combination(d, c);
                proof {
                    assert(picked@ == combination(idx, c));
                    assert(c < total(d));
                    assert forall|b: int| 0 <= b < d.len() implies #[trigger] picked@[b]
                        == digit_index(d, b, c) by {
                        lemma_stride_by_lengths(idx, d, b);
                        lemma_counter_digit_bound(idx, b, c);
                        assert(picked@[b] == combination(idx, c)[b]);
                        assert(idx[b] == positions(self.tags@[b]@.len()));
                        assert(digit_index(idx, b, c) == digit_index(d, b, c));
                        assert(self.tags@[b]@.len() <= usize::MAX) by {
                            broadcast use vstd::std_specs::vec::axiom_spec_len;
                            assert(self.tags@[b].len() == self.tags@[b]@.len());
                        }
                    }
                }
                let mut url = copy_text(self.url.as_str());
                let mut query = String::new();
                let ghost mut parts: Seq<Seq<char>> = Seq::empty();
                let mut any = false;
                let mut i: usize = 0;
                while i < picked.len()
                    invariant
                        self.wf(),
                        d == self.digits(),
                        c < total(d),
                        valid_digits(d),
                        picked@.len() == d.len(),
                        full == combination(d, c),
                        forall|b: int| 0 <= b < d.len() ==> #[trigger] picked@[b] == digit_index(d, b, c),
                        0 <= i <= picked@.len(),
                        url@ == substitute(self.url@, full.subrange(0, i as int)),
                        parts == fragments(full.subrange(0, i as int)),
                        query@ == join(parts),
                        any == (parts.len() > 0),
                    decreases picked@.len() - i,
                {
                    let ghost prev = full.subrange(0, i as int);
                    proof {
                        assert(full.subrange(0, i + 1).drop_last() =~= prev);
                        assert(full.subrange(0, i + 1).last() == full[i as int]);
                        assert(self.tags@[i as int]@.len() == d[i as int].len());
                        assert(picked@[i as int] < self.tags@[i as int]@.len()) by {
                            lemma_counter_digit_bound(d, i as int, c);
                        }
                    }
                    let t = &self.tags[i][picked[i]];
                    proof {
                        assert(tag(*t) == full[i as int]);
                    }
                    match t {
                        Type::Param(k, v) => {
                            let mut pat = String::new();
                            push_char(&mut pat, '{');
                            pat.append(k.as_str());
                            push_char(&mut pat, '}');
                            proof {
                                assert(pat@ =~= placeholder_of(k@));
                            }
                            url = replace_text(url.as_str(), pat.as_str(), v.as_str());
                        },
                        Type::Query(k, v) => {
                            let ghost before = query@;
                            if any {
                                push_char(&mut query, '&');
                            }
                            any = true;
                            query.append(k.as_str());
                            push_char(&mut query, '=');
                            query.append(v.as_str());
                            proof {
                                let f = k@ + seq!['='] + v@;
                                assert(parts.push(f).drop_last() =~= parts);
                                if parts.len() > 0 {
                                    assert(query@ =~= before + seq!['&'] + f);
                                } else {
                                    assert(query@ =~= f);
                                }
                                parts = parts.push(f);
                            }
                        },
                    }
                    i = i + 1;
                }
                proof {
                    assert(full.subrange(0, full.len() as int) =~= full);
                }
                push_char(&mut url, '?');
                url.append(query.as_str());
                Some(url)
            },
        }
    }
}

/// Every digit but the last wraps within its length; the last one stays
/// within it while combinations remain.
proof fn lemma_counter_digit_bound<T>(d: Seq<Seq<T>>, i: int, c: nat)
    requires
        valid_digits(d),
        0 <= i < d.len(),
        c < total(d),
    ensures
        digit_index(d, i, c) < d[i].len(),
{
    crate::counter::lemma_stride_positive(d, i);
    if i == d.len() - 1 {
        crate::counter::lemma_last_digit(c, stride(d, i), d[i].len());
    }
}

/// Enumerating two queries with the same template and the same parameter
/// specifications gives the same URLs in the same order: what call number
/// `j` returns depends on nothing else.
pub proof fn lemma_same_specs_same_urls(a: Query, b: Query, j: nat)
    requires
        a.url_text() == b.url_text(),
        a.path_params() == b.path_params(),
        a.query_params() == b.query_params(),
    ensures
        a.digits() == b.digits(),
        url_output(a.url_text(), a.digits(), j) == url_output(b.url_text(), b.digits(), j),
{
}

} // verus!

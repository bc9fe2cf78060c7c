use query_space::parameter::boolean::{BoolFormatter, BoolValueFactory};
use query_space::parameter::integer::IntValueFactory;
use query_space::parameter::string::StringValueFactory;
use query_space::parameter::{QueryParameter, Value};
use query_space::query::{Iter, Query, QueryError};

fn ab() -> Value {
    Value::string(StringValueFactory::choice(&vec![
        String::from("a"),
        String::from("b"),
    ]))
}

fn sample() -> Query {
    Query::new(
        "http://example.com/{id}",
        vec![
            QueryParameter::new("filter[foo][]", ab()),
            QueryParameter::new("filter[bar][]", ab()),
        ],
        vec![(
            String::from("id"),
            Value::integer(IntValueFactory::between(1, 2, 1)),
        )],
    )
}

fn collect(mut it: Iter) -> Vec<String> {
    let mut out = vec![];
    while let Some(u) = it.next() {
        out.push(u);
    }
    out
}

#[test]
fn into_iter() {
    let q = sample();
    let mut urls = q.into_iter().ok().unwrap();
    assert_eq!(
        urls.next(),
        Some(String::from(
            "http://example.com/1?filter[foo][]=a&filter[bar][]=a"
        ))
    );
    assert_eq!(
        urls.next(),
        Some(String::from(
            "http://example.com/2?filter[foo][]=a&filter[bar][]=a"
        ))
    );
    assert_eq!(
        urls.next(),
        Some(String::from(
            "http://example.com/1?filter[foo][]=b&filter[bar][]=a"
        ))
    );
    assert_eq!(
        urls.next(),
        Some(String::from(
            "http://example.com/2?filter[foo][]=b&filter[bar][]=a"
        ))
    );
    assert_eq!(
        urls.next(),
        Some(String::from(
            "http://example.com/1?filter[foo][]=a&filter[bar][]=b"
        ))
    );
    assert_eq!(
        urls.next(),
        Some(String::from(
            "http://example.com/2?filter[foo][]=a&filter[bar][]=b"
        ))
    );
    assert_eq!(
        urls.next(),
        Some(String::from(
            "http://example.com/1?filter[foo][]=b&filter[bar][]=b"
        ))
    );
    assert_eq!(
        urls.next(),
        Some(String::from(
            "http://example.com/2?filter[foo][]=b&filter[bar][]=b"
        ))
    );
    assert_eq!(urls.next(), None);
}

#[test]
fn enumeration_repeats_exactly() {
    let first = collect(sample().into_iter().ok().unwrap());
    let second = collect(sample().into_iter().ok().unwrap());
    assert_eq!(first.len(), 8);
    assert_eq!(first, second);
}

#[test]
fn path_only_gives_bare_question_mark() {
    let q = Query::new(
        "/a/{x}/{x}",
        vec![],
        vec![(
            String::from("x"),
            Value::bool_with_format(BoolValueFactory::choice(), BoolFormatter::ZeroOne),
        )],
    );
    assert_eq!(collect(q.into_iter().ok().unwrap()), vec!["/a/1/1?", "/a/0/0?"]);
}

#[test]
fn query_errors() {
    let none = Query::new("/", vec![], vec![]);
    assert!(matches!(none.into_iter(), Err(QueryError::NoParameters)));
    let empty_first = Query::new(
        "/",
        vec![
            QueryParameter::new("a", Value::integer(IntValueFactory::choice(vec![]))),
            QueryParameter::new("b", Value::integer(IntValueFactory::scala(1))),
        ],
        vec![],
    );
    assert!(matches!(empty_first.into_iter(), Err(QueryError::EmptyValues)));
    let empty_last = Query::new(
        "/",
        vec![
            QueryParameter::new("b", Value::integer(IntValueFactory::scala(1))),
            QueryParameter::new("a", Value::integer(IntValueFactory::choice(vec![]))),
        ],
        vec![],
    );
    let mut it = empty_last.into_iter().ok().unwrap();
    assert_eq!(it.next(), None);
}

#[test]
fn too_many_combinations() {
    let mut params = vec![];
    for i in 0..70 {
        params.push(QueryParameter::new(
            &format!("k{}", i),
            Value::bool(BoolValueFactory::choice()),
        ));
    }
    let q = Query::new("/", params, vec![]);
    assert!(matches!(q.into_iter(), Err(QueryError::TooManyCombinations)));
}

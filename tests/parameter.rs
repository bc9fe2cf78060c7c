use query_space::parameter::boolean::{zero_one, BoolFormatter, BoolValueFactory};
use query_space::parameter::date::{Date, DateFormatter, DateValueFactory};
use query_space::parameter::integer::{range_values, IntValueFactory};
use query_space::parameter::string::StringValueFactory;
use query_space::parameter::{Powerset, QueryParameter, Value};
use query_space::text::{int_text, replace_text};

#[test]
fn powerset() {
    let mut powerset = Powerset::new(vec![1, 2, 3]).subsets().into_iter();
    assert_eq!(powerset.next(), Some(vec![]));
    assert_eq!(powerset.next(), Some(vec![1]));
    assert_eq!(powerset.next(), Some(vec![2]));
    assert_eq!(powerset.next(), Some(vec![3]));
    assert_eq!(powerset.next(), Some(vec![1, 2]));
    assert_eq!(powerset.next(), Some(vec![1, 3]));
    assert_eq!(powerset.next(), Some(vec![2, 3]));
    assert_eq!(powerset.next(), Some(vec![1, 2, 3]));
}

#[test]
fn powerset_of_nothing() {
    let subsets = Powerset::<i32>::new(vec![]).subsets();
    assert_eq!(subsets, vec![Vec::<i32>::new()]);
}

#[test]
fn parameter() {
    let p = QueryParameter::new(
        "key",
        Value::string(StringValueFactory::choice(&vec![
            String::from("a"),
            String::from("b"),
            String::from("c"),
        ])),
    );
    let mut iter = p.pairs().into_iter();
    assert_eq!(iter.next(), Some((String::from("key"), String::from("a"))));
    assert_eq!(iter.next(), Some((String::from("key"), String::from("b"))));
    assert_eq!(iter.next(), Some((String::from("key"), String::from("c"))));
    assert_eq!(iter.next(), None);
}

#[test]
fn int_between_inclusive() {
    assert_eq!(range_values(1, 2, 1), vec![1, 2]);
    assert_eq!(range_values(1, 4, 2), vec![1, 3]);
    assert_eq!(range_values(1, 5, 2), vec![1, 3, 5]);
    assert_eq!(range_values(3, 1, 1), Vec::<i32>::new());
    assert_eq!(range_values(i32::MAX - 1, i32::MAX, 1), vec![i32::MAX - 1, i32::MAX]);
    let v = Value::integer(IntValueFactory::between(1, 2, 1));
    assert_eq!(v.values(), vec![String::from("1"), String::from("2")]);
}

#[test]
fn int_texts() {
    assert_eq!(int_text(0), "0");
    assert_eq!(int_text(-45), "-45");
    assert_eq!(int_text(1230), "1230");
    assert_eq!(int_text(i32::MIN), "-2147483648");
    let v = Value::integer(IntValueFactory::choice(vec![7, -3]));
    assert_eq!(v.values(), vec![String::from("7"), String::from("-3")]);
    let s = Value::integer(IntValueFactory::scala(12));
    assert_eq!(s.values(), vec![String::from("12")]);
}

#[test]
fn int_powerset_flattened() {
    let v = Value::integer(IntValueFactory::powerset(vec![1, 2]));
    assert_eq!(v.values(), vec!["1", "2", "1", "2"]);
}

#[test]
fn string_values() {
    let s = Value::string(StringValueFactory::scala("x y"));
    assert_eq!(s.values(), vec![String::from("x y")]);
    let p = Value::string(StringValueFactory::powerset(&vec![
        String::from("a"),
        String::from("b"),
    ]));
    assert_eq!(p.values(), vec!["a", "b", "a", "b"]);
}

#[test]
fn bool_choice_is_both() {
    let v = Value::bool(BoolValueFactory::choice());
    assert_eq!(v.values(), vec!["true", "false"]);
    assert_eq!(BoolValueFactory::choice().bools(), vec![true, false]);
    let z = Value::bool_with_format(BoolValueFactory::choice(), BoolFormatter::ZeroOne);
    assert_eq!(z.values(), vec!["1", "0"]);
    let f = Value::bool(BoolValueFactory::scala(false));
    assert_eq!(f.values(), vec!["false"]);
    assert_eq!(BoolFormatter::ZeroOne.format(true), "1");
    assert_eq!(zero_one(false), "0");
}

#[test]
fn date_values() {
    let from = Date::from_ymd(2020, 2, 27).unwrap();
    let to = Date::from_ymd(2020, 3, 2).unwrap();
    let v = Value::date(DateValueFactory::between(from, to, 2));
    assert_eq!(v.values(), vec!["2020-02-27", "2020-02-29", "2020-03-02"]);
    let c = Value::date_with_format(
        DateValueFactory::choice(vec![to]),
        DateFormatter::new("%Y"),
    );
    assert_eq!(c.values(), vec!["2020-03-02"]);
    assert!(Date::from_ymd(2023, 4, 31).is_none());
    assert_eq!(Date::from_ymd(1, 1, 1).unwrap().day_number(), 1);
    assert_eq!(Date::from_ymd(1970, 1, 1).unwrap().text(), "1970-01-01");
}

#[test]
fn date_range_ends() {
    let first = Date::from_ymd(-262143, 1, 1).unwrap();
    let last = Date::from_ymd(262142, 12, 31).unwrap();
    assert_eq!(Some(first.day_number()), Date::from_day(first.day_number()).map(|d| d.day_number()));
    assert!(Date::from_day(first.day_number() - 1).is_none());
    assert!(Date::from_day(last.day_number() + 1).is_none());
    assert!(Date::from_ymd(262143, 1, 1).is_none());
    assert!(!first.text().is_empty());
    assert!(!last.text().is_empty());
}

#[test]
fn replace_every_occurrence() {
    assert_eq!(replace_text("/{id}/{id}", "{id}", "7"), "/7/7");
    assert_eq!(replace_text("/{i}", "{id}", "7"), "/{i}");
    assert_eq!(replace_text("aaa", "aa", "b"), "ba");
}

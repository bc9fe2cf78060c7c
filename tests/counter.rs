use query_space::counter::{Counter, Cycler};

#[test]
fn counter() {
    let mut counter = Counter::new(vec![vec![0, 1, 2], vec![0, 1], vec![0]]);
    assert_eq!(counter.next(), Some(vec![0, 0, 0]));
    assert_eq!(counter.next(), Some(vec![1, 0, 0]));
    assert_eq!(counter.next(), Some(vec![2, 0, 0]));
    assert_eq!(counter.next(), Some(vec![0, 1, 0]));
    assert_eq!(counter.next(), Some(vec![1, 1, 0]));
    assert_eq!(counter.next(), Some(vec![2, 1, 0]));
    assert_eq!(counter.next(), None);
}

#[test]
fn counter_stays_exhausted() {
    let mut counter = Counter::new(vec![vec![1, 2], vec![7, 8, 9]]);
    let mut seen = vec![];
    while let Some(v) = counter.next() {
        seen.push(v);
    }
    assert_eq!(seen.len(), 6);
    assert_eq!(seen[5], vec![2, 9]);
    for _ in 0..10 {
        assert_eq!(counter.next(), None);
    }
}

#[test]
fn counter_digit_rates() {
    let mut counter = Counter::new(vec![vec![0, 1], vec![0, 1, 2], vec![5, 6]]);
    let mut all = vec![];
    while let Some(v) = counter.next() {
        all.push(v);
    }
    assert_eq!(all.len(), 12);
    for (i, v) in all.iter().enumerate() {
        assert_eq!(v[0], (i % 2) as i32);
        assert_eq!(v[1], ((i / 2) % 3) as i32);
        assert_eq!(v[2], 5 + (i / 6) as i32);
    }
}

#[test]
fn counter_single_digit() {
    let mut counter = Counter::new(vec![vec![4, 5]]);
    assert_eq!(counter.next(), Some(vec![4]));
    assert_eq!(counter.next(), Some(vec![5]));
    assert_eq!(counter.next(), None);
}

#[test]
fn counter_empty_last_digit() {
    let mut counter: Counter<i32> = Counter::new(vec![vec![1, 2], vec![]]);
    assert_eq!(counter.next(), None);
    assert_eq!(counter.next(), None);
}

#[test]
fn cycler_repeats_and_cycles() {
    let mut c = Cycler::new(vec![1, 2], 2).cycle();
    let got: Vec<Option<i32>> = (0..6).map(|_| c.next()).collect();
    assert_eq!(got, vec![Some(1), Some(1), Some(2), Some(2), Some(1), Some(1)]);
    let mut once = Cycler::new(vec![3], 1);
    assert_eq!(once.next(), Some(3));
    assert_eq!(once.next(), None);
    assert_eq!(once.next(), None);
}

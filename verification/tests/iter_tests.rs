use lazygen::gentrait::GenTrait;
use lazygen::iter::alternate;
use lazygen::iter::alternate_by;
use lazygen::iter::filter_while;
use lazygen::iter::flatten;
use lazygen::iter::islice;
use lazygen::iter::once;
use lazygen::iter::prepend;
use lazygen::iter::repeat;
use lazygen::iter::repeatn;
use lazygen::iter::VecGen;

#[test]
fn alternating() {
    let mut alternate = alternate((0..10).collect());

    assert_eq!(alternate.next(), Some(0));
    assert_eq!(alternate.next(), Some(9));
    assert_eq!(alternate.next(), Some(1));
    assert_eq!(alternate.next(), Some(8));
    assert_eq!(alternate.next(), Some(2));
    assert_eq!(alternate.next(), Some(7));
    assert_eq!(alternate.next(), Some(3));
    assert_eq!(alternate.next(), Some(6));
    assert_eq!(alternate.next(), Some(4));
    assert_eq!(alternate.next(), Some(5));
    assert_eq!(alternate.next(), None);
}

#[test]
fn slicing() {
    let mut iter = islice(VecGen::new((0..10).collect()), Some(3), None, None);

    assert_eq!(iter.next(), Some(3));

    // the characters, starting after 1 element, taking 3 elements of a
    // sequence that steps by 2
    let mut chariter = islice(
        VecGen::new("ABCDEFGHI".chars().collect()),
        Some(1),
        Some(3),
        Some(2),
    );

    assert_eq!(chariter.next(), Some('B'));
    assert_eq!(chariter.next(), Some('D'));
    assert_eq!(chariter.next(), Some('F'));
    assert_eq!(chariter.next(), None);

    let r = VecGen::new((1..=10).collect());
    let mut sliced = islice(r, None, Some(3), Some(2));
    let mut list = Vec::new();
    for _ in 0..3 {
        list.push(sliced.next().unwrap());
    }

    assert_eq!(list, [1, 3, 5]);

    // the slice consumed no more of the source than it had to
    let mut r = sliced.take().unwrap().into_source();
    assert_eq!(r.next(), Some(6));
}

#[test]
fn once_yields_exactly_one() {
    let mut it = once(42i32);
    assert_eq!(it.next(), Some(42));
    assert_eq!(it.next(), None);
    assert_eq!(it.next(), None);
}

#[test]
fn repeat_goes_on() {
    let mut it = repeat('x');
    for _ in 0..100 {
        assert_eq!(it.next(), Some('x'));
    }
}

#[test]
fn repeatn_counts() {
    let mut it = repeatn(7u32, 3);
    assert_eq!(it.next(), Some(7));
    assert_eq!(it.next(), Some(7));
    assert_eq!(it.next(), Some(7));
    assert_eq!(it.next(), None);
    assert_eq!(it.next(), None);
}

#[test]
fn repeatn_zero_is_empty() {
    let mut it = repeatn(7u32, 0);
    assert_eq!(it.next(), None);
}

#[test]
fn alternate_empty_is_empty() {
    let mut it = alternate(Vec::<i32>::new());
    assert_eq!(it.next(), None);
}

#[test]
fn alternate_by_blocks() {
    let v: Vec<i32> = (0..6).collect();
    let mut it = alternate_by(v, 2);
    // two from the front, two from the back, two from the front
    for expect in [0, 1, 5, 4, 2, 3] {
        assert_eq!(it.next(), Some(expect));
    }
    assert_eq!(it.next(), None);
}

#[test]
fn alternate_by_one_matches_alternate() {
    let mut by_one = alternate_by(vec![0i32, 1, 2], 1);
    let mut plain = alternate(vec![0i32, 1, 2]);
    for _ in 0..4 {
        assert_eq!(by_one.next(), plain.next());
    }
}

#[test]
fn flatten_in_order() {
    let mut it = flatten(vec![vec![1i32, 2], vec![3], vec![], vec![4, 5]]);
    for expect in [1, 2, 3, 4, 5] {
        assert_eq!(it.next(), Some(expect));
    }
    assert_eq!(it.next(), None);
}

#[test]
fn flatten_of_empties_is_empty() {
    let mut it = flatten(vec![Vec::<i32>::new(), Vec::new()]);
    assert_eq!(it.next(), None);
}

#[test]
fn filter_while_stops_checking() {
    // 5 fails the predicate and is dropped; 6 and 1 then come through with no test applied
    let mut it = filter_while(|x| x % 2 == 0, VecGen::new(vec![2i32, 4, 5, 6, 1]));
    for expect in [2, 4, 6, 1] {
        assert_eq!(it.next(), Some(expect));
    }
    assert_eq!(it.next(), None);
}

#[test]
fn filter_while_all_accepted() {
    let mut it = filter_while(|x| *x > 0, VecGen::new(vec![1i32, 2]));
    assert_eq!(it.next(), Some(1));
    assert_eq!(it.next(), Some(2));
    assert_eq!(it.next(), None);
}

#[test]
fn prepend_puts_value_first() {
    let mut it = prepend(0i32, VecGen::new(vec![1, 2]));
    assert_eq!(it.next(), Some(0));
    assert_eq!(it.next(), Some(1));
    assert_eq!(it.next(), Some(2));
    assert_eq!(it.next(), None);
}

#[test]
fn islice_start_past_the_end() {
    let mut it = islice(VecGen::new(vec![1i32, 2]), Some(5), None, None);
    assert_eq!(it.next(), None);
}

#[test]
fn islice_step_one_is_every_value() {
    let mut it = islice(VecGen::new(vec![1i32, 2, 3]), None, None, Some(1));
    assert_eq!(it.next(), Some(1));
    assert_eq!(it.next(), Some(2));
    assert_eq!(it.next(), Some(3));
    assert_eq!(it.next(), None);
}

#[test]
fn islice_all_absent_is_identity() {
    let mut it = islice(VecGen::new(vec![4i32, 5]), None, None, None);
    assert_eq!(it.next(), Some(4));
    assert_eq!(it.next(), Some(5));
    assert_eq!(it.next(), None);
}

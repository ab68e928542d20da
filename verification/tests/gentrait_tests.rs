use lazygen::aspin::AsPin;
use lazygen::gentrait::GenState;
use lazygen::gentrait::GenTrait;
use lazygen::gentrait::Iter;
use lazygen::geniter::GenIter;
use lazygen::iter::VecGen;

#[test]
fn generator_map() {
    let quick_iter = VecGen::new(vec![10u32, 20, 30])
        .map(|item| item * 10)
        .filter(|item| item > &199);

    let mut iter = quick_iter.iter();

    assert_eq!(iter.next(), Some(200));
    assert_eq!(iter.next(), Some(300));
    assert_eq!(iter.next(), None);
}

#[test]
fn transform_applies_in_order() {
    let mut it = GenIter::new(VecGen::new(vec![1i32, 2, 3]).map(|x| x * 2));
    assert_eq!(it.next(), Some(2));
    assert_eq!(it.next(), Some(4));
    assert_eq!(it.next(), Some(6));
    assert_eq!(it.next(), None);
}

#[test]
fn filter_keeps_relative_order() {
    let mut it = GenIter::new(VecGen::new(vec![10i32, 20, 30]).filter(|x| *x > 15));
    assert_eq!(it.next(), Some(20));
    assert_eq!(it.next(), Some(30));
    assert_eq!(it.next(), None);
}

#[test]
fn filter_skips_long_runs() {
    let v: Vec<i32> = (0..100).collect();
    let mut it = GenIter::new(VecGen::new(v).filter(|x| x % 50 == 49));
    assert_eq!(it.next(), Some(49));
    assert_eq!(it.next(), Some(99));
    assert_eq!(it.next(), None);
}

#[test]
fn resume_reports_completion() {
    let mut g = VecGen::new(vec![1i32]);
    assert!(matches!(g.resume(), GenState::Yielded(1)));
    assert!(matches!(g.resume(), GenState::Complete(())));
}

#[test]
fn pinned_iter_exhausts() {
    let mut it = Iter::new(VecGen::new(vec![9i32]));
    assert_eq!(it.next(), Some(9));
    assert_eq!(it.next(), None);
    assert_eq!(it.next(), None);
}

#[test]
fn pin_handle_round_trip() {
    let mut h = 5u32.as_pin();
    *h.borrow_mut() += 1;
    assert_eq!(h.into_inner(), 6);
}

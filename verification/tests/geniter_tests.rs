use lazygen::gentrait::GenTrait;
use lazygen::geniter::GenIter;
use lazygen::iter::VecGen;

#[test]
fn finite_sequence_then_none_forever() {
    let mut it = GenIter::new(VecGen::new(vec![1i32, 2, 3]));
    assert_eq!(it.next(), Some(1));
    assert_eq!(it.next(), Some(2));
    assert_eq!(it.next(), Some(3));
    assert_eq!(it.next(), None);
    assert_eq!(it.next(), None);
    assert_eq!(it.next(), None);
}

#[test]
fn wrapper_take_empties() {
    let mut it = GenIter::new(VecGen::new(vec![1i32]));
    let g = it.take();
    assert!(g.is_some());
    assert!(it.take().is_none());
    assert_eq!(it.next(), None);
}

#[test]
fn wrapper_as_mut_reaches_the_computation() {
    let mut it = GenIter::new(VecGen::new(vec![1i32, 2]));
    if let Some(g) = it.as_mut() {
        assert_eq!(g.next(), Some(1));
    } else {
        panic!("a fresh wrapper holds its computation");
    }
    assert_eq!(it.next(), Some(2));
    assert_eq!(it.next(), None);
    assert!(it.as_mut().is_none());
}

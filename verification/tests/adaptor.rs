use std::cell::Cell;
use std::rc::Rc;

use chain_from_last::pull::{PullSequence, VecSequence};
use chain_from_last::ChainFromLastExt;

#[test]
fn one_item() {
    let mut i = VecSequence::new(vec!['a']).chain_from_last(|c| VecSequence::new(vec![c, 'b']));

    assert_eq!(i.next(), Some('a'));
    assert_eq!(i.next(), Some('b'));
    assert_eq!(i.next(), None);
}

#[test]
fn empty() {
    let actual = VecSequence::<i32>::new(vec![])
        .chain_from_last(|_: i32| VecSequence::<i32>::new(Vec::new()))
        .next();

    assert_eq!(actual, None);
}

#[test]
fn vec_sequence_yields_in_order() {
    let mut s = VecSequence::new(vec![7u32, 8, 9]);
    assert_eq!(s.next(), Some(7));
    assert_eq!(s.next(), Some(8));
    assert_eq!(s.next(), Some(9));
    assert_eq!(s.next(), None);
    assert_eq!(s.next(), None);
}

#[test]
fn empty_source_never_invokes_builder() {
    let mut i = VecSequence::<u8>::new(Vec::new())
        .chain_from_last(|_: u8| -> VecSequence<u8> { panic!("builder must not be invoked") });

    assert_eq!(i.next(), None);
    assert_eq!(i.next(), None);
    assert_eq!(i.next(), None);
}

#[test]
fn single_element_output_comes_from_continuation() {
    let mut i = VecSequence::new(vec!['x']).chain_from_last(|_| VecSequence::new(vec!['y', 'z']));

    assert_eq!(i.next(), Some('y'));
    assert_eq!(i.next(), Some('z'));
    assert_eq!(i.next(), None);
}

#[test]
fn multiple_elements_builder_once_with_last() {
    let calls = Rc::new(Cell::new(0u32));
    let seen = Rc::new(Cell::new(' '));
    let calls_in = Rc::clone(&calls);
    let seen_in = Rc::clone(&seen);

    let mut i = VecSequence::new(vec!['a', 'b', 'c']).chain_from_last(move |c| {
        calls_in.set(calls_in.get() + 1);
        seen_in.set(c);
        VecSequence::new(vec![c, 'd'])
    });

    assert_eq!(i.next(), Some('a'));
    assert_eq!(i.next(), Some('b'));
    assert_eq!(i.next(), Some('c'));
    assert_eq!(i.next(), Some('d'));
    assert_eq!(i.next(), None);
    assert_eq!(calls.get(), 1);
    assert_eq!(seen.get(), 'c');
}

#[test]
fn construction_is_lazy() {
    let adaptor = VecSequence::new(vec![1u64, 2, 3])
        .chain_from_last(|_: u64| -> VecSequence<u64> { panic!("builder must not be invoked") });
    drop(adaptor);
}

#[test]
fn partial_drive_leaves_builder_unspent() {
    let mut i = VecSequence::new(vec![1u64, 2, 3])
        .chain_from_last(|_: u64| -> VecSequence<u64> { panic!("builder must not be invoked") });
    assert_eq!(i.next(), Some(1));
    assert_eq!(i.next(), Some(2));
    drop(i);
}

#[test]
fn builder_receives_true_last_of_longer_source() {
    let mut i = VecSequence::new(vec![10u32, 20, 30, 40, 50])
        .chain_from_last(|x| VecSequence::new(vec![x]));

    assert_eq!(i.next(), Some(10));
    assert_eq!(i.next(), Some(20));
    assert_eq!(i.next(), Some(30));
    assert_eq!(i.next(), Some(40));
    assert_eq!(i.next(), Some(50));
    assert_eq!(i.next(), None);
}

#[test]
fn exhausted_adaptor_stays_exhausted() {
    let mut i = VecSequence::new(vec![5u8]).chain_from_last(|x| VecSequence::new(vec![x, 6]));

    assert_eq!(i.next(), Some(5));
    assert_eq!(i.next(), Some(6));
    for _ in 0..5 {
        assert_eq!(i.next(), None);
    }
}

#[test]
fn into_vec_collects_the_chained_output() {
    let out = VecSequence::new(vec!['a', 'b', 'c'])
        .chain_from_last(|c| VecSequence::new(vec![c, 'd']))
        .into_vec();

    assert_eq!(out, vec!['a', 'b', 'c', 'd']);
}

#[test]
fn into_vec_of_empty_source_is_empty() {
    let out = VecSequence::<i32>::new(Vec::new())
        .chain_from_last(|_: i32| VecSequence::<i32>::new(Vec::new()))
        .into_vec();

    assert_eq!(out, Vec::<i32>::new());
}

#[test]
fn split_text_then_split_trailing_fragment() {
    let words: Vec<String> = "lorem ipsum dolor;sit;amet"
        .split(' ')
        .map(String::from)
        .collect();
    assert_eq!(words, vec!["lorem", "ipsum", "dolor;sit;amet"]);

    let out = VecSequence::new(words)
        .chain_from_last(|last: String| {
            VecSequence::new(last.split(';').map(String::from).collect())
        })
        .into_vec();

    assert_eq!(out, vec!["lorem", "ipsum", "dolor", "sit", "amet"]);
}

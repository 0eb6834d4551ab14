use cycle_to_nth::{CycleToNth, CycleToNthAdapter, RestartableSource, VecSource};

fn collect(mut c: CycleToNth<VecSource<u32>>) -> Vec<u32> {
    let mut out: Vec<u32> = Vec::new();
    while let Some(x) = c.next() {
        out.push(x);
    }
    out
}

#[test]
fn extend_with_cycles() {
    let v = vec![1u32];
    let c = VecSource::from_vec(v).cycle_to_nth(5);
    assert_eq!(collect(c).iter().sum::<u32>(), 5u32);
}

#[test]
fn truncate_to_nth() {
    let v = vec![1u32; 10];
    let c = VecSource::from_vec(v).cycle_to_nth(5);
    assert_eq!(collect(c).iter().sum::<u32>(), 5u32);
}

#[test]
fn single_element_repeats() {
    let c = VecSource::from_vec(vec![1u32]).cycle_to_nth(5);
    assert_eq!(collect(c), vec![1u32, 1, 1, 1, 1]);
}

#[test]
fn wraps_around_the_source() {
    let c = VecSource::from_vec(vec![1u32, 2, 3]).cycle_to_nth(7);
    assert_eq!(collect(c), vec![1u32, 2, 3, 1, 2, 3, 1]);
}

#[test]
fn empty_source_yields_nothing() {
    let mut c = VecSource::from_vec(Vec::<u32>::new()).cycle_to_nth(3);
    assert_eq!(c.next(), None);
    assert_eq!(c.next(), None);
    assert_eq!(c.next(), None);
    assert_eq!(c.next(), None);
}

#[test]
fn zero_limit_yields_nothing() {
    let mut c = VecSource::from_vec(vec![7u32]).cycle_to_nth(0);
    assert_eq!(c.next(), None);
    assert_eq!(c.next(), None);
}

#[test]
fn exhaustion_is_permanent() {
    let mut c = VecSource::from_vec(vec![4u32, 5]).cycle_to_nth(3);
    assert_eq!(c.next(), Some(4));
    assert_eq!(c.next(), Some(5));
    assert_eq!(c.next(), Some(4));
    for _ in 0..10 {
        assert_eq!(c.next(), None);
    }
}

#[test]
fn explicit_construction_matches_chained_call() {
    let a = CycleToNth::new(VecSource::from_vec(vec![8u32, 9]), 5);
    let b = VecSource::from_vec(vec![8u32, 9]).cycle_to_nth(5);
    assert_eq!(collect(a), collect(b));
}

#[test]
fn size_hint_of_empty_source() {
    let c = VecSource::from_vec(Vec::<u32>::new()).cycle_to_nth(3);
    assert_eq!(c.size_hint(), (0, Some(0)));
}

#[test]
fn size_hint_of_nonempty_source() {
    let c = VecSource::from_vec(vec![1u32, 2]).cycle_to_nth(3);
    assert_eq!(c.size_hint(), (usize::MAX, None));
}

#[test]
fn size_hint_does_not_consume() {
    let mut c = VecSource::from_vec(vec![2u32]).cycle_to_nth(2);
    assert_eq!(c.size_hint(), (usize::MAX, None));
    assert_eq!(c.next(), Some(2));
    assert_eq!(c.next(), Some(2));
    assert_eq!(c.next(), None);
}

#[test]
fn vec_source_yields_in_order() {
    let mut s = VecSource::from_vec(vec![10u32, 20, 30]);
    assert_eq!(s.next(), Some(10));
    assert_eq!(s.next(), Some(20));
    assert_eq!(s.next(), Some(30));
    assert_eq!(s.next(), None);
}

#[test]
fn vec_source_restart_copy_is_independent() {
    let mut s = VecSource::from_vec(vec![10u32, 20]);
    assert_eq!(s.next(), Some(10));
    let mut copy = s.restart_copy();
    assert_eq!(copy.next(), Some(20));
    assert_eq!(copy.next(), None);
    assert_eq!(s.next(), Some(20));
    assert_eq!(s.next(), None);
}

#[test]
fn vec_source_size_hint_is_exact() {
    let mut s = VecSource::from_vec(vec![10u32, 20]);
    assert_eq!(s.size_hint(), (2, Some(2)));
    assert_eq!(s.next(), Some(10));
    assert_eq!(s.size_hint(), (1, Some(1)));
}

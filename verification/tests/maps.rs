use dataflow::is_map::{
    only_ones, AssertOnes, HasOne, HybridMap, IsAddMap, IsDiscardMap, IsMap, IsRemoveMap, OptionMap,
    SingletonMap, UnitMap, VecMap,
};
use dataflow::iter::TupleableWith;
use dataflow::step::Step;
use dataflow::tuple::{fst, snd, swap};
use dataflow::{Emptyable, GroupMap, Monoid, Value, WeightMap};

fn num(n: usize) -> Value {
    Value::Nat(n)
}

#[test]
fn adding_merges_weights_and_drops_zeros() {
    let mut m = WeightMap::new();
    assert!(m.is_empty());
    m.add(num(1), 2);
    m.add(num(2), 5);
    m.add(num(1), 3);
    assert_eq!(m.get(&num(1)), 5);
    assert_eq!(m.get(&num(2)), 5);
    assert_eq!(m.len(), 2);
    m.add(num(1), -5);
    assert_eq!(m.get(&num(1)), 0);
    assert!(!m.contains_key(&num(1)));
    assert_eq!(m.len(), 1);
    m.add(num(3), 0);
    assert_eq!(m.len(), 1);
}

#[test]
fn insert_then_delete_leaves_no_trace() {
    let mut m = WeightMap::from_vec(vec![(num(7), 4)]);
    let before = m.clone();
    m.add(num(9), 1);
    m.add(num(9), -1);
    assert!(m.same_as(&before));
    m.add(num(7), 1);
    m.add(num(7), -1);
    assert!(m.same_as(&before));
}

#[test]
fn weights_wrap_around() {
    assert_eq!(isize::MAX.plus(1), isize::MIN);
    assert_eq!(isize::MIN.negated(), isize::MIN);
    assert_eq!(5isize.minus(7), -2);
    assert!(0isize.is_zero());
    assert!(!1isize.is_zero());
    let mut m = WeightMap::new();
    m.add(num(1), isize::MAX);
    m.add(num(1), isize::MAX);
    assert_eq!(m.get(&num(1)), -2);
}

#[test]
fn entries_stay_in_the_order_of_their_keys_coming() {
    let mut m = WeightMap::new();
    m.add(num(3), 1);
    m.add(num(1), 1);
    m.add(num(2), 1);
    m.add(num(1), 1);
    assert_eq!(
        m.to_vec(),
        vec![(num(3), 1), (num(1), 2), (num(2), 1)]
    );
    assert_eq!(m.remove(&num(3)), Some(1));
    assert_eq!(m.remove(&num(3)), None);
    assert_eq!(m.steal(), vec![(num(1), 2), (num(2), 1)]);
    assert!(m.is_empty());
    assert_eq!(m.min_key(), None);
}

#[test]
fn least_and_greatest_keys() {
    let m = WeightMap::from_vec(vec![(num(3), 1), (num(1), 1), (num(2), 1)]);
    assert_eq!(m.min_key(), Some(num(1)));
    assert_eq!(m.max_key(), Some(num(3)));
}

#[test]
fn groups_that_become_empty_leave() {
    let mut g = GroupMap::new();
    g.add(num(1), num(10), 1);
    g.add(num(1), num(11), 2);
    g.add(num(2), num(20), 1);
    assert_eq!(g.len(), 2);
    assert_eq!(g.get(&num(1)).unwrap().get(&num(11)), 2);
    g.add(num(2), num(20), -1);
    assert_eq!(g.len(), 1);
    assert!(g.get(&num(2)).is_none());
    g.add(num(5), num(50), 0);
    assert_eq!(g.len(), 1);
    assert_eq!(g.min_key(), Some(num(1)));
    assert_eq!(
        g.flatten(),
        vec![
            (Value::pair(num(1), num(10)), 1),
            (Value::pair(num(1), num(11)), 2)
        ]
    );
    let old = g.replace(num(1), WeightMap::new());
    assert_eq!(old.len(), 2);
    assert!(g.is_empty());
}

#[test]
fn the_order_of_values() {
    assert!(Value::Unit.less(&Value::Bool(false)));
    assert!(Value::Bool(false).less(&Value::Bool(true)));
    assert!(Value::Bool(true).less(&num(0)));
    assert!(num(1).less(&num(2)));
    assert!(!num(2).less(&num(2)));
    assert!(num(usize::MAX).less(&Value::Int(isize::MIN)));
    assert!(Value::Int(-1).less(&Value::Int(0)));
    assert!(Value::Int(7).less(&Value::Char('a')));
    assert!(Value::Char('a').less(&Value::Char('b')));
    assert!(Value::Char('z').less(&Value::pair(Value::Unit, Value::Unit)));
    assert!(Value::pair(num(1), num(9)).less(&Value::pair(num(2), num(0))));
    assert!(Value::pair(num(1), num(1)).less(&Value::pair(num(1), num(2))));
    assert!(!Value::pair(num(1), num(2)).less(&Value::pair(num(1), num(2))));
}

#[test]
fn texts_are_lists_of_characters() {
    let t = Value::text(&vec!['h', 'i']);
    assert_eq!(
        t,
        Value::pair(
            Value::Char('h'),
            Value::pair(Value::Char('i'), Value::Unit)
        )
    );
    assert_eq!(t.length(), 2);
    assert_eq!(Value::text(&vec![]), Value::Unit);
    assert_eq!(Value::Unit.length(), 0);
    assert_eq!(t.fst(), Value::Char('h'));
    assert_eq!(num(4).fst(), num(4));
    assert_eq!(num(4).snd(), Value::Unit);
    assert_eq!(
        Value::pair(num(1), num(2)).swapped(),
        Value::pair(num(2), num(1))
    );
    assert_eq!(
        Value::triple(num(1), num(2), num(3)),
        Value::pair(num(1), Value::pair(num(2), num(3)))
    );
}

#[test]
fn timestamps_are_ordered_from_the_outside_in() {
    let outer = Step::Last(3);
    let inner = outer.append(1);
    let later = outer.append(2);
    assert!(outer.before(&inner));
    assert!(inner.before(&later));
    assert!(!later.before(&inner));
    assert!(!outer.before(&Step::Last(3)));
    assert!(inner.not_after(&outer));
    assert!(outer.not_after(&inner));
    assert!(!Step::Last(4).not_after(&inner));
    assert!(inner.before(&Step::Last(4)));
    assert_eq!(inner.root(), 3);
    assert_eq!(inner.depth(), 1);
    assert_eq!(later.step_for(1), 2);
    assert_eq!(later.step_for(0), 3);
    assert_eq!(later.step_for(2), 0);
}

#[test]
fn small_maps() {
    assert!(OptionMap::new(num(1), 0).is_empty());
    let mut o = OptionMap::new(num(1), 4);
    assert_eq!(o.as_ref(), Some(&(num(1), 4)));
    assert_eq!(o.foreach(), vec![(num(1), 4)]);
    assert_eq!(IsRemoveMap::remove(&mut o, &num(2)), None);
    assert_eq!(IsRemoveMap::remove(&mut o, &num(1)), Some(4));
    assert!(o.is_empty());
    assert!(OptionMap::default().is_empty());

    let s = SingletonMap(num(5));
    assert_eq!(s.foreach(), vec![(num(5), 1)]);
    assert_eq!(s.into_discardable().into_iter(), vec![(num(5), 1)]);

    let mut u = UnitMap::default();
    assert!(u.is_empty());
    IsAddMap::add(&mut u, Value::Unit, 3);
    IsAddMap::add(&mut u, Value::Unit, 4);
    assert_eq!(u.0, 7);
    assert_eq!(u.foreach(), vec![(Value::Unit, 7)]);
    IsAddMap::add(&mut u, Value::Unit, -7);
    assert!(u.is_empty());
    assert_eq!(u.foreach(), vec![]);
}

#[test]
fn the_hybrid_map_adds_up_at_its_threshold() {
    let mut h = HybridMap::new();
    for i in 0..15 {
        h.add(num(i % 4), 1);
    }
    // fifteen changes wait in the buffer
    assert_eq!(h.steal().len(), 15);
    let mut h = HybridMap::new();
    for i in 0..16 {
        h.add(num(i % 4), 1);
    }
    // the sixteenth change had them added up
    assert_eq!(
        h.steal(),
        vec![(num(0), 4), (num(1), 4), (num(2), 4), (num(3), 4)]
    );
    assert_eq!(h.steal(), vec![]);
    let mut h = HybridMap::default();
    h.add(num(1), 2);
    h.add(num(1), -2);
    assert_eq!(h.steal(), vec![(num(1), 2), (num(1), -2)]);
}

#[test]
fn ones_are_asserted() {
    assert!(1isize.is_one());
    assert!(!2isize.is_one());
    let ones = vec![(num(1), 1), (num(2), 1)];
    assert!(only_ones(&ones));
    assert_eq!(ones.assert_ones(), vec![num(1), num(2)]);
    assert!(!only_ones(&vec![(num(1), 1), (num(2), 3)]));
    assert!(only_ones(&vec![]));
}

#[test]
fn pairs_and_pairing() {
    assert_eq!(fst((1, 'a')), 1);
    assert_eq!(snd((1, 'a')), 'a');
    assert_eq!(swap((1, 'a')), ('a', 1));
    let mut t = vec![num(1), num(2)].tuple_with(7);
    assert_eq!(t.next(), Some((num(1), 7)));
    assert_eq!(t.next(), Some((num(2), 7)));
    assert_eq!(t.next(), None);
}

#[test]
fn the_vector_map_keeps_its_keys_in_order() {
    let mut m = VecMap::new(vec![(num(3), 30), (num(1), 10), (num(2), 20)]);
    assert_eq!(m.to_vec(), vec![(num(1), 10), (num(2), 20), (num(3), 30)]);
    assert_eq!(m.remove(&num(2)), Some(20));
    assert_eq!(m.remove(&num(2)), None);
    assert_eq!(m.remove(&num(7)), None);
    assert_eq!(m.to_vec(), vec![(num(1), 10), (num(3), 30)]);
    assert_eq!(m.len(), 2);
    assert!(!m.is_empty());
    assert!(VecMap::default().is_empty());
    assert!(VecMap::new(vec![]).is_empty());
    // an entry of weight zero is left out
    let m = VecMap::new(vec![(num(3), 0), (num(1), 10), (num(2), 0)]);
    assert_eq!(m.to_vec(), vec![(num(1), 10)]);
    assert!(VecMap::new(vec![(num(5), 0)]).is_empty());
}

#[test]
fn an_entry_of_a_group_can_be_taken_out() {
    let mut g = GroupMap::new();
    g.add(num(1), num(10), 1);
    g.add(num(1), num(11), 2);
    assert_eq!(g.remove_entry(&num(1), &num(11)), Some(2));
    assert_eq!(g.remove_entry(&num(1), &num(11)), None);
    assert_eq!(g.remove_entry(&num(2), &num(11)), None);
    assert_eq!(g.len(), 1);
    assert_eq!(g.remove_entry(&num(1), &num(10)), Some(1));
    assert!(g.is_empty());
}

#[test]
fn the_vector_map_is_a_map_that_can_be_taken_apart() {
    let m = VecMap::new(vec![(num(3), 30), (num(1), 10), (num(2), 20)]);
    assert_eq!(IsMap::foreach(&m), vec![(num(1), 10), (num(2), 20), (num(3), 30)]);
    let mut d = IsMap::into_discardable(m);
    assert_eq!(IsRemoveMap::remove(&mut d, &num(2)), Some(20));
    assert_eq!(IsRemoveMap::remove(&mut d, &num(2)), None);
    assert_eq!(IsDiscardMap::into_iter(d), vec![(num(1), 10), (num(3), 30)]);
}

#[test]
fn the_hybrid_map_is_a_map_that_adds() {
    let mut h = HybridMap::new();
    assert!(Emptyable::is_empty(&h));
    IsAddMap::add(&mut h, num(1), 2);
    assert!(!Emptyable::is_empty(&h));
    IsAddMap::add(&mut h, num(1), 3);
    IsAddMap::add(&mut h, num(2), 1);
    let all = WeightMap::from_vec(h.steal());
    assert!(all.same_as(&WeightMap::from_vec(vec![(num(1), 5), (num(2), 1)])));
    assert!(Emptyable::is_empty(&h));
}

#[test]
fn the_grouped_map_adds_and_removes_under_pairs() {
    let mut g = GroupMap::new();
    IsAddMap::add(&mut g, Value::pair(num(1), num(10)), 2);
    IsAddMap::add(&mut g, Value::pair(num(1), num(11)), 1);
    IsAddMap::add(&mut g, Value::pair(num(1), num(10)), 3);
    IsAddMap::add(&mut g, Value::pair(num(2), num(10)), 1);
    assert_eq!(g.get(&num(1)).unwrap().get(&num(10)), 5);
    assert_eq!(g.get(&num(1)).unwrap().get(&num(11)), 1);
    assert_eq!(g.len(), 2);
    // a weight that comes to zero leaves the group, and an empty group leaves
    IsAddMap::add(&mut g, Value::pair(num(2), num(10)), -1);
    assert_eq!(g.len(), 1);
    assert_eq!(
        IsRemoveMap::remove(&mut g, &Value::pair(num(1), num(10))),
        Some(5)
    );
    assert_eq!(
        IsRemoveMap::remove(&mut g, &Value::pair(num(1), num(10))),
        None
    );
    // what is no pair is no key of the map
    assert_eq!(IsRemoveMap::remove(&mut g, &num(1)), None);
    assert_eq!(g.get(&num(1)).unwrap().to_vec(), vec![(num(11), 1)]);
}

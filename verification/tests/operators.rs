use dataflow::dot::DotGraph;
use dataflow::node::Operation;
use dataflow::operator::join::{AntiJoin, Join};
use dataflow::operator::reduce::Reduce;
use dataflow::operator::triangles::{intersection, Triangles};
use dataflow::output::{IsReduce, ReduceOutput};
use dataflow::function::{MapFn, Reduction};
use dataflow::{
    Arranged, CreationContext, Emptyable, Error, Function, NoFunction, Value, WeightMap,
};

fn num(n: usize) -> Value {
    Value::Nat(n)
}

fn pair(a: Value, b: Value) -> Value {
    Value::pair(a, b)
}

fn same(found: Vec<(Value, isize)>, expected: Vec<(Value, isize)>) -> bool {
    WeightMap::from_vec(found).same_as(&WeightMap::from_vec(expected))
}

fn flat(m: &Arranged) -> &WeightMap {
    match m {
        Arranged::Flat(m) => m,
        Arranged::Grouped(_) => panic!("flat map expected"),
    }
}

#[test]
fn a_join_pairs_what_both_sides_hold_under_a_key() {
    let mut j = Join::new(0, 1);
    let out = j.flow(
        &vec![(pair(num(1), num(10)), 2), (pair(num(2), num(20)), 1)],
        &vec![(pair(num(1), num(100)), 3)],
    );
    assert_eq!(out, vec![(Value::triple(num(1), num(10), num(100)), 6)]);
    // what comes later meets what was delivered before
    let out = j.flow(&vec![(pair(num(1), num(11)), 1)], &vec![(pair(num(2), num(200)), -1)]);
    assert_eq!(
        out,
        vec![
            (Value::triple(num(1), num(11), num(100)), 3),
            (Value::triple(num(2), num(20), num(200)), -1)
        ]
    );
    assert_eq!(j.flow(&vec![], &vec![]), vec![]);
}

#[test]
fn a_join_and_its_mirror_image_send_the_same() {
    let left = vec![(pair(num(1), num(10)), 2), (pair(num(1), num(11)), 1)];
    let right = vec![(pair(num(1), num(100)), 3), (pair(num(1), num(101)), -1)];
    let mut a = Join::new(0, 1);
    let mut b = Join::new(1, 0);
    let mut sent_a = a.flow(&left, &vec![]);
    sent_a.extend(a.flow(&vec![], &right));
    let mut sent_b = b.flow(&right, &left);
    sent_b.extend(b.flow(&vec![], &vec![]));
    let swapped: Vec<(Value, isize)> = sent_b
        .into_iter()
        .map(|(x, r)| (pair(x.fst(), x.snd().swapped()), r))
        .collect();
    assert!(same(sent_a, swapped));
}

#[test]
fn an_antijoin_lets_through_what_the_right_side_does_not_hold() {
    let mut j = AntiJoin::new(0, 1);
    let out = j.flow(
        &vec![(num(1), 1)],
        &vec![(pair(num(1), num(10)), 1), (pair(num(2), num(20)), 1)],
    );
    assert_eq!(out, vec![(pair(num(2), num(20)), 1)]);
    // the key appears on the right: what the left holds under it is taken back
    let out = j.flow(&vec![(num(2), 1)], &vec![]);
    assert_eq!(out, vec![(pair(num(2), num(20)), -1)]);
    // the key goes again: it is given again
    let out = j.flow(&vec![(num(1), -1)], &vec![]);
    assert_eq!(out, vec![(pair(num(1), num(10)), 1)]);
    // more of a key that is there changes nothing
    let out = j.flow(&vec![(num(2), 5)], &vec![]);
    assert_eq!(out, vec![]);
}

#[test]
fn a_reduce_sends_the_difference_to_the_output_before() {
    let mut r: Reduce<NoFunction> = Reduce::new(0, Reduction::Min);
    let out = r.flow(&vec![(pair(num(1), num(5)), 1), (pair(num(1), num(7)), 1)]);
    assert_eq!(out, vec![(pair(num(1), num(5)), 1)]);
    let out = r.flow(&vec![(pair(num(1), num(3)), 1)]);
    assert!(same(
        out,
        vec![(pair(num(1), num(3)), 1), (pair(num(1), num(5)), -1)]
    ));
    // the group goes: the output is taken back
    let out = r.flow(&vec![
        (pair(num(1), num(3)), -1),
        (pair(num(1), num(5)), -1),
        (pair(num(1), num(7)), -1),
    ]);
    assert_eq!(out, vec![(pair(num(1), num(3)), -1)]);
    assert!(r.get_ref().is_empty());
}

#[test]
fn a_reduce_tells_a_batch_that_breaks_its_demand() {
    let mut r: Reduce<NoFunction> = Reduce::new(0, Reduction::OneToOne);
    let first = vec![(pair(num(1), num(5)), 1), (pair(num(2), num(6)), 1)];
    assert!(!r.breaks(&first));
    let out = r.flow(&first);
    assert!(same(out, first));
    // a second record under a key, or a weight other than one
    assert!(r.breaks(&vec![(pair(num(1), num(7)), 1)]));
    assert!(r.breaks(&vec![(pair(num(2), num(6)), 1)]));
    // a key that goes, and one that changes its record, break nothing
    assert!(!r.breaks(&vec![(pair(num(2), num(6)), -1)]));
    assert!(!r.breaks(&vec![(pair(num(1), num(5)), -1), (pair(num(1), num(8)), 1)]));
    // no other reduction demands anything
    let least: Reduce<NoFunction> = Reduce::new(0, Reduction::Min);
    assert!(!least.breaks(&vec![(pair(num(1), num(7)), 3)]));
    // a step with any batch says whether the batch broke the demand
    let (out, broke) = r.try_flow(&vec![(pair(num(2), num(6)), -1)]);
    assert!(!broke);
    assert_eq!(out, vec![(pair(num(2), num(6)), -1)]);
    let (_, broke) = r.try_flow(&vec![(pair(num(1), num(7)), 1)]);
    assert!(broke);
}

#[test]
fn reductions() {
    let group = WeightMap::from_vec(vec![(num(4), 2), (num(9), 1), (num(1), 3)]);
    let key = num(0);
    assert_eq!(
        Reduction::<NoFunction>::Min.apply(&key, &group),
        vec![(num(1), 1)]
    );
    assert_eq!(
        Reduction::<NoFunction>::Max.apply(&key, &group),
        vec![(num(9), 1)]
    );
    assert_eq!(
        Reduction::<NoFunction>::Distinct.apply(&key, &group),
        vec![(Value::Unit, 1)]
    );
    let counted = WeightMap::from_vec(vec![(Value::Unit, 6)]);
    assert_eq!(
        Reduction::<NoFunction>::Count.apply(&key, &counted),
        vec![(Value::Int(6), 1)]
    );
    assert_eq!(Reduction::<NoFunction>::OneToOne.apply(&key, &group), vec![]);
    assert!(Reduction::<NoFunction>::OneToOne.violated(&group));
    let one = WeightMap::from_vec(vec![(num(4), 1)]);
    assert_eq!(
        Reduction::<NoFunction>::OneToOne.apply(&key, &one),
        vec![(num(4), 1)]
    );
    assert!(!Reduction::<NoFunction>::OneToOne.violated(&one));
    // the function of a context without functions hands its argument back
    assert_eq!(
        Reduction::Call(NoFunction).apply(&key, &one),
        vec![(num(0), 1), (num(4), 1)]
    );
}

#[test]
fn transforms() {
    let x = pair(num(1), pair(num(2), Value::Unit));
    assert_eq!(MapFn::<NoFunction>::Negate.apply(&x, 3), vec![(x.clone(), -3)]);
    assert_eq!(
        MapFn::<NoFunction>::WithUnit.apply(&num(1), 3),
        vec![(pair(num(1), Value::Unit), 3)]
    );
    assert_eq!(MapFn::<NoFunction>::First.apply(&x, 1), vec![(num(1), 1)]);
    assert_eq!(
        MapFn::<NoFunction>::Second.apply(&x, 1),
        vec![(pair(num(2), Value::Unit), 1)]
    );
    assert_eq!(
        MapFn::<NoFunction>::Swap.apply(&pair(num(1), num(2)), 1),
        vec![(pair(num(2), num(1)), 1)]
    );
    assert_eq!(
        MapFn::<NoFunction>::SemiKey.apply(&x, 1),
        vec![(pair(num(1), num(2)), 1)]
    );
    assert_eq!(
        MapFn::<NoFunction>::Decrement.apply(&pair(num(1), Value::Int(5)), 1),
        vec![(pair(num(1), Value::Int(4)), 1)]
    );
    assert_eq!(
        MapFn::Call(NoFunction).apply(&num(1), 2),
        vec![(num(1), 2)]
    );
    assert_eq!(MapFn::Filter(NoFunction).apply(&num(1), 2), vec![]);
    assert_eq!(
        MapFn::Filter(NoFunction).apply(&Value::Bool(true), 2),
        vec![(Value::Bool(true), 2)]
    );
    assert_eq!(
        MapFn::Flat(NoFunction).apply(&pair(num(1), pair(num(2), Value::Unit)), 2),
        vec![(num(1), 2), (num(2), 2)]
    );
    assert_eq!(
        MapFn::Weight(NoFunction).apply(&num(1), 2),
        vec![(num(1), 2)]
    );
    assert_eq!(
        MapFn::KeyBy(NoFunction).apply(&num(1), 2),
        vec![(pair(num(1), num(1)), 2)]
    );
    // the pair of the record and its weight is a list of one element, the
    // record, and a rest that is no list
    assert_eq!(
        MapFn::Records(NoFunction).apply(&num(1), 2),
        vec![(num(1), 1)]
    );
}

#[test]
fn the_smaller_map_is_walked_when_maps_are_intersected() {
    let l = WeightMap::from_vec(vec![(num(1), 1), (num(2), 2), (num(3), 3)]);
    let r = WeightMap::from_vec(vec![(num(3), 30), (num(2), 20)]);
    assert_eq!(
        intersection(&l, &r),
        vec![(num(3), (3, 30)), (num(2), (2, 20))]
    );
    assert_eq!(
        intersection(&r, &l),
        vec![(num(3), (30, 3)), (num(2), (20, 2))]
    );
    assert_eq!(intersection(&l, &WeightMap::new()), vec![]);
}

#[test]
fn triangles_close_with_the_product_of_the_weights() {
    let mut t = Triangles::new(0, 1, 2);
    let out = t.flow(
        &vec![(pair(num(1), num(2)), 2)],
        &vec![(pair(num(1), num(3)), 3)],
        &vec![(pair(num(2), num(3)), 5)],
    );
    assert_eq!(out, vec![(Value::triple(num(1), num(2), num(3)), 30)]);
    let out = t.flow(&vec![(pair(num(1), num(2)), -2)], &vec![], &vec![]);
    assert_eq!(out, vec![(Value::triple(num(1), num(2), num(3)), -30)]);
}

enum Key {
    /// the record modulo ten
    LastDigit,
}

impl Function for Key {
    fn call_spec(&self, x: Value) -> Value {
        self.call(&x)
    }

    fn call(&self, x: &Value) -> Value {
        match (self, x) {
            (Key::LastDigit, Value::Nat(n)) => Value::Nat(n % 10),
            _ => Value::Unit,
        }
    }
}

#[test]
fn convenience_operators() {
    let mut creation = CreationContext::<Key>::new(0);
    let (people, people_rel) = creation.create_input();
    let (digits, digits_rel) = creation.create_input();
    let people_rel = people_rel.split(&mut creation);
    let digits_rel = digits_rel.split(&mut creation);

    let digits_semijoin_on = digits_rel.clone(&mut creation);
    let digits_antijoin_on = digits_rel.clone(&mut creation);
    let digits_intersection = digits_rel.clone(&mut creation);
    let digits_set_minus = digits_rel.clone(&mut creation);

    let kept = people_rel
        .clone(&mut creation)
        .semijoin_on(&mut creation, digits_semijoin_on, Key::LastDigit)
        .get_arrangement(&mut creation, false);
    let dropped = people_rel
        .clone(&mut creation)
        .antijoin_on(&mut creation, digits_antijoin_on, Key::LastDigit)
        .get_arrangement(&mut creation, false);
    let common = people_rel
        .clone(&mut creation)
        .intersection(&mut creation, digits_intersection)
        .get_arrangement(&mut creation, false);
    let rest = people_rel
        .clone(&mut creation)
        .set_minus(&mut creation, digits_set_minus)
        .get_arrangement(&mut creation, false);
    let counts = people_rel
        .clone(&mut creation)
        .counts(&mut creation)
        .get_arrangement(&mut creation, false);
    let negated = people_rel
        .clone(&mut creation)
        .negate(&mut creation)
        .consolidate(&mut creation)
        .get_arrangement(&mut creation, true);
    let histogram = people_rel
        .histogram(&mut creation, digits_rel)
        .get_arrangement(&mut creation, false);

    let mut context = creation.begin();
    // a grouped map is an arrangement, and no flat one
    assert!(context.has_arrangement(negated.context_id, negated.id));
    assert!(!context.has_flat_arrangement(negated.context_id, negated.id));
    assert!(context.has_flat_arrangement(kept.context_id, kept.id));
    people.update(&mut context, num(13), 2);
    people.insert(&mut context, num(24));
    people.insert(&mut context, num(3));
    digits.insert(&mut context, num(3));
    digits.insert(&mut context, num(5));
    context.commit().unwrap();

    assert!(flat(kept.read(&mut context).unwrap())
        .same_as(&WeightMap::from_vec(vec![(num(13), 2), (num(3), 1)])));
    assert!(flat(dropped.read(&mut context).unwrap())
        .same_as(&WeightMap::from_vec(vec![(num(24), 1)])));
    assert!(flat(common.read(&mut context).unwrap())
        .same_as(&WeightMap::from_vec(vec![(num(3), 1)])));
    assert!(flat(rest.read(&mut context).unwrap())
        .same_as(&WeightMap::from_vec(vec![(num(13), 2), (num(24), 1)])));
    assert!(
        flat(counts.read(&mut context).unwrap()).same_as(&WeightMap::from_vec(vec![
            (pair(num(13), Value::Int(2)), 1),
            (pair(num(24), Value::Int(1)), 1),
            (pair(num(3), Value::Int(1)), 1)
        ]))
    );
    match negated.read(&mut context).unwrap() {
        Arranged::Grouped(g) => {
            assert_eq!(g.len(), 3);
            assert_eq!(g.get(&num(13)).unwrap().get(&Value::Unit), -2);
        }
        Arranged::Flat(_) => panic!("grouped map expected"),
    }
    assert!(
        flat(histogram.read(&mut context).unwrap()).same_as(&WeightMap::from_vec(vec![
            (pair(num(3), Value::Int(1)), 1),
            (pair(num(5), Value::Int(0)), 1)
        ]))
    );
    assert_eq!(context.fault(), None);
}

#[test]
fn what_cannot_be_hidden_or_copied_is_told_apart() {
    let mut creation = CreationContext::<NoFunction>::new(0);
    let (_, a) = creation.create_input();
    let (_, b) = creation.create_input();
    // an input has no dependency
    let (_, c) = creation.create_input();
    assert!(!c.may_hide(&creation));
    let joined = a.join(&mut creation, b);
    // a join has two, and did not come out of a split
    assert!(!joined.can_clone(&creation));
    let joined = joined
        .named(&mut creation, "pairs")
        .op_named(&mut creation, "my join");
    assert!(!joined.may_hide(&creation));
    let (_, e) = creation.create_input();
    assert!(!e.is_reduce(&creation));
    assert!(e.group_min(&mut creation).is_reduce(&creation));
    let sub = creation.subgraph();
    let (_, variable) = sub.variable(&mut creation);
    assert!(!variable.may_hide(&creation));
    let (_, f) = creation.create_input();
    let mapped = f.map(&mut creation, NoFunction);
    assert!(mapped.may_hide(&creation));
    // a relation of another context is none of these
    let other = CreationContext::<NoFunction>::new(1);
    assert!(!mapped.may_hide(&other));
    let split = mapped.hidden(&mut creation).shown(&mut creation).split(&mut creation);
    assert!(split.can_clone(&creation));
    assert!(!split.can_clone(&other));
}

#[test]
fn a_group_that_breaks_its_reduction_is_a_fault() {
    let mut creation = CreationContext::<NoFunction>::new(0);
    let (input, relation) = creation.create_input();
    let (checked, output) = relation.assert_1to1_with_output(&mut creation);
    let arrangement = checked.get_arrangement(&mut creation, false);
    let mut context = creation.begin();
    input.insert(&mut context, pair(num(1), num(10)));
    input.insert(&mut context, pair(num(2), num(20)));
    context.commit().unwrap();
    assert!(flat(arrangement.read(&mut context).unwrap()).same_as(&WeightMap::from_vec(vec![
        (pair(num(1), num(10)), 1),
        (pair(num(2), num(20)), 1)
    ])));
    assert_eq!(
        output
            .read(&mut context)
            .unwrap()
            .get(&num(2))
            .unwrap()
            .to_vec(),
        vec![(num(20), 1)]
    );
    input.insert(&mut context, pair(num(1), num(11)));
    context.commit().unwrap();
    assert_eq!(
        arrangement.read(&mut context).unwrap_err(),
        Error::ReducerContract
    );
    assert_eq!(context.fault(), Some(Error::ReducerContract));
}

#[test]
fn the_outputs_of_a_reduce_can_be_read() {
    let mut creation = CreationContext::<NoFunction>::new(0);
    let (input, relation) = creation.create_input();
    let least = relation.group_min(&mut creation);
    let output = least.get_dyn_reduce_output(&mut creation);
    let mut context = creation.begin();
    input.insert(&mut context, pair(num(1), num(10)));
    input.insert(&mut context, pair(num(1), num(7)));
    assert!(output.read(&mut context).unwrap().is_empty());
    context.commit().unwrap();
    assert_eq!(
        output.read(&mut context).unwrap().flatten(),
        vec![(pair(num(1), num(7)), 1)]
    );
}

#[test]
fn a_graph_that_pulls_itself_is_a_fault() {
    let mut creation = CreationContext::<NoFunction>::new(0);
    let (input, relation) = creation.create_input();
    let arrangement = relation
        .negate(&mut creation)
        .get_arrangement(&mut creation, false);
    let mut context = creation.begin();
    // the map is made to read itself
    match &mut context.graph.nodes[1].inner {
        dataflow::node::Operation::FlatMap(m) => m.inner = 1,
        _ => panic!("map expected"),
    }
    input.insert(&mut context, num(1));
    context.commit().unwrap();
    assert_eq!(arrangement.read(&mut context).unwrap_err(), Error::Divergence);
    assert_eq!(context.fault(), Some(Error::Divergence));
}

#[test]
fn the_clock_cannot_go_past_its_end() {
    let creation = CreationContext::<NoFunction>::new(0);
    let mut context = creation.begin();
    context.step = usize::MAX - 1;
    assert_eq!(context.commit(), Ok(()));
    assert_eq!(context.commit(), Err(Error::ClockExhausted));
    assert_eq!(context.step(), usize::MAX);
    assert_eq!(
        context.with_temp_changes(&vec![], &vec![]).unwrap_err(),
        Error::ClockExhausted
    );
}

#[test]
fn an_input_does_not_go_back() {
    let mut creation = CreationContext::<NoFunction>::new(0);
    let (input, _) = creation.create_input();
    let mut context = creation.begin();
    context.commit().unwrap();
    input.insert(&mut context, num(1));
    assert!(context.has_input(&input));
    assert_eq!(context.rejection(&input), None);
    // a clock that was put back by hand
    context.step = 0;
    assert_eq!(context.rejection(&input), Some(Error::NotMonotone));
}

#[test]
fn the_picture_of_a_graph() {
    let mut creation = CreationContext::<NoFunction>::new(0);
    let (input, relation) = creation.create_input();
    let relation = relation.named(&mut creation, "people");
    let shown = relation
        .distinct(&mut creation)
        .get_arrangement(&mut creation, false);
    let mut context = creation.begin();
    input.insert(&mut context, num(1));
    input.insert(&mut context, num(1));
    context.commit().unwrap();
    shown.read(&mut context).unwrap();
    let DotGraph { nodes, edges } = context.dump_dot();
    let labels: Vec<(usize, Option<String>, String, usize)> = nodes
        .into_iter()
        .map(|n| (n.id, n.name, n.operator_name, n.message_count))
        .collect();
    assert_eq!(
        labels,
        vec![
            (0, Some("people".to_string()), "input".to_string(), 1),
            (2, None, "distinct".to_string(), 1)
        ]
    );
    // the hidden maps are drawn as what stands for them, and an arrangement
    // is no part of the picture
    assert_eq!(edges, vec![(0, 2)]);
}

#[test]
fn a_copy_of_a_receiver_starts_with_what_waits_for_that_receiver() {
    let mut creation = CreationContext::<NoFunction>::new(0);
    let (_, relation) = creation.create_input();
    let first = relation.split(&mut creation);
    let second = first.clone(&mut creation);
    let (source, of_first) = creation.node_maker.graph.receiver_of(first.id).unwrap();
    let (_, of_second) = creation.node_maker.graph.receiver_of(second.id).unwrap();
    // a record waits for the second receiver, and none for the first
    match &mut creation.node_maker.graph.nodes[source].inner {
        Operation::Source(s) => {
            s.accept(&vec![(num(1), 1)]);
            assert_eq!(s.take(of_first), vec![(num(1), 1)]);
        }
        _ => panic!("source expected"),
    }
    let of_the_second = second.clone(&mut creation);
    let of_the_first = first.clone(&mut creation);
    let (_, third) = creation
        .node_maker
        .graph
        .receiver_of(of_the_second.id)
        .unwrap();
    let (_, fourth) = creation
        .node_maker
        .graph
        .receiver_of(of_the_first.id)
        .unwrap();
    match &creation.node_maker.graph.nodes[source].inner {
        Operation::Source(s) => {
            assert_eq!(s.peek(third).to_vec(), vec![(num(1), 1)]);
            assert_eq!(s.peek(fourth).to_vec(), vec![]);
            // what waited is still there for those it waited for
            assert_eq!(s.peek(of_second).to_vec(), vec![(num(1), 1)]);
            assert_eq!(s.peek(of_first).to_vec(), vec![]);
        }
        _ => panic!("source expected"),
    }
}

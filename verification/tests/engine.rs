use dataflow::operator::input::InputInner;
use dataflow::step::Step;
use dataflow::{
    Arranged, CreationContext, Function, Value, WeightMap,
};

fn num(n: usize) -> Value {
    Value::Nat(n)
}

fn text(s: &str) -> Value {
    Value::text(&s.chars().collect())
}

fn pair(a: Value, b: Value) -> Value {
    Value::pair(a, b)
}

fn holds(found: &WeightMap, expected: Vec<(Value, isize)>) -> bool {
    found.same_as(&WeightMap::from_vec(expected))
}

struct AddOne;

impl Function for AddOne {
    fn call_spec(&self, x: Value) -> Value {
        self.call(&x)
    }

    fn call(&self, x: &Value) -> Value {
        match x {
            Value::Nat(n) => Value::Nat(n + 1),
            _ => Value::Unit,
        }
    }
}

#[test]
fn it_works() {
    let mut creation = CreationContext::<AddOne>::new(0);
    let (sender, v) = creation.create_input();
    let c = v.map(&mut creation, AddOne);
    let outp = c.get_arrangement(&mut creation, false);
    let mut execution = creation.begin();
    sender.insert(&mut execution, num(1));
    sender.insert(&mut execution, num(2));
    sender.insert(&mut execution, num(3));
    match outp.read(&mut execution).unwrap() {
        Arranged::Flat(m) => assert!(holds(m, vec![])),
        Arranged::Grouped(_) => panic!("flat map expected"),
    }
    match outp.read(&mut execution).unwrap() {
        Arranged::Flat(m) => assert!(holds(m, vec![])),
        Arranged::Grouped(_) => panic!("flat map expected"),
    }
    execution.commit().unwrap();
    match outp.read(&mut execution).unwrap() {
        Arranged::Flat(m) => {
            assert!(holds(m, vec![(num(2), 1), (num(3), 1), (num(4), 1)]))
        }
        Arranged::Grouped(_) => panic!("flat map expected"),
    }
    sender.delete(&mut execution, num(2));
    execution.commit().unwrap();
    match outp.read(&mut execution).unwrap() {
        Arranged::Flat(m) => assert!(holds(m, vec![(num(2), 1), (num(4), 1)])),
        Arranged::Grouped(_) => panic!("flat map expected"),
    }
}

enum Readme {
    FirstCharAndLength,
    AddLength,
}

impl Function for Readme {
    fn call_spec(&self, x: Value) -> Value {
        self.call(&x)
    }

    fn call(&self, x: &Value) -> Value {
        match self {
            // (_, s) becomes (first character of s or 'x', length of s)
            Readme::FirstCharAndLength => {
                let s = x.snd();
                let first = match &s {
                    Value::Pair(h, _) => (**h).clone(),
                    _ => Value::Char('x'),
                };
                pair(first, num(s.length()))
            }
            // (c, (n, s)) becomes (c, n + length of s)
            Readme::AddLength => {
                let c = x.fst();
                let n = match x.snd().fst() {
                    Value::Nat(n) => n,
                    _ => 0,
                };
                let s = x.snd().snd();
                pair(c, num(n + s.length()))
            }
        }
    }
}

#[test]
fn test_readme() {
    let mut creation = CreationContext::<Readme>::new(0);

    let (input1, relation1) = creation.create_input();
    let (input2, relation2) = creation.create_input();
    let foo = relation2.split(&mut creation);
    let foo2 = foo.clone(&mut creation);
    let bar = relation1.join(&mut creation, foo2);
    let foo3 = foo.clone(&mut creation);
    let baz = foo3.map(&mut creation, Readme::FirstCharAndLength);
    let mapped = bar.map(&mut creation, Readme::AddLength);
    let both = mapped.concat(&mut creation, baz);
    let qux = both.distinct(&mut creation);
    let arrangement = qux.get_dyn_arrangement(&mut creation);

    let mut context = creation.begin();

    input1.insert(&mut context, pair(Value::Char('a'), num(5)));
    input1.insert(&mut context, pair(Value::Char('b'), num(6)));
    input2.insert(&mut context, pair(Value::Char('b'), text("Hello")));
    input2.insert(&mut context, pair(Value::Char('b'), text("world")));
    context.commit().unwrap();

    assert!(holds(
        arrangement.read(&mut context).unwrap(),
        vec![
            (pair(Value::Char('H'), num(5)), 1),
            (pair(Value::Char('b'), num(11)), 1),
            (pair(Value::Char('w'), num(5)), 1)
        ]
    ));

    input1.delete(&mut context, pair(Value::Char('b'), num(6)));
    input2.insert(&mut context, pair(Value::Char('a'), text("Goodbye")));
    context.commit().unwrap();

    assert!(holds(
        arrangement.read(&mut context).unwrap(),
        vec![
            (pair(Value::Char('G'), num(7)), 1),
            (pair(Value::Char('H'), num(5)), 1),
            (pair(Value::Char('a'), num(12)), 1),
            (pair(Value::Char('w'), num(5)), 1)
        ]
    ));
}

#[test]
fn insert_and_delete_within_a_step_cancel() {
    let mut creation = CreationContext::<AddOne>::new(0);
    let (sender, v) = creation.create_input();
    let outp = v.get_arrangement(&mut creation, false);
    let mut execution = creation.begin();
    sender.insert(&mut execution, num(1));
    execution.commit().unwrap();
    match outp.read(&mut execution).unwrap() {
        Arranged::Flat(m) => assert!(holds(m, vec![(num(1), 1)])),
        Arranged::Grouped(_) => panic!("flat map expected"),
    }
    sender.insert(&mut execution, num(2));
    sender.delete(&mut execution, num(2));
    execution.commit().unwrap();
    match outp.read(&mut execution).unwrap() {
        Arranged::Flat(m) => assert!(holds(m, vec![(num(1), 1)])),
        Arranged::Grouped(_) => panic!("flat map expected"),
    }
    // nothing was sent for the record that came and went
    assert_eq!(execution.dump_dot().nodes[0].message_count, 1);
}

#[test]
fn distinct_of_distinct_is_distinct() {
    let mut creation = CreationContext::<AddOne>::new(0);
    let (sender, v) = creation.create_input();
    let once = v.distinct(&mut creation).split(&mut creation);
    let twice = once
        .clone(&mut creation)
        .distinct(&mut creation)
        .get_arrangement(&mut creation, false);
    let once = once.get_arrangement(&mut creation, false);
    let mut execution = creation.begin();
    sender.update(&mut execution, num(1), 3);
    sender.update(&mut execution, num(2), -2);
    sender.update(&mut execution, num(3), 1);
    execution.commit().unwrap();
    let first = match once.read(&mut execution).unwrap() {
        Arranged::Flat(m) => m.to_vec(),
        Arranged::Grouped(_) => panic!("flat map expected"),
    };
    match twice.read(&mut execution).unwrap() {
        Arranged::Flat(m) => assert!(holds(m, first.clone())),
        Arranged::Grouped(_) => panic!("flat map expected"),
    }
    assert!(holds(
        &WeightMap::from_vec(first),
        vec![(num(1), 1), (num(2), 1), (num(3), 1)]
    ));
    sender.update(&mut execution, num(2), 2);
    execution.commit().unwrap();
    let first = match once.read(&mut execution).unwrap() {
        Arranged::Flat(m) => m.to_vec(),
        Arranged::Grouped(_) => panic!("flat map expected"),
    };
    match twice.read(&mut execution).unwrap() {
        Arranged::Flat(m) => assert!(holds(m, first.clone())),
        Arranged::Grouped(_) => panic!("flat map expected"),
    }
    assert!(holds(
        &WeightMap::from_vec(first),
        vec![(num(1), 1), (num(3), 1)]
    ));
}

#[test]
fn an_input_that_was_never_written_has_no_last_change() {
    let mut input = InputInner::new();
    assert_eq!(input.latest_update(0), None);
    assert_eq!(input.latest_update(3), None);
    input.update(3, None, num(1), 1);
    // what is written during a step is not seen during that step
    assert_eq!(input.latest_update(3), None);
    assert_eq!(input.latest_update(4), Some(3));
    assert_eq!(input.flow(4), vec![(num(1), 1)]);
    // a step without changes leaves no trace
    assert_eq!(input.latest_update(9), Some(3));
    assert_eq!(input.flow(9), vec![]);
}

#[test]
fn a_reader_pulls_only_for_changes_since_it_last_pulled() {
    let mut creation = CreationContext::<AddOne>::new(0);
    let (sender, v) = creation.create_input();
    let outp = v.get_arrangement(&mut creation, false);
    let mut execution = creation.begin();
    // nothing was written yet
    assert!(!execution
        .graph
        .needs_update(outp.id, &Step::Last(0), &Step::Last(0)));
    execution.commit().unwrap();
    assert!(!execution
        .graph
        .needs_update(outp.id, &Step::Last(0), &Step::Last(1)));
    sender.insert(&mut execution, num(1));
    // what is written during a step is seen after the commit
    assert!(!execution
        .graph
        .needs_update(outp.id, &Step::Last(0), &Step::Last(1)));
    execution.commit().unwrap();
    assert!(execution
        .graph
        .needs_update(outp.id, &Step::Last(0), &Step::Last(2)));
    assert!(execution
        .graph
        .needs_update(outp.id, &Step::Last(1), &Step::Last(2)));
    assert!(!execution
        .graph
        .needs_update(outp.id, &Step::Last(2), &Step::Last(2)));
}

#[test]
fn handles_stay_those_of_their_context() {
    let mut creation = CreationContext::<AddOne>::new(7);
    let (sender, v) = creation.create_input();
    let mapped = v.map(&mut creation, AddOne);
    assert!(mapped.check(&creation));
    let outp = mapped.get_arrangement(&mut creation, false);
    let mut execution = creation.begin();
    assert!(execution.has_input(&sender));
    assert!(execution.has_arrangement(outp.context_id, outp.id));
    assert!(execution.has_flat_arrangement(outp.context_id, outp.id));
    // the arrangement is no input, and the input no arrangement
    assert!(!execution.has_arrangement(sender.context_id, sender.id));
    sender.insert(&mut execution, num(1));
    execution.commit().unwrap();
    assert!(holds(
        match outp.read(&mut execution).unwrap() {
            Arranged::Flat(m) => m,
            Arranged::Grouped(_) => panic!("flat map expected"),
        },
        vec![(num(2), 1)]
    ));
    assert!(execution.has_input(&sender));
    assert!(execution.has_arrangement(outp.context_id, outp.id));
    assert_eq!(execution.rejection(&sender), None);
    assert_eq!(execution.fault(), None);
}

/// `(k, (b, a))` becomes `(k, (a, b))`.
struct ExchangeParts;

impl Function for ExchangeParts {
    fn call_spec(&self, x: Value) -> Value {
        self.call(&x)
    }

    fn call(&self, x: &Value) -> Value {
        let parts = x.snd();
        pair(x.fst(), pair(parts.snd(), parts.fst()))
    }
}

fn flat_of(m: &Arranged) -> Vec<(Value, isize)> {
    match m {
        Arranged::Flat(m) => m.to_vec(),
        Arranged::Grouped(_) => panic!("flat map expected"),
    }
}

#[test]
fn a_join_and_the_join_the_other_way_round_are_arranged_alike() {
    let mut creation = CreationContext::<ExchangeParts>::new(0);
    let (left_input, left) = creation.create_input();
    let (right_input, right) = creation.create_input();
    let left = left.split(&mut creation);
    let right = right.split(&mut creation);
    let left_again = left.clone(&mut creation);
    let right_again = right.clone(&mut creation);
    let one = left
        .join(&mut creation, right)
        .get_arrangement(&mut creation, false);
    let other = right_again
        .join(&mut creation, left_again)
        .map(&mut creation, ExchangeParts)
        .get_arrangement(&mut creation, false);
    let mut execution = creation.begin();
    left_input.update(&mut execution, pair(num(1), num(10)), 2);
    left_input.insert(&mut execution, pair(num(2), num(20)));
    right_input.update(&mut execution, pair(num(1), num(100)), 3);
    execution.commit().unwrap();
    let first = flat_of(one.read(&mut execution).unwrap());
    assert!(holds(
        &WeightMap::from_vec(first.clone()),
        vec![(pair(num(1), pair(num(10), num(100))), 6)]
    ));
    let second = flat_of(other.read(&mut execution).unwrap());
    assert!(holds(&WeightMap::from_vec(second), first));
    // the one is read at every step, the other two steps later
    right_input.update(&mut execution, pair(num(2), num(200)), -1);
    left_input.delete(&mut execution, pair(num(1), num(10)));
    execution.commit().unwrap();
    let first = flat_of(one.read(&mut execution).unwrap());
    assert!(holds(
        &WeightMap::from_vec(first),
        vec![
            (pair(num(1), pair(num(10), num(100))), 3),
            (pair(num(2), pair(num(20), num(200))), -1)
        ]
    ));
    right_input.update(&mut execution, pair(num(1), num(100)), -3);
    execution.commit().unwrap();
    let first = flat_of(one.read(&mut execution).unwrap());
    assert!(holds(
        &WeightMap::from_vec(first.clone()),
        vec![(pair(num(2), pair(num(20), num(200))), -1)]
    ));
    let second = flat_of(other.read(&mut execution).unwrap());
    assert!(holds(&WeightMap::from_vec(second), first));
}

#[test]
fn a_distinct_and_a_distinct_of_a_distinct_beside_it_are_arranged_alike() {
    let mut creation = CreationContext::<AddOne>::new(0);
    let (sender, relation) = creation.create_input();
    let relation = relation.split(&mut creation);
    let beside = relation.clone(&mut creation);
    let once = relation
        .distinct(&mut creation)
        .get_arrangement(&mut creation, false);
    let twice = beside
        .distinct(&mut creation)
        .distinct(&mut creation)
        .get_arrangement(&mut creation, false);
    let mut execution = creation.begin();
    sender.update(&mut execution, num(1), 3);
    sender.update(&mut execution, num(2), -2);
    execution.commit().unwrap();
    let first = flat_of(once.read(&mut execution).unwrap());
    assert!(holds(
        &WeightMap::from_vec(first.clone()),
        vec![(num(1), 1), (num(2), 1)]
    ));
    let second = flat_of(twice.read(&mut execution).unwrap());
    assert!(holds(&WeightMap::from_vec(second), first));
    // the second is read late, and has missed nothing
    sender.update(&mut execution, num(2), 2);
    execution.commit().unwrap();
    let first = flat_of(once.read(&mut execution).unwrap());
    assert!(holds(&WeightMap::from_vec(first), vec![(num(1), 1)]));
    sender.insert(&mut execution, num(3));
    execution.commit().unwrap();
    let first = flat_of(once.read(&mut execution).unwrap());
    let second = flat_of(twice.read(&mut execution).unwrap());
    assert!(holds(
        &WeightMap::from_vec(first.clone()),
        vec![(num(1), 1), (num(3), 1)]
    ));
    assert!(holds(&WeightMap::from_vec(second), first));
}

#[test]
fn receivers_see_every_record_once_whenever_they_are_read() {
    let mut creation = CreationContext::<AddOne>::new(0);
    let (sender, relation) = creation.create_input();
    let first = relation.split(&mut creation);
    let second = first.clone(&mut creation);
    let third = second.clone(&mut creation);
    let first = first.get_arrangement(&mut creation, false);
    let second = second.get_arrangement(&mut creation, false);
    let third = third.get_arrangement(&mut creation, false);
    let mut execution = creation.begin();
    sender.update(&mut execution, num(1), 2);
    execution.commit().unwrap();
    assert_eq!(flat_of(first.read(&mut execution).unwrap()), vec![(num(1), 2)]);
    assert_eq!(flat_of(first.read(&mut execution).unwrap()), vec![(num(1), 2)]);
    sender.update(&mut execution, num(1), -1);
    sender.insert(&mut execution, num(2));
    execution.commit().unwrap();
    // the second was not read at the step before, and has missed nothing
    assert!(holds(
        &WeightMap::from_vec(flat_of(second.read(&mut execution).unwrap())),
        vec![(num(1), 1), (num(2), 1)]
    ));
    assert!(holds(
        &WeightMap::from_vec(flat_of(first.read(&mut execution).unwrap())),
        vec![(num(1), 1), (num(2), 1)]
    ));
    execution.commit().unwrap();
    assert!(holds(
        &WeightMap::from_vec(flat_of(third.read(&mut execution).unwrap())),
        vec![(num(1), 1), (num(2), 1)]
    ));
    // the input sent one record at each of two steps
    let picture = execution.dump_dot();
    assert_eq!(picture.nodes.len(), 1);
    assert_eq!(picture.nodes[0].message_count, 3);
}

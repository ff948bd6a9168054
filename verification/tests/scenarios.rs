use dataflow::feedback::{FeedbackCreationContext, Leaf};
use dataflow::{
    Arranged, Change, CreationContext, Error, Function, IsFeedbackContext, NoFunction, Value,
    WeightMap,
};

fn num(n: usize) -> Value {
    Value::Nat(n)
}

enum Count {
    /// n becomes n + 1
    Next,
    /// whether n is below five
    BelowFive,
    /// whether n is a hundred or more
    Hundred,
}

impl Function for Count {
    fn call_spec(&self, x: Value) -> Value {
        self.call(&x)
    }

    fn call(&self, x: &Value) -> Value {
        let n = match x {
            Value::Nat(n) => *n,
            _ => 0,
        };
        match self {
            Count::Next => Value::Nat(n + 1),
            Count::BelowFive => Value::Bool(n < 5),
            Count::Hundred => Value::Bool(n >= 100),
        }
    }
}

fn flat(m: &Arranged) -> &WeightMap {
    match m {
        Arranged::Flat(m) => m,
        Arranged::Grouped(_) => panic!("flat map expected"),
    }
}

#[test]
fn temporary_changes_are_seen_and_taken_back() {
    let mut creation = CreationContext::<NoFunction>::new(1);
    let (input, relation) = creation.create_input();
    let arrangement = relation
        .distinct(&mut creation)
        .get_arrangement(&mut creation, false);
    let mut context = creation.begin();
    input.insert(&mut context, num(10));
    context.commit().unwrap();
    assert!(flat(arrangement.read(&mut context).unwrap())
        .same_as(&WeightMap::from_vec(vec![(num(10), 1)])));

    let seen = context
        .with_temp_changes(
            &vec![Change {
                input,
                record: num(20),
                weight: 1,
            }],
            &vec![arrangement],
        )
        .unwrap();
    assert_eq!(seen.len(), 1);
    assert!(WeightMap::from_vec(seen[0].clone())
        .same_as(&WeightMap::from_vec(vec![(num(10), 1), (num(20), 1)])));

    assert!(flat(arrangement.read(&mut context).unwrap())
        .same_as(&WeightMap::from_vec(vec![(num(10), 1)])));
    assert_eq!(context.step(), 5);
}

#[test]
fn temporary_changes_step_by_step() {
    let mut creation = CreationContext::<NoFunction>::new(1);
    let (input, relation) = creation.create_input();
    let arrangement = relation.get_arrangement(&mut creation, false);
    let mut context = creation.begin();
    input.update(&mut context, num(1), 3);
    let prev = context.begin_temp_changes().unwrap();
    assert_eq!(prev, None);
    let id = context.step();
    input.update(&mut context, num(1), 4);
    input.update(&mut context, num(2), -2);
    context.end_temp_changes(prev).unwrap();
    assert!(flat(arrangement.read(&mut context).unwrap())
        .same_as(&WeightMap::from_vec(vec![(num(1), 7), (num(2), -2)])));
    context.commit().unwrap();
    context.undo_temp_changes(id).unwrap();
    assert!(flat(arrangement.read(&mut context).unwrap())
        .same_as(&WeightMap::from_vec(vec![(num(1), 3)])));
}

#[test]
fn feedback_counts_to_four() {
    let mut creation = FeedbackCreationContext::new(CreationContext::<Count>::new(2));
    let (counter, relation) = creation.get_mut().create_input();
    let known = relation.split(creation.get_mut());
    let next = known
        .clone(creation.get_mut())
        .map(creation.get_mut(), Count::Next)
        .filter(creation.get_mut(), Count::BelowFive)
        .split(creation.get_mut());
    let arrangement = next
        .clone(creation.get_mut())
        .get_arrangement(creation.get_mut(), false);
    // only what the counter does not hold yet goes back into it
    let news = next
        .set_minus(creation.get_mut(), known)
        .get_arrangement(creation.get_mut(), false);
    news.feedback(counter, &mut creation);
    let mut context = creation.begin_feedback();
    counter.insert(context.get_mut(), num(0));
    assert!(context.commit());
    assert!(flat(arrangement.read(context.get_mut()).unwrap()).same_as(&WeightMap::from_vec(
        vec![(num(1), 1), (num(2), 1), (num(3), 1), (num(4), 1)]
    )));
    assert!(flat(news.read(context.get_mut()).unwrap()).same_as(&WeightMap::new()));
    assert_eq!(context.get().fault(), None);
    assert_eq!(context.get().step(), 5);
}

#[test]
fn an_interrupt_halts_the_feedback() {
    let mut creation = FeedbackCreationContext::new(CreationContext::<Count>::new(3));
    let (counter, relation) = creation.get_mut().create_input();
    let known = relation.split(creation.get_mut());
    let next = known
        .clone(creation.get_mut())
        .map(creation.get_mut(), Count::Next)
        .split(creation.get_mut());
    let sentinel = next
        .clone(creation.get_mut())
        .filter(creation.get_mut(), Count::Hundred)
        .get_arrangement(creation.get_mut(), false);
    let news = next
        .set_minus(creation.get_mut(), known)
        .get_arrangement(creation.get_mut(), false);
    sentinel.interrupt(&mut creation);
    news.feedback(counter, &mut creation);
    let mut context = creation.begin_feedback();
    counter.insert(context.get_mut(), num(0));
    assert!(context.commit());
    assert!(flat(sentinel.read(context.get_mut()).unwrap())
        .same_as(&WeightMap::from_vec(vec![(num(100), 1)])));
    // the hundred was found and never fed back
    assert!(flat(news.read(context.get_mut()).unwrap())
        .same_as(&WeightMap::from_vec(vec![(num(100), 1)])));
    assert_eq!(context.get().step(), 100);
}

#[test]
fn a_handle_of_another_context_is_told_apart() {
    let mut first = CreationContext::<NoFunction>::new(1);
    let mut second = CreationContext::<NoFunction>::new(2);
    let (input, relation) = first.create_input();
    let (_, other) = second.create_input();
    assert!(relation.check(&first));
    assert!(!relation.check(&second));
    assert!(!other.check(&first));
    let arrangement = relation.get_arrangement(&mut first, false);
    let mut context = second.begin();
    assert!(!context.has_input(&input));
    assert_eq!(context.rejection(&input), Some(Error::ContextMismatch));
    assert!(!context.has_arrangement(arrangement.context_id, arrangement.id));
    // changes that are made for a while are tested one by one
    assert_eq!(
        context
            .with_temp_changes(
                &vec![Change { input, record: num(1), weight: 1 }],
                &vec![]
            )
            .unwrap_err(),
        Error::ContextMismatch
    );
    let mut context = first.begin();
    assert!(context.has_input(&input));
    assert_eq!(context.rejection(&input), None);
    assert!(context.has_arrangement(arrangement.context_id, arrangement.id));
    input.insert(&mut context, num(1));
    context.commit().unwrap();
    assert!(flat(arrangement.read(&mut context).unwrap())
        .same_as(&WeightMap::from_vec(vec![(num(1), 1)])));
}

#[test]
fn links_that_are_fed_together_share_a_step() {
    // two counters, each fed what it does not hold yet of its successors
    let mut creation = FeedbackCreationContext::new(CreationContext::<Count>::new(4));
    let mut links = Vec::new();
    let mut counters = Vec::new();
    let mut arrangements = Vec::new();
    for _ in 0..2 {
        let (counter, relation) = creation.get_mut().create_input();
        let known = relation.split(creation.get_mut());
        let next = known
            .clone(creation.get_mut())
            .map(creation.get_mut(), Count::Next)
            .filter(creation.get_mut(), Count::BelowFive)
            .split(creation.get_mut());
        let all = next
            .clone(creation.get_mut())
            .get_arrangement(creation.get_mut(), false);
        let news = next
            .set_minus(creation.get_mut(), known)
            .get_arrangement(creation.get_mut(), false);
        links.push(Leaf {
            from: news,
            to: counter,
            ordered: false,
        });
        counters.push(counter);
        arrangements.push(all);
    }
    creation.together(links);
    let mut context = creation.begin_feedback();
    counters[0].insert(context.get_mut(), num(0));
    counters[1].insert(context.get_mut(), num(2));
    assert!(context.commit());
    assert!(flat(arrangements[0].read(context.get_mut()).unwrap()).same_as(
        &WeightMap::from_vec(vec![(num(1), 1), (num(2), 1), (num(3), 1), (num(4), 1)])
    ));
    assert!(flat(arrangements[1].read(context.get_mut()).unwrap())
        .same_as(&WeightMap::from_vec(vec![(num(3), 1), (num(4), 1)])));
    // the first counter took four passes, and the second went along
    assert_eq!(context.get().step(), 5);
}

#[test]
fn an_ordered_link_feeds_the_least_key_only() {
    let mut creation = FeedbackCreationContext::new(CreationContext::<NoFunction>::new(5));
    let (events, relation) = creation.get_mut().create_input();
    let (done, done_rel) = creation.get_mut().create_input();
    let done_rel = done_rel.split(creation.get_mut());
    let handled = done_rel
        .clone(creation.get_mut())
        .get_arrangement(creation.get_mut(), true);
    // the events that were not handled yet, by their time
    let waiting = relation
        .set_minus(creation.get_mut(), done_rel)
        .get_arrangement(creation.get_mut(), true);
    waiting.step_feedback(done, &mut creation);
    let mut context = creation.begin_feedback();
    for (time, what) in [(3, 30), (1, 10), (1, 11), (2, 20)] {
        events
            .insert(context.get_mut(), Value::pair(num(time), num(what)));
    }
    assert!(context.commit());
    // one time was handled in each pass
    assert_eq!(context.get().step(), 4);
    match handled.read(context.get_mut()).unwrap() {
        Arranged::Grouped(g) => {
            assert_eq!(g.len(), 3);
            assert_eq!(g.get(&num(1)).unwrap().len(), 2);
        }
        Arranged::Flat(_) => panic!("grouped map expected"),
    }
}

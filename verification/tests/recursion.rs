use dataflow::{Arranged, CreationContext, ExecutionContext, Function, Value, WeightMap};
use dataflow::arrangement::ArrangementG;

fn ch(c: char) -> Value {
    Value::Char(c)
}

fn pair(a: Value, b: Value) -> Value {
    Value::pair(a, b)
}

fn edge(a: char, b: char) -> Value {
    pair(ch(a), ch(b))
}

enum Path {
    /// e becomes ((), e)
    TagUnit,
    /// ((), (x, y)) becomes (y, x)
    BackEdge,
    /// (_, (x, z)) becomes (x, z)
    DropKey,
    /// (u, v) becomes ((u, v), 1)
    FirstHop,
    /// (dist, (x, y)) becomes (y, (x, dist))
    ByTarget,
    /// (_, ((x, dist), y)) becomes ((x, y), dist + 1)
    Extend,
    /// (e, dist) becomes (dist, e)
    ByDistance,
}

impl Function for Path {
    fn call_spec(&self, x: Value) -> Value {
        self.call(&x)
    }

    fn call(&self, x: &Value) -> Value {
        match self {
            Path::TagUnit => pair(Value::Unit, x.clone()),
            Path::BackEdge => pair(x.snd().snd(), x.snd().fst()),
            Path::DropKey => x.snd(),
            Path::FirstHop => pair(x.clone(), Value::Nat(1)),
            Path::ByTarget => {
                let dist = x.fst();
                let from = x.snd().fst();
                let to = x.snd().snd();
                pair(to, pair(from, dist))
            }
            Path::Extend => {
                let from = x.snd().fst().fst();
                let dist = match x.snd().fst().snd() {
                    Value::Nat(d) => d,
                    _ => 0,
                };
                let to = x.snd().snd();
                pair(pair(from, to), Value::Nat(dist + 1))
            }
            Path::ByDistance => pair(x.snd(), x.fst()),
        }
    }
}

fn flat<'a>(arr: &ArrangementG, context: &'a mut ExecutionContext<Path>) -> &'a WeightMap {
    match arr.read(context).unwrap() {
        Arranged::Flat(m) => m,
        Arranged::Grouped(_) => panic!("flat map expected"),
    }
}

#[test]
fn transitive_closure_of_an_acyclic_graph() {
    let mut creation = CreationContext::<Path>::new(7);
    let (edges_inp, edges) = creation.create_input();
    let edges = edges.split(&mut creation);
    let edges_inside = edges.clone(&mut creation);
    let sub = creation.subgraph();
    let (closure_var, closure) = sub.variable(&mut creation);
    let longer = closure
        .map(&mut creation, Path::BackEdge)
        .join(&mut creation, edges_inside)
        .map(&mut creation, Path::DropKey);
    let next = edges
        .concat(&mut creation, longer)
        .distinct(&mut creation)
        .split(&mut creation);
    let fed_back = next
        .clone(&mut creation)
        .map(&mut creation, Path::TagUnit);
    closure_var.set(&mut creation, fed_back);
    let finalizer = sub.finish();
    let out = next
        .leave(&mut creation, &finalizer)
        .get_arrangement(&mut creation, false);

    let mut context = creation.begin();
    for (a, b) in [('A', 'B'), ('B', 'C'), ('A', 'C'), ('D', 'E')] {
        edges_inp.insert(&mut context, edge(a, b));
    }
    context.commit().unwrap();
    {
        let m = flat(&out, &mut context);
        for (a, b) in [('A', 'B'), ('B', 'C'), ('A', 'C'), ('D', 'E')] {
            assert_eq!(m.get(&edge(a, b)), 1);
        }
        assert_eq!(m.len(), 4);
    }
    assert_eq!(context.fault(), None);

    edges_inp.insert(&mut context, edge('C', 'D'));
    context.commit().unwrap();
    {
        let m = flat(&out, &mut context);
        for (a, b) in [
            ('A', 'B'),
            ('B', 'C'),
            ('A', 'C'),
            ('D', 'E'),
            ('C', 'D'),
            ('A', 'D'),
            ('B', 'D'),
            ('C', 'E'),
            ('A', 'E'),
            ('B', 'E'),
        ] {
            assert_eq!(m.get(&edge(a, b)), 1);
        }
        assert_eq!(m.len(), 10);
    }
    assert_eq!(context.fault(), None);
}

fn shortest_paths(round_limit: usize) -> (
    dataflow::Input,
    ArrangementG,
    ExecutionContext<Path>,
) {
    let mut creation = CreationContext::<Path>::new(8);
    creation.set_round_limit(round_limit);
    let (edges_inp, edges) = creation.create_input();
    let edges = edges.split(&mut creation);
    let edges_inside = edges.clone(&mut creation);
    let sub = creation.subgraph();
    let (closure_var, closure) = sub.variable(&mut creation);
    let longer = closure
        .map(&mut creation, Path::ByTarget)
        .join(&mut creation, edges_inside)
        .map(&mut creation, Path::Extend);
    let next = edges
        .map(&mut creation, Path::FirstHop)
        .concat(&mut creation, longer)
        .group_min(&mut creation)
        .split(&mut creation);
    let fed_back = next
        .clone(&mut creation)
        .map(&mut creation, Path::ByDistance);
    closure_var.set(&mut creation, fed_back);
    let finalizer = sub.finish();
    let out = next
        .leave(&mut creation, &finalizer)
        .get_arrangement(&mut creation, false);
    (edges_inp, out, creation.begin())
}

fn path(a: char, b: char, d: usize) -> Value {
    pair(edge(a, b), Value::Nat(d))
}

#[test]
fn shortest_paths_in_a_cyclic_graph() {
    let (edges_inp, out, mut context) = shortest_paths(usize::MAX);
    for (a, b) in [('A', 'B'), ('B', 'C'), ('C', 'A'), ('D', 'E')] {
        edges_inp.insert(&mut context, edge(a, b));
    }
    context.commit().unwrap();
    {
        let m = flat(&out, &mut context);
        let expected = vec![
            (path('A', 'B', 1), 1),
            (path('B', 'C', 1), 1),
            (path('C', 'A', 1), 1),
            (path('A', 'C', 2), 1),
            (path('B', 'A', 2), 1),
            (path('C', 'B', 2), 1),
            (path('A', 'A', 3), 1),
            (path('B', 'B', 3), 1),
            (path('C', 'C', 3), 1),
            (path('D', 'E', 1), 1),
        ];
        assert!(m.same_as(&WeightMap::from_vec(expected)));
    }
    assert_eq!(context.fault(), None);

    edges_inp.delete(&mut context, edge('C', 'A'));
    context.commit().unwrap();
    {
        let m = flat(&out, &mut context);
        let expected = vec![
            (path('A', 'B', 1), 1),
            (path('B', 'C', 1), 1),
            (path('A', 'C', 2), 1),
            (path('D', 'E', 1), 1),
        ];
        assert!(m.same_as(&WeightMap::from_vec(expected)));
    }
    assert_eq!(context.fault(), None);
}

#[test]
fn a_subgraph_that_runs_out_of_rounds_is_a_fault() {
    let (edges_inp, out, mut context) = shortest_paths(2);
    for (a, b) in [('A', 'B'), ('B', 'C'), ('C', 'A')] {
        edges_inp.insert(&mut context, edge(a, b));
    }
    context.commit().unwrap();
    assert_eq!(out.read(&mut context).unwrap_err(), dataflow::Error::Divergence);
}

#[test]
fn an_empty_subgraph_comes_to_rest_at_once() {
    let (_, out, mut context) = shortest_paths(1);
    context.commit().unwrap();
    assert_eq!(flat(&out, &mut context).len(), 0);
    assert_eq!(context.fault(), None);
}

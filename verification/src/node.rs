//! The nodes of the graph: an operator, and what is known about it.

use crate::arrangement::{ArrangementInner, ArrangementView};
use crate::function::Function;
use crate::operator::Op;
use crate::operator::barrier::Barrier;
use crate::operator::concat::Concat;
use crate::operator::consolidate::Consolidate;
use crate::operator::dynamic::DynOp;
use crate::operator::input::{InputInner, InputView};
use crate::operator::join::{AntiJoin, AntiJoinView, Join, JoinView};
use crate::operator::map::FlatMap;
use crate::operator::reduce::{Reduce, ReduceView};
use crate::operator::split::{Receiver, Source, SourceView};
use crate::operator::subgraph::leave::Leave;
use crate::operator::subgraph::registrar::{RegistrarInner, RegistrarView};
use crate::operator::subgraph::simple_input::{SimpleInput, SimpleInputView};
use crate::operator::triangles::{Triangles, TrianglesView};
use vstd::prelude::*;

verus! {

/// What is known about a node: how it is shown, what it depends on, which
/// inputs can reach it, and how many records it has sent.
pub struct NodeInfo {
    pub name: Option<String>,
    pub operator_name: String,
    pub shown: bool,
    pub message_count: usize,
    pub relation_id: usize,
    pub deps: Vec<usize>,
    pub hideable: bool,
    pub inputs: Vec<usize>,
    pub depth: usize,
}

pub struct InfoView {
    pub name: Option<Seq<char>>,
    pub operator_name: Seq<char>,
    pub shown: bool,
    pub message_count: usize,
    pub relation_id: usize,
    pub deps: Seq<usize>,
    pub hideable: bool,
    pub inputs: Seq<usize>,
    pub depth: usize,
}

impl View for NodeInfo {
    type V = InfoView;

    open spec fn view(&self) -> InfoView {
        InfoView {
            name: match self.name {
                Some(n) => Some(n@),
                None => None,
            },
            operator_name: self.operator_name@,
            shown: self.shown,
            message_count: self.message_count,
            relation_id: self.relation_id,
            deps: self.deps@,
            hideable: self.hideable,
            inputs: self.inputs@,
            depth: self.depth,
        }
    }
}

impl InfoView {
    /// The info after so many more records were sent. The count stays at the
    /// greatest number it can hold.
    pub open spec fn counted(self, n: nat) -> InfoView {
        InfoView {
            message_count: if self.message_count + n > usize::MAX {
                usize::MAX
            } else {
                (self.message_count + n) as usize
            },
            ..self
        }
    }
}

/// The operator of a node.
pub enum Operation<F> {
    Input(InputInner),
    FlatMap(FlatMap<F>),
    Concat(Concat),
    Consolidate(Consolidate),
    Barrier(Barrier),
    Dynamic(DynOp),
    Source(Source),
    Receiver(Receiver),
    Join(Join),
    AntiJoin(AntiJoin),
    Triangles(Triangles),
    Reduce(Reduce<F>),
    Variable(SimpleInput),
    Registrar(RegistrarInner),
    Leave(Leave),
    Arrangement(ArrangementInner),
}

pub enum OperationView<F> {
    Input(InputView),
    FlatMap(FlatMap<F>),
    Concat(Concat),
    Consolidate(Consolidate),
    Barrier(Barrier),
    Dynamic(DynOp),
    Source(SourceView),
    Receiver(Receiver),
    Join(JoinView),
    AntiJoin(AntiJoinView),
    Triangles(TrianglesView),
    Reduce(ReduceView<F>),
    Variable(SimpleInputView),
    Registrar(RegistrarView),
    Leave(Leave),
    Arrangement(ArrangementView),
}

impl<F> View for Operation<F> {
    type V = OperationView<F>;

    open spec fn view(&self) -> OperationView<F> {
        match self {
            Operation::Input(x) => OperationView::Input(x@),
            Operation::FlatMap(x) => OperationView::FlatMap(*x),
            Operation::Concat(x) => OperationView::Concat(*x),
            Operation::Consolidate(x) => OperationView::Consolidate(*x),
            Operation::Barrier(x) => OperationView::Barrier(*x),
            Operation::Dynamic(x) => OperationView::Dynamic(*x),
            Operation::Source(x) => OperationView::Source(x@),
            Operation::Receiver(x) => OperationView::Receiver(*x),
            Operation::Join(x) => OperationView::Join(x@),
            Operation::AntiJoin(x) => OperationView::AntiJoin(x@),
            Operation::Triangles(x) => OperationView::Triangles(x@),
            Operation::Reduce(x) => OperationView::Reduce(x@),
            Operation::Variable(x) => OperationView::Variable(x@),
            Operation::Registrar(x) => OperationView::Registrar(x@),
            Operation::Leave(x) => OperationView::Leave(*x),
            Operation::Arrangement(x) => OperationView::Arrangement(x@),
        }
    }
}

impl<F> OperationView<F> {
    /// Every map of the operator is well formed.
    pub open spec fn wf(self) -> bool {
        match self {
            OperationView::Input(x) => x.wf(),
            OperationView::Source(x) => x.wf(),
            OperationView::Join(x) => x.wf(),
            OperationView::AntiJoin(x) => x.wf(),
            OperationView::Triangles(x) => x.wf(),
            OperationView::Reduce(x) => x.wf(),
            OperationView::Variable(x) => x.wf(),
            OperationView::Registrar(x) => x.wf(),
            OperationView::Arrangement(x) => x.wf(),
            _ => true,
        }
    }
}

impl<F: Function> Operation<F> {
    pub open spec fn wf(&self) -> bool {
        self@.wf()
    }

    /// Whether a node with this operator may be hidden.
    pub fn hideable(&self) -> (b: bool)
        ensures
            b == !(self@ is Variable),
    {
        match self {
            Operation::Variable(_) => SimpleInput::hideable(),
            Operation::Input(_) => InputInner::hideable(),
            Operation::FlatMap(_) => FlatMap::<F>::hideable(),
            Operation::Concat(_) => Concat::hideable(),
            Operation::Consolidate(_) => Consolidate::hideable(),
            Operation::Barrier(_) => Barrier::hideable(),
            Operation::Dynamic(_) => DynOp::hideable(),
            Operation::Source(_) => Source::hideable(),
            Operation::Receiver(_) => Receiver::hideable(),
            Operation::Join(_) => Join::hideable(),
            Operation::AntiJoin(_) => AntiJoin::hideable(),
            Operation::Triangles(_) => Triangles::hideable(),
            Operation::Reduce(_) => Reduce::<F>::hideable(),
            Operation::Registrar(_) => RegistrarInner::hideable(),
            Operation::Leave(_) => Leave::hideable(),
            Operation::Arrangement(_) => ArrangementInner::hideable(),
        }
    }

    /// The name that a node with this operator is shown under at first.
    pub fn default_op_name(&self) -> (name: &'static str)
        ensures
            name@ == default_name(self@),
    {
        match self {
            Operation::Input(_) => InputInner::default_op_name(),
            Operation::FlatMap(_) => FlatMap::<F>::default_op_name(),
            Operation::Concat(_) => Concat::default_op_name(),
            Operation::Consolidate(_) => Consolidate::default_op_name(),
            Operation::Barrier(_) => Barrier::default_op_name(),
            Operation::Dynamic(_) => DynOp::default_op_name(),
            Operation::Source(_) => Source::default_op_name(),
            Operation::Receiver(_) => Receiver::default_op_name(),
            Operation::Join(_) => Join::default_op_name(),
            Operation::AntiJoin(_) => AntiJoin::default_op_name(),
            Operation::Triangles(_) => Triangles::default_op_name(),
            Operation::Reduce(_) => Reduce::<F>::default_op_name(),
            Operation::Variable(_) => SimpleInput::default_op_name(),
            Operation::Registrar(_) => RegistrarInner::default_op_name(),
            Operation::Leave(_) => Leave::default_op_name(),
            Operation::Arrangement(_) => ArrangementInner::default_op_name(),
        }
    }
}

/// The name that an operator is shown under at first.
pub open spec fn default_name<F>(op: OperationView<F>) -> Seq<char> {
    match op {
        OperationView::Input(_) => "input"@,
        OperationView::FlatMap(_) => "flat_map_dr"@,
        OperationView::Concat(_) => "concat"@,
        OperationView::Consolidate(_) => "consolidate"@,
        OperationView::Barrier(_) => "barrier"@,
        OperationView::Dynamic(_) => "dynamic"@,
        OperationView::Source(_) => "source"@,
        OperationView::Receiver(_) => "split"@,
        OperationView::Join(_) => "join"@,
        OperationView::AntiJoin(_) => "antijoin"@,
        OperationView::Triangles(_) => "triangles"@,
        OperationView::Reduce(_) => "reduce"@,
        OperationView::Variable(_) => "variable"@,
        OperationView::Registrar(_) => "subgraph"@,
        OperationView::Leave(_) => "leave"@,
        OperationView::Arrangement(_) => "arrangement"@,
    }
}

/// A node: an operator with what is known about it.
pub struct Node<F> {
    pub info: NodeInfo,
    pub inner: Operation<F>,
}

pub struct NodeView<F> {
    pub info: InfoView,
    pub inner: OperationView<F>,
}

impl<F> View for Node<F> {
    type V = NodeView<F>;

    open spec fn view(&self) -> NodeView<F> {
        NodeView { info: self.info@, inner: self.inner@ }
    }
}

} // verus!

//! The typed widget tree produced by the grammar parser, together with its
//! mathematical view and the structural measures used throughout the
//! pipeline (node count, property count, pre-order traversal).

use vstd::prelude::*;
use crate::tokens::{Token, TokenV};

verus! {

/// One named attribute of a widget, bound to an expression. The expression
/// is carried as tokens and is never evaluated by the compiler, only
/// scanned for the identifiers it references.
#[derive(Debug, PartialEq, Eq)]
pub struct Property {
    pub name: String,
    pub expr: Vec<Token>,
}

/// The view of a `Property`.
#[verifier::ext_equal]
pub struct PropertyV {
    pub name: Seq<char>,
    pub expr: Seq<TokenV>,
}

impl DeepView for Property {
    type V = PropertyV;

    open spec fn deep_view(&self) -> PropertyV {
        PropertyV { name: self.name@, expr: self.expr.deep_view() }
    }
}

/// A declared event wired to a message-producing callback: the event's
/// name, the callback's argument list, the expression producing the
/// message, and the expression giving the declared result flag.
#[derive(Debug, PartialEq, Eq)]
pub struct EventBinding {
    pub event_name: String,
    pub handler_args: Vec<String>,
    pub produced_message_expr: Vec<Token>,
    pub result_flags: Vec<Token>,
}

/// The view of an `EventBinding`.
#[verifier::ext_equal]
pub struct EventBindingV {
    pub event_name: Seq<char>,
    pub handler_args: Seq<Seq<char>>,
    pub produced_message_expr: Seq<TokenV>,
    pub result_flags: Seq<TokenV>,
}

impl DeepView for EventBinding {
    type V = EventBindingV;

    open spec fn deep_view(&self) -> EventBindingV {
        EventBindingV {
            event_name: self.event_name@,
            handler_args: self.handler_args.deep_view(),
            produced_message_expr: self.produced_message_expr.deep_view(),
            result_flags: self.result_flags.deep_view(),
        }
    }
}

/// One node of the widget tree: an optional instance name, a type path,
/// the properties bound on the node, the child nodes in declared order,
/// and the declared event bindings.
#[derive(Debug, PartialEq, Eq)]
pub struct WidgetNode {
    pub name: Option<String>,
    pub typ: Vec<String>,
    pub properties: Vec<Property>,
    pub children: Vec<WidgetNode>,
    pub events: Vec<EventBinding>,
}

/// The view of a `WidgetNode`.
#[verifier::ext_equal]
pub struct WidgetNodeV {
    pub name: Option<Seq<char>>,
    pub typ: Seq<Seq<char>>,
    pub properties: Seq<PropertyV>,
    pub children: Seq<WidgetNodeV>,
    pub events: Seq<EventBindingV>,
}

impl WidgetNode {
    /// The mathematical view of the whole tree.
    pub open spec fn dview(&self) -> WidgetNodeV
        decreases self,
    {
        WidgetNodeV {
            name: self.name.deep_view(),
            typ: self.typ.deep_view(),
            properties: self.properties.deep_view(),
            children: dview_seq(self.children@),
            events: self.events.deep_view(),
        }
    }
}

/// The views of a sequence of widget nodes, in order.
pub open spec fn dview_seq(s: Seq<WidgetNode>) -> Seq<WidgetNodeV>
    decreases s,
{
    if s.len() == 0 {
        Seq::empty()
    } else {
        seq![s[0].dview()] + dview_seq(s.skip(1))
    }
}

/// `dview_seq` gives one view per node, each at its own index.
pub proof fn lemma_dview_seq_index(s: Seq<WidgetNode>)
    ensures
        dview_seq(s).len() == s.len(),
        forall|i: int| 0 <= i < s.len() ==> #[trigger] dview_seq(s)[i] == s[i].dview(),
    decreases s.len(),
{
    if s.len() > 0 {
        lemma_dview_seq_index(s.skip(1));
    }
}

impl WidgetNodeV {
    /// The number of nodes in the tree.
    pub open spec fn node_count(self) -> nat
        decreases self,
    {
        1 + node_count_seq(self.children)
    }

    /// The number of properties declared in the whole tree.
    pub open spec fn property_count(self) -> nat
        decreases self,
    {
        self.properties.len() + property_count_seq(self.children)
    }

    /// Every node of the tree carries an instance name.
    pub open spec fn all_named(self) -> bool
        decreases self,
    {
        self.name is Some && (forall|i: int|
            0 <= i < self.children.len() ==> (#[trigger] self.children[i]).all_named())
    }

    /// The pre-order traversal of the tree: each node's name and type,
    /// the node before its children, children in declared order.
    pub open spec fn preorder(self) -> Seq<(Option<Seq<char>>, Seq<Seq<char>>)>
        decreases self,
    {
        seq![(self.name, self.typ)] + preorder_seq(self.children)
    }
}

/// The total node count of a forest.
pub open spec fn node_count_seq(s: Seq<WidgetNodeV>) -> nat
    decreases s,
{
    if s.len() == 0 {
        0
    } else {
        s[0].node_count() + node_count_seq(s.skip(1))
    }
}

/// The total property count of a forest.
pub open spec fn property_count_seq(s: Seq<WidgetNodeV>) -> nat
    decreases s,
{
    if s.len() == 0 {
        0
    } else {
        s[0].property_count() + property_count_seq(s.skip(1))
    }
}

/// The concatenated pre-order traversals of a forest.
pub open spec fn preorder_seq(s: Seq<WidgetNodeV>) -> Seq<(Option<Seq<char>>, Seq<Seq<char>>)>
    decreases s,
{
    if s.len() == 0 {
        Seq::empty()
    } else {
        s[0].preorder() + preorder_seq(s.skip(1))
    }
}

} // verus!

//! The selection tree as the query parser hands it over: fields, fragment
//! spreads and inline fragments, with directive applications and positions.
//! These are read-only inputs to the resolution engine.

use vstd::prelude::*;
use crate::error::Pos;
use crate::value::Value;

verus! {

/// One directive application, such as `@skip(if: $flag)`.
#[derive(Debug)]
pub struct Directive {
    /// The directive's name, without the `@`.
    pub name: String,
    /// Its arguments, in declaration order.
    pub arguments: Vec<(String, Value)>,
    /// Where it stands in the query text.
    pub pos: Pos,
}

/// A list of selection items at one nesting level.
#[derive(Debug)]
pub struct SelectionSet {
    /// The items, in declaration order.
    pub items: Vec<Selection>,
    /// Where the selection set opens.
    pub pos: Pos,
}

/// One requested field, with alias, arguments and sub-selection.
#[derive(Debug)]
pub struct SelectionField {
    /// The alias, if the query gives one.
    pub alias: Option<String>,
    /// The field's name.
    pub name: String,
    /// The arguments, in declaration order.
    pub arguments: Vec<(String, Value)>,
    /// The directives applied to the field.
    pub directives: Vec<Directive>,
    /// The field's own selection set (empty for a leaf).
    pub selection_set: SelectionSet,
    /// Where the field stands in the query text.
    pub pos: Pos,
}

/// A named-fragment spread, `...Name`.
#[derive(Debug)]
pub struct FragmentSpread {
    /// The referenced fragment's name.
    pub fragment_name: String,
    /// The directives applied to the spread.
    pub directives: Vec<Directive>,
    /// Where the spread stands in the query text.
    pub pos: Pos,
}

/// An inline fragment, `... on Type { ... }` or `... { ... }`.
#[derive(Debug)]
pub struct InlineFragment {
    /// The type condition, if the fragment carries one.
    pub type_condition: Option<String>,
    /// The directives applied to the fragment.
    pub directives: Vec<Directive>,
    /// The fragment's selection set.
    pub selection_set: SelectionSet,
    /// Where the fragment stands in the query text.
    pub pos: Pos,
}

/// One selection item.
#[derive(Debug)]
pub enum Selection {
    /// A requested field.
    Field(SelectionField),
    /// A named-fragment spread.
    FragmentSpread(FragmentSpread),
    /// An inline fragment.
    InlineFragment(InlineFragment),
}

/// A named fragment definition.
#[derive(Debug)]
pub struct FragmentDefinition {
    /// The fragment's name.
    pub name: String,
    /// The type the fragment is declared on.
    pub type_condition: String,
    /// The fragment's selection set.
    pub selection_set: SelectionSet,
    /// Where the definition stands in the query text.
    pub pos: Pos,
}

/// The body of a named operation.
#[derive(Debug)]
pub struct OperationBody {
    /// The operation's name, if the query gives one.
    pub name: Option<String>,
    /// The operation's selection set.
    pub selection_set: SelectionSet,
    /// Where the operation stands in the query text.
    pub pos: Pos,
}

/// One operation definition: a bare selection set, or a named query,
/// mutation or subscription.
#[derive(Debug)]
pub enum OperationDefinition {
    /// A bare selection set.
    SelectionSet(SelectionSet),
    /// A query operation.
    Query(OperationBody),
    /// A mutation operation.
    Mutation(OperationBody),
    /// A subscription operation.
    Subscription(OperationBody),
}

/// The name under which an operation was declared, if any, and its
/// position.
pub fn operation_name(operation_definition: &OperationDefinition) -> (r: (Option<&str>, Pos))
    ensures
        match operation_definition {
            OperationDefinition::SelectionSet(s) => r.0 is None && r.1 == s.pos,
            OperationDefinition::Query(q) => r.1 == q.pos && (match q.name {
                Some(n) => r.0 is Some && r.0->0@ == n@,
                None => r.0 is None,
            }),
            OperationDefinition::Mutation(m) => r.1 == m.pos && (match m.name {
                Some(n) => r.0 is Some && r.0->0@ == n@,
                None => r.0 is None,
            }),
            OperationDefinition::Subscription(s) => r.1 == s.pos && (match s.name {
                Some(n) => r.0 is Some && r.0->0@ == n@,
                None => r.0 is None,
            }),
        },
{
    match operation_definition {
        OperationDefinition::SelectionSet(selection_set) => (None, selection_set.pos),
        OperationDefinition::Query(query) => {
            match &query.name {
                Some(n) => (Some(n.as_str()), query.pos),
                None => (None, query.pos),
            }
        },
        OperationDefinition::Mutation(mutation) => {
            match &mutation.name {
                Some(n) => (Some(n.as_str()), mutation.pos),
                None => (None, mutation.pos),
            }
        },
        OperationDefinition::Subscription(subscription) => {
            match &subscription.name {
                Some(n) => (Some(n.as_str()), subscription.pos),
                None => (None, subscription.pos),
            }
        },
    }
}

} // verus!

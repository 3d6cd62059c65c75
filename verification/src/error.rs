//! The error taxonomy of the core: structured resolution errors with a
//! source position, and free-text validation messages.

use vstd::prelude::*;

verus! {

/// A position in the query text.
#[derive(Clone, Copy, PartialEq, Eq, Structural, Debug)]
pub struct Pos {
    /// One-based line.
    pub line: u64,
    /// One-based column.
    pub column: u64,
}

impl Default for Pos {
    /// Line and column zero: an unknown position.
    fn default() -> (r: Self)
        ensures
            r.line == 0 && r.column == 0,
    {
        Pos { line: 0, column: 0 }
    }
}

/// The structured error kinds a query can fail with.
#[derive(Clone, Debug, PartialEq)]
pub enum QueryError {
    /// A composite-typed selection with zero sub-fields.
    EmptySelection {
        /// The name of the composite type whose selection is empty.
        object: String,
    },
    /// A queried field is absent from the static schema type.
    FieldNotFound {
        /// The name of the missing field.
        field_name: String,
        /// The name of the type it was looked up on.
        object: String,
    },
    /// A fragment spread references an undeclared fragment name.
    UnknownFragment {
        /// The fragment name.
        name: String,
    },
    /// A fragment spread re-enters a fragment that is still being expanded;
    /// such a query can never finish expanding.
    FragmentCycle {
        /// The cycling fragment name.
        name: String,
    },
    /// A resolver-level, user-defined failure.
    FieldError {
        /// The resolver's message.
        err: String,
    },
    /// A free-text, path-qualified message from value validation.
    ValidationFailure {
        /// The message, carrying the query path trail.
        message: String,
    },
    /// A type-reference string that does not parse.
    MalformedTypeReference {
        /// The offending reference text.
        reference: String,
    },
    /// A subscription was executed on a schema without one.
    NotConfiguredSubscriptions,
}

/// A query error with the position of the node it arose at.
#[derive(Clone, Debug, PartialEq)]
pub struct GqlError {
    /// Where in the query text the failing node stands.
    pub pos: Pos,
    /// The structured kind.
    pub err: QueryError,
}

} // verus!

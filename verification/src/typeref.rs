//! The type-reference algebra: parsing and formatting of the three wrapper
//! forms (named, list, non-null) over a type-name string, and the covariant
//! subtype relation between two parsed references.

use vstd::prelude::*;

verus! {

/// The parsed top layer of a type-reference string, borrowing the inner text.
#[derive(Clone, Copy, PartialEq, Debug)]
pub enum TypeName<'a> {
    /// A list wrapper: the text between the brackets.
    List(&'a str),
    /// A non-null wrapper: the text before the trailing `!`.
    NonNull(&'a str),
    /// A bare named form.
    Named(&'a str),
}

/// The mathematical shape of a parsed reference: the same three forms over
/// character sequences.
pub enum RefShape {
    /// A list wrapper over the inner text.
    List(Seq<char>),
    /// A non-null wrapper over the inner text.
    NonNull(Seq<char>),
    /// A bare named form.
    Named(Seq<char>),
}

impl RefShape {
    /// The inner text of the shape.
    pub open spec fn payload(self) -> Seq<char> {
        match self {
            RefShape::List(s) => s,
            RefShape::NonNull(s) => s,
            RefShape::Named(s) => s,
        }
    }

    /// A termination measure: wrappers weigh one more than their payload.
    pub open spec fn measure(self) -> nat {
        match self {
            RefShape::Named(s) => s.len(),
            RefShape::NonNull(s) => s.len() + 1,
            RefShape::List(s) => s.len() + 1,
        }
    }
}

impl<'a> TypeName<'a> {
    /// The shape of this parsed reference.
    pub open spec fn shape(self) -> RefShape {
        match self {
            TypeName::List(s) => RefShape::List(s@),
            TypeName::NonNull(s) => RefShape::NonNull(s@),
            TypeName::Named(s) => RefShape::Named(s@),
        }
    }
}

/// What parsing one layer of a reference string yields: a trailing `!` is a
/// non-null wrapper, a leading `[` is a list wrapper (the closing bracket is
/// taken from the end), anything else is the named form.
pub open spec fn parse_ref(s: Seq<char>) -> RefShape {
    if s.len() > 0 && s.last() == '!' {
        RefShape::NonNull(s.drop_last())
    } else if s.len() >= 2 && s.first() == '[' {
        RefShape::List(s.subrange(1, s.len() - 1))
    } else {
        RefShape::Named(s)
    }
}

/// A legal reference string: built from the named, list and non-null
/// combinators, with the brackets of every list layer balanced.
pub open spec fn legal_ref(s: Seq<char>) -> bool
    decreases s.len(),
{
    if s.len() == 0 {
        false
    } else if s.last() == '!' {
        legal_ref(s.drop_last())
    } else if s.first() == '[' {
        s.len() >= 2 && s.last() == ']' && legal_ref(s.subrange(1, s.len() - 1))
    } else {
        true
    }
}

/// The exact text a shape formats back to.
pub open spec fn format_shape(t: RefShape) -> Seq<char> {
    match t {
        RefShape::Named(s) => s,
        RefShape::NonNull(s) => s.push('!'),
        RefShape::List(s) => seq!['['] + s + seq![']'],
    }
}

/// The bare declared type name under all wrappers.
pub open spec fn concrete_of(s: Seq<char>) -> Seq<char>
    decreases s.len(),
{
    match parse_ref(s) {
        RefShape::NonNull(t) => concrete_of(t),
        RefShape::List(t) => concrete_of(t),
        RefShape::Named(t) => t,
    }
}

/// A parsed shape is never heavier than the text it came from.
pub proof fn lemma_parse_measure(s: Seq<char>)
    ensures
        parse_ref(s).measure() <= s.len(),
{
}

/// The covariant subtype relation: non-null satisfies a nullable or non-null
/// expectation of the same inner relation, lists are covariant element-wise,
/// named forms require exact name equality, and any other pairing is not a
/// subtype.
pub open spec fn subtype_of(sup: RefShape, sub: RefShape) -> bool
    decreases sup.measure() + sub.measure(),
    via subtype_of_decreases
{
    match (sup, sub) {
        (RefShape::NonNull(a), RefShape::NonNull(b)) => subtype_of(parse_ref(a), parse_ref(b)),
        (RefShape::Named(a), RefShape::NonNull(b)) => subtype_of(parse_ref(a), parse_ref(b)),
        (RefShape::Named(a), RefShape::Named(b)) => a == b,
        (RefShape::List(a), RefShape::List(b)) => subtype_of(parse_ref(a), parse_ref(b)),
        _ => false,
    }
}

#[via_fn]
proof fn subtype_of_decreases(sup: RefShape, sub: RefShape) {
    match (sup, sub) {
        (RefShape::NonNull(a), RefShape::NonNull(b)) => {
            lemma_parse_measure(a);
            lemma_parse_measure(b);
        },
        (RefShape::Named(a), RefShape::NonNull(b)) => {
            lemma_parse_measure(a);
            lemma_parse_measure(b);
        },
        (RefShape::List(a), RefShape::List(b)) => {
            lemma_parse_measure(a);
            lemma_parse_measure(b);
        },
        _ => {},
    }
}

/// A legal reference string parses to a shape whose inner text is legal again
/// (for wrappers), and is always parseable.
pub proof fn lemma_legal_parse(s: Seq<char>)
    requires
        legal_ref(s),
    ensures
        (parse_ref(s) is NonNull || parse_ref(s) is List) ==> legal_ref(parse_ref(s).payload()),
        parse_ref(s) is Named ==> parse_ref(s).payload() == s,
{
}

/// Formatting is the exact inverse of parsing on every legal reference
/// string.
pub proof fn lemma_format_parse_roundtrip(s: Seq<char>)
    requires
        legal_ref(s),
    ensures
        format_shape(parse_ref(s)) == s,
{
    if s.last() == '!' {
        assert(format_shape(parse_ref(s)) =~= s);
    } else if s.first() == '[' {
        assert(format_shape(parse_ref(s)) =~= s);
    } else {
        assert(format_shape(parse_ref(s)) =~= s);
    }
}

/// The subtype relation is reflexive on every shape.
pub proof fn lemma_subtype_reflexive(t: RefShape)
    ensures
        subtype_of(t, t),
    decreases t.measure(),
{
    match t {
        RefShape::NonNull(a) => {
            lemma_parse_measure(a);
            lemma_subtype_reflexive(parse_ref(a));
        },
        RefShape::List(a) => {
            lemma_parse_measure(a);
            lemma_subtype_reflexive(parse_ref(a));
        },
        RefShape::Named(a) => {},
    }
}

/// A type reference as the query parser hands it over: the same three
/// forms, already split into layers.
#[derive(PartialEq, Debug)]
pub enum ParsedType {
    /// A non-null wrapper.
    NonNull(Box<ParsedType>),
    /// A list wrapper.
    List(Box<ParsedType>),
    /// A bare named form.
    Named(String),
}

/// The bare declared type name under all wrappers of a parsed reference.
pub open spec fn parsed_concrete(t: ParsedType) -> Seq<char>
    decreases t,
{
    match t {
        ParsedType::NonNull(inner) => parsed_concrete(*inner),
        ParsedType::List(inner) => parsed_concrete(*inner),
        ParsedType::Named(n) => n@,
    }
}

/// Whether `s` is a legal reference string.
pub fn is_legal_ref(s: &str) -> (r: bool)
    ensures
        r == legal_ref(s@),
    decreases s@.len(),
{
    let n = s.unicode_len();
    if n == 0 {
        false
    } else if s.get_char(n - 1) == '!' {
        let inner = s.substring_char(0, n - 1);
        is_legal_ref(inner)
    } else if s.get_char(0) == '[' {
        if n >= 2 && s.get_char(n - 1) == ']' {
            let inner = s.substring_char(1, n - 1);
            is_legal_ref(inner)
        } else {
            false
        }
    } else {
        true
    }
}

impl<'a> TypeName<'a> {
    /// Parses one layer of a reference string.
    pub fn create(reference: &'a str) -> (r: TypeName<'a>)
        ensures
            r.shape() == parse_ref(reference@),
    {
        let n = reference.unicode_len();
        if n > 0 && reference.get_char(n - 1) == '!' {
            TypeName::NonNull(reference.substring_char(0, n - 1))
        } else if n >= 2 && reference.get_char(0) == '[' {
            TypeName::List(reference.substring_char(1, n - 1))
        } else {
            TypeName::Named(reference)
        }
    }

    /// Parses one layer after checking the whole string for legality; a
    /// malformed reference is rejected with `MalformedTypeReference` rather
    /// than left undefined.
    pub fn parse(reference: &'a str) -> (r: Result<TypeName<'a>, crate::error::QueryError>)
        ensures
            match r {
                Ok(t) => legal_ref(reference@) && t.shape() == parse_ref(reference@),
                Err(e) => !legal_ref(reference@) && (e matches
                    crate::error::QueryError::MalformedTypeReference {
                        reference: q,
                    } && q@ == reference@),
            },
    {
        if is_legal_ref(reference) {
            proof {
                lemma_legal_parse(reference@);
            }
            Ok(TypeName::create(reference))
        } else {
            Err(
                crate::error::QueryError::MalformedTypeReference {
                    reference: reference.to_owned(),
                },
            )
        }
    }

    /// Formats this parsed layer back to its textual form.
    pub fn format(&self) -> (r: String)
        ensures
            r@ == format_shape(self.shape()),
    {
        proof {
            reveal_strlit("!");
            reveal_strlit("[");
            reveal_strlit("]");
        }
        match *self {
            TypeName::Named(s) => s.to_owned(),
            TypeName::NonNull(s) => {
                let r = s.to_owned().concat("!");
                proof {
                    assert(r@ =~= s@.push('!'));
                }
                r
            },
            TypeName::List(s) => {
                let r = "[".to_owned().concat(s).concat("]");
                proof {
                    assert(r@ =~= seq!['['] + s@ + seq![']']);
                }
                r
            },
        }
    }

    /// Strips all wrappers down to the bare declared type name.
    pub fn concrete_typename(reference: &'a str) -> (r: &'a str)
        requires
            legal_ref(reference@),
        ensures
            r@ == concrete_of(reference@),
        decreases reference@.len(),
    {
        proof {
            lemma_legal_parse(reference@);
        }
        match TypeName::create(reference) {
            TypeName::List(inner) => TypeName::concrete_typename(inner),
            TypeName::NonNull(inner) => TypeName::concrete_typename(inner),
            TypeName::Named(inner) => inner,
        }
    }

    /// Whether the top layer is a non-null wrapper.
    pub fn is_non_null(&self) -> (r: bool)
        ensures
            r == (self.shape() is NonNull),
    {
        if let TypeName::NonNull(_) = self {
            true
        } else {
            false
        }
    }

    /// Removes one non-null wrapper, parsing what it wrapped; any other
    /// shape is returned unchanged.
    pub fn unwrap_non_null(&self) -> (r: Self)
        ensures
            r.shape() == match self.shape() {
                RefShape::NonNull(t) => parse_ref(t),
                _ => self.shape(),
            },
    {
        match self {
            TypeName::NonNull(ty) => TypeName::create(ty),
            _ => *self,
        }
    }

    /// Whether `sub` may stand where `self` is expected, covariantly.
    pub fn is_subtype(&self, sub: &TypeName<'_>) -> (r: bool)
        requires
            legal_ref(self.shape().payload()),
            legal_ref(sub.shape().payload()),
        ensures
            r == subtype_of(self.shape(), sub.shape()),
        decreases self.shape().measure() + sub.shape().measure(),
    {
        match (*self, *sub) {
            (TypeName::NonNull(super_type), TypeName::NonNull(sub_type)) => {
                proof {
                    lemma_legal_parse(super_type@);
                    lemma_legal_parse(sub_type@);
                    lemma_parse_measure(super_type@);
                    lemma_parse_measure(sub_type@);
                }
                let a = TypeName::create(super_type);
                let b = TypeName::create(sub_type);
                a.is_subtype(&b)
            },
            (TypeName::Named(super_type), TypeName::NonNull(sub_type)) => {
                proof {
                    lemma_legal_parse(super_type@);
                    lemma_legal_parse(sub_type@);
                    lemma_parse_measure(super_type@);
                    lemma_parse_measure(sub_type@);
                }
                let a = TypeName::create(super_type);
                let b = TypeName::create(sub_type);
                a.is_subtype(&b)
            },
            (TypeName::Named(super_type), TypeName::Named(sub_type)) => {
                crate::strutil::str_eq(super_type, sub_type)
            },
            (TypeName::List(super_type), TypeName::List(sub_type)) => {
                proof {
                    lemma_legal_parse(super_type@);
                    lemma_legal_parse(sub_type@);
                    lemma_parse_measure(super_type@);
                    lemma_parse_measure(sub_type@);
                }
                let a = TypeName::create(super_type);
                let b = TypeName::create(sub_type);
                a.is_subtype(&b)
            },
            _ => false,
        }
    }
}

} // verus!

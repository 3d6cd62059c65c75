//! The JSON-compatible value model that queries carry: literals, variable
//! references, lists and ordered objects. A float literal keeps its lexical
//! text; nothing in this core computes with it.

use vstd::prelude::*;

verus! {

/// A query value: a literal, a bound-variable reference, a list, or an
/// ordered object (declaration order kept, names unique).
#[derive(Debug, PartialEq)]
pub enum Value {
    /// A reference to a bound variable.
    Variable(String),
    /// The null literal.
    Null,
    /// An integer literal.
    Int(i64),
    /// A float literal, kept as its lexical text.
    Float(String),
    /// A string literal.
    Text(String),
    /// A boolean literal.
    Boolean(bool),
    /// An enumeration literal, by name.
    EnumLit(String),
    /// A list of values.
    List(Vec<Value>),
    /// An ordered object: fields in declaration order, names unique.
    Object(Vec<(String, Value)>),
}

/// The mathematical shape of a `Value`.
pub enum ValueView {
    /// A reference to a bound variable.
    Variable(Seq<char>),
    /// The null literal.
    Null,
    /// An integer literal.
    Int(int),
    /// A float literal, as its lexical text.
    Float(Seq<char>),
    /// A string literal.
    Text(Seq<char>),
    /// A boolean literal.
    Boolean(bool),
    /// An enumeration literal, by name.
    EnumLit(Seq<char>),
    /// A list of values.
    List(Seq<ValueView>),
    /// An ordered object.
    Object(Seq<(Seq<char>, ValueView)>),
}

/// The shape of a value.
pub open spec fn value_view(v: Value) -> ValueView
    decreases v,
{
    match v {
        Value::Variable(s) => ValueView::Variable(s@),
        Value::Null => ValueView::Null,
        Value::Int(n) => ValueView::Int(n as int),
        Value::Float(s) => ValueView::Float(s@),
        Value::Text(s) => ValueView::Text(s@),
        Value::Boolean(b) => ValueView::Boolean(b),
        Value::EnumLit(s) => ValueView::EnumLit(s@),
        Value::List(vs) => ValueView::List(list_view(vs@)),
        Value::Object(fs) => ValueView::Object(object_view(fs@)),
    }
}

/// The shapes of a sequence of values, in order.
pub open spec fn list_view(vs: Seq<Value>) -> Seq<ValueView>
    decreases vs,
{
    if vs.len() == 0 {
        Seq::empty()
    } else {
        seq![value_view(vs.first())] + list_view(vs.drop_first())
    }
}

/// The shapes of an object's fields, in order.
pub open spec fn object_view(fs: Seq<(String, Value)>) -> Seq<(Seq<char>, ValueView)>
    decreases fs,
{
    if fs.len() == 0 {
        Seq::empty()
    } else {
        seq![(fs.first().0@, value_view(fs.first().1))] + object_view(fs.drop_first())
    }
}

impl View for Value {
    type V = ValueView;

    open spec fn view(&self) -> ValueView {
        value_view(*self)
    }
}

/// `list_view` maps the sequence index-by-index.
pub proof fn lemma_list_view(vs: Seq<Value>)
    ensures
        list_view(vs).len() == vs.len(),
        forall|i: int| 0 <= i < vs.len() ==> #[trigger] list_view(vs)[i] == value_view(vs[i]),
    decreases vs,
{
    if vs.len() > 0 {
        lemma_list_view(vs.drop_first());
        assert forall|i: int| 0 <= i < vs.len() implies #[trigger] list_view(vs)[i] == value_view(
            vs[i],
        ) by {
            if i == 0 {
                assert(vs.first() == vs[0]);
            } else {
                assert(list_view(vs)[i] == list_view(vs.drop_first())[i - 1]);
                assert(vs.drop_first()[i - 1] == vs[i]);
            }
        }
    }
}

/// `object_view` maps the sequence index-by-index.
pub proof fn lemma_object_view(fs: Seq<(String, Value)>)
    ensures
        object_view(fs).len() == fs.len(),
        forall|i: int|
            0 <= i < fs.len() ==> #[trigger] object_view(fs)[i] == (fs[i].0@, value_view(fs[i].1)),
    decreases fs,
{
    if fs.len() > 0 {
        lemma_object_view(fs.drop_first());
        assert forall|i: int| 0 <= i < fs.len() implies #[trigger] object_view(fs)[i] == (
            fs[i].0@,
            value_view(fs[i].1),
        ) by {
            if i == 0 {
                assert(fs.first() == fs[0]);
            } else {
                assert(object_view(fs)[i] == object_view(fs.drop_first())[i - 1]);
                assert(fs.drop_first()[i - 1] == fs[i]);
            }
        }
    }
}

impl Clone for Value {
    /// A deep copy with the same mathematical shape.
    #[verifier::loop_isolation(false)]
    fn clone(&self) -> (r: Self)
        ensures
            r@ == self@,
        decreases self,
    {
        match self {
            Value::Variable(s) => Value::Variable(s.clone()),
            Value::Null => Value::Null,
            Value::Int(n) => Value::Int(*n),
            Value::Float(s) => Value::Float(s.clone()),
            Value::Text(s) => Value::Text(s.clone()),
            Value::Boolean(b) => Value::Boolean(*b),
            Value::EnumLit(s) => Value::EnumLit(s.clone()),
            Value::List(vs) => {
                let mut out: Vec<Value> = Vec::new();
                let mut i: usize = 0;
                proof {
                    lemma_list_view(vs@);
                }
                while i < vs.len()
                    invariant
                        i <= vs.len(),
                        out@.len() == i,
                        forall|j: int|
                            0 <= j < i ==> value_view(#[trigger] out@[j]) == value_view(vs@[j]),
                    decreases vs.len() - i,
                {
                    proof {
                        assert(decreases_to!(*self => *vs));
                        assert(decreases_to!(*vs => vs@));
                        assert(decreases_to!(vs@ => vs@[i as int]));
                    }
                    out.push(vs[i].clone());
                    i = i + 1;
                }
                proof {
                    lemma_list_view(out@);
                    lemma_list_view(vs@);
                    assert(list_view(out@) =~= list_view(vs@));
                }
                Value::List(out)
            },
            Value::Object(fs) => {
                let mut out: Vec<(String, Value)> = Vec::new();
                let mut i: usize = 0;
                while i < fs.len()
                    invariant
                        i <= fs.len(),
                        out@.len() == i,
                        forall|j: int|
                            0 <= j < i ==> (#[trigger] out@[j]).0@ == fs@[j].0@ && value_view(
                                out@[j].1,
                            ) == value_view(fs@[j].1),
                    decreases fs.len() - i,
                {
                    proof {
                        assert(decreases_to!(*self => *fs));
                        assert(decreases_to!(*fs => fs@));
                        assert(decreases_to!(fs@ => fs@[i as int]));
                        assert(decreases_to!(fs@[i as int] => fs@[i as int].1));
                    }
                    let name = fs[i].0.clone();
                    let val = fs[i].1.clone();
                    out.push((name, val));
                    i = i + 1;
                }
                proof {
                    lemma_object_view(out@);
                    lemma_object_view(fs@);
                    assert(object_view(out@) =~= object_view(fs@));
                }
                Value::Object(out)
            },
        }
    }
}

/// The nesting depth of a value: leaves have depth zero, lists and objects
/// sit one above their deepest member.
pub open spec fn height(v: Value) -> nat
    decreases v,
{
    match v {
        Value::List(vs) => 1 + list_height(vs@),
        Value::Object(fs) => 1 + obj_height(fs@),
        _ => 0,
    }
}

/// The deepest member of a list of values.
pub open spec fn list_height(vs: Seq<Value>) -> nat
    decreases vs,
{
    if vs.len() == 0 {
        0
    } else {
        let h = height(vs.first());
        let r = list_height(vs.drop_first());
        if h > r {
            h
        } else {
            r
        }
    }
}

/// The deepest member of an object's field list.
pub open spec fn obj_height(fs: Seq<(String, Value)>) -> nat
    decreases fs,
{
    if fs.len() == 0 {
        0
    } else {
        let h = height(fs.first().1);
        let r = obj_height(fs.drop_first());
        if h > r {
            h
        } else {
            r
        }
    }
}

/// Every element of a list is at most as deep as the list's deepest member.
pub proof fn lemma_list_height(vs: Seq<Value>)
    ensures
        forall|i: int| 0 <= i < vs.len() ==> height(#[trigger] vs[i]) <= list_height(vs),
    decreases vs,
{
    if vs.len() > 0 {
        lemma_list_height(vs.drop_first());
        assert forall|i: int| 0 <= i < vs.len() implies height(#[trigger] vs[i]) <= list_height(
            vs,
        ) by {
            if i > 0 {
                assert(vs.drop_first()[i - 1] == vs[i]);
            }
        }
    }
}

/// Every field value of an object is at most as deep as the object's
/// deepest member.
pub proof fn lemma_obj_height(fs: Seq<(String, Value)>)
    ensures
        forall|i: int| 0 <= i < fs.len() ==> height((#[trigger] fs[i]).1) <= obj_height(fs),
    decreases fs,
{
    if fs.len() > 0 {
        lemma_obj_height(fs.drop_first());
        assert forall|i: int| 0 <= i < fs.len() implies height((#[trigger] fs[i]).1)
            <= obj_height(fs) by {
            if i > 0 {
                assert(fs.drop_first()[i - 1] == fs[i]);
            }
        }
    }
}

} // verus!

//! The tree that a parse produces, and its mathematical model.

use vstd::prelude::*;
use crate::chars::is_number_char;

verus! {

/// How many decimal points `t` holds.
pub open spec fn dots(t: Seq<char>) -> nat
    decreases t.len(),
{
    if t.len() == 0 {
        0
    } else {
        dots(t.drop_last()) + if t.last() == '.' {
            1nat
        } else {
            0nat
        }
    }
}

/// Whether a run of digits and decimal points is a number: it holds a digit
/// and at most one decimal point.
pub open spec fn is_number(t: Seq<char>) -> bool {
    dots(t) <= 1 && dots(t) < t.len()
}

/// Whether `t` is the text of a number: digits and decimal points only,
/// with a digit and at most one decimal point.
pub open spec fn is_number_text(t: Seq<char>) -> bool {
    &&& forall|k: int| 0 <= k < t.len() ==> is_number_char(#[trigger] t[k])
    &&& is_number(t)
}

/// A parsed value.
#[derive(Debug, PartialEq)]
pub enum Value {
    /// `true` or `false`.
    Bool(bool),
    /// An unsigned decimal number, kept as the literal was written: a run of
    /// ASCII digits that holds at most one decimal point.
    Number(String),
    /// A text, with its escapes resolved.
    String(String),
    /// Key and value pairs in source order. Keys may repeat.
    Dict(Vec<(Value, Value)>),
    /// Items in source order.
    List(Vec<Value>),
}

/// The model of a [`Value`]: the same tree over sequences.
pub ghost enum Tree {
    Bool(bool),
    Number(Seq<char>),
    String(Seq<char>),
    Dict(Seq<(Tree, Tree)>),
    List(Seq<Tree>),
}

impl Tree {
    /// Whether every number in the tree is written as a number is: in
    /// digits and decimal points, with a digit and at most one decimal
    /// point. The trees that a parse gives are so.
    pub open spec fn well_formed(self) -> bool
        decreases self,
    {
        match self {
            Tree::Number(text) => is_number_text(text),
            Tree::List(items) => forall|k: int|
                0 <= k < items.len() ==> (#[trigger] items[k]).well_formed(),
            Tree::Dict(pairs) => forall|k: int|
                0 <= k < pairs.len() ==> (#[trigger] pairs[k]).0.well_formed()
                    && pairs[k].1.well_formed(),
            _ => true,
        }
    }
}

/// The model of `v`.
pub open spec fn tree_of(v: Value) -> Tree
    decreases v,
{
    match v {
        Value::Bool(b) => Tree::Bool(b),
        Value::Number(n) => Tree::Number(n@),
        Value::String(s) => Tree::String(s@),
        Value::Dict(m) => Tree::Dict(
            Seq::new(
                m@.len(),
                |i: int|
                    if 0 <= i < m@.len() {
                        (tree_of(m@[i].0), tree_of(m@[i].1))
                    } else {
                        arbitrary()
                    },
            ),
        ),
        Value::List(l) => Tree::List(
            Seq::new(
                l@.len(),
                |i: int|
                    if 0 <= i < l@.len() {
                        tree_of(l@[i])
                    } else {
                        arbitrary()
                    },
            ),
        ),
    }
}

impl View for Value {
    type V = Tree;

    open spec fn view(&self) -> Tree {
        tree_of(*self)
    }
}

/// The models of the values of `l`, in order.
pub open spec fn trees(l: Seq<Value>) -> Seq<Tree> {
    Seq::new(l.len(), |i: int| l[i]@)
}

/// The models of the pairs of `m`, in order.
pub open spec fn tree_pairs(m: Seq<(Value, Value)>) -> Seq<(Tree, Tree)> {
    Seq::new(m.len(), |i: int| (m[i].0@, m[i].1@))
}

/// The model of a list is the list of its items' models.
pub proof fn list_view(l: Vec<Value>)
    ensures
        Value::List(l)@ == Tree::List(trees(l@)),
{
    assert(Value::List(l)@->List_0 =~= trees(l@));
}

/// The model of a map is the list of its pairs' models.
pub proof fn dict_view(m: Vec<(Value, Value)>)
    ensures
        Value::Dict(m)@ == Tree::Dict(tree_pairs(m@)),
{
    assert(Value::Dict(m)@->Dict_0 =~= tree_pairs(m@));
}

/// One more item at the end of a list is one more model at the end.
pub proof fn trees_push(l: Seq<Value>, v: Value)
    ensures
        trees(l.push(v)) == trees(l).push(v@),
{
    assert(trees(l.push(v)) =~= trees(l).push(v@));
}

/// One more pair at the end of a map is one more model at the end.
pub proof fn tree_pairs_push(m: Seq<(Value, Value)>, key: Value, value: Value)
    ensures
        tree_pairs(m.push((key, value))) == tree_pairs(m).push((key@, value@)),
{
    assert(tree_pairs(m.push((key, value))) =~= tree_pairs(m).push((key@, value@)));
}

} // verus!

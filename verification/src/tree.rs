//! The structured tree in which a chunk is stored, as far as this library
//! reads it: compounds of named fields, lists, integers and strings.

use crate::skip::Skip;
use vstd::prelude::*;

verus! {

/// The mathematical value of a [`Node`]. A compound is a map from names to
/// values: the order in which its fields are held is not part of it.
pub enum Tree {
    Int(i32),
    Text(Seq<char>),
    List(Seq<Tree>),
    Compound(Map<Seq<char>, Tree>),
    Other,
}

/// A named field of a compound node.
#[derive(Debug)]
pub struct Field {
    pub name: String,
    pub value: Node,
}

/// A node of a structured tree.
#[derive(Debug)]
pub enum Node {
    /// A 32-bit integer scalar.
    Int(i32),
    /// A string scalar.
    Text(String),
    /// An ordered list of nodes.
    List(Vec<Node>),
    /// Named fields. Where a name occurs twice, the first field counts.
    Compound(Vec<Field>),
    /// Any other scalar or array; the library reads nothing from it.
    Other,
}

/// Index of the first field called `name`, or the number of fields if none is.
pub open spec fn first_named(fields: Seq<Field>, name: Seq<char>) -> int
    decreases fields.len(),
{
    if fields.len() == 0 {
        0
    } else if fields[0].name@ == name {
        0
    } else {
        1 + first_named(fields.drop_first(), name)
    }
}

/// `first_named` gives an index of the sequence or its length, and no field
/// before that index has the name.
pub proof fn lemma_first_named(fields: Seq<Field>, name: Seq<char>)
    ensures
        0 <= first_named(fields, name) <= fields.len(),
        first_named(fields, name) < fields.len() ==> fields[first_named(fields, name)].name@
            == name,
        forall|i: int| 0 <= i < first_named(fields, name) ==> (#[trigger] fields[i]).name@ != name,
    decreases fields.len(),
{
    if fields.len() > 0 && fields[0].name@ != name {
        let rest = fields.drop_first();
        lemma_first_named(rest, name);
        assert forall|i: int| 0 <= i < first_named(fields, name) implies (#[trigger] fields[i]).name@
            != name by {
            if i > 0 {
                assert(fields[i] == rest[i - 1]);
            }
        }
    }
}

impl Node {
    /// The value of the node: what it holds, without the order of a
    /// compound's fields.
    pub open spec fn tree(self) -> Tree
        decreases self,
    {
        match self {
            Node::Int(i) => Tree::Int(i),
            Node::Text(s) => Tree::Text(s@),
            Node::List(items) => Tree::List(
                Seq::new(
                    items@.len(),
                    |i: int|
                        if 0 <= i < items@.len() {
                            items@[i].tree()
                        } else {
                            Tree::Other
                        },
                ),
            ),
            Node::Compound(fields) => Tree::Compound(
                Map::new(
                    |name: Seq<char>| first_named(fields@, name) < fields@.len(),
                    |name: Seq<char>|
                        {
                            let i = first_named(fields@, name);
                            if 0 <= i < fields@.len() {
                                fields@[i].value.tree()
                            } else {
                                Tree::Other
                            }
                        },
                ),
            ),
            Node::Other => Tree::Other,
        }
    }
}

impl View for Node {
    type V = Tree;

    open spec fn view(&self) -> Tree {
        self.tree()
    }
}

/// The variants that the library tells apart.
#[derive(Clone, Copy, Debug, PartialEq, Eq, Structural)]
pub enum Shape {
    Int,
    Text,
    List,
    Compound,
    Other,
}

impl Tree {
    /// Which variant the tree is.
    pub open spec fn shape(self) -> Shape {
        match self {
            Tree::Int(_) => Shape::Int,
            Tree::Text(_) => Shape::Text,
            Tree::List(_) => Shape::List,
            Tree::Compound(_) => Shape::Compound,
            Tree::Other => Shape::Other,
        }
    }

    /// The field called `name` of a compound; nothing for a missing field
    /// and for a tree that is no compound.
    pub open spec fn field(self, name: Seq<char>) -> Option<Tree> {
        match self {
            Tree::Compound(fields) => if fields.contains_key(name) {
                Some(fields[name])
            } else {
                None
            },
            _ => None,
        }
    }

    /// The integer of an integer scalar.
    pub open spec fn number(self) -> int {
        match self {
            Tree::Int(i) => i as int,
            _ => 0,
        }
    }

    /// The characters of a string scalar.
    pub open spec fn text(self) -> Seq<char> {
        match self {
            Tree::Text(s) => s,
            _ => Seq::empty(),
        }
    }

    /// The elements of a list.
    pub open spec fn elements(self) -> Seq<Tree> {
        match self {
            Tree::List(items) => items,
            _ => Seq::empty(),
        }
    }
}

/// The tree behind an optional node.
pub open spec fn tree_of(node: Option<&Node>) -> Option<Tree> {
    match node {
        Some(node) => Some(node@),
        None => None,
    }
}

/// Whether `node` is present and of the given shape.
pub open spec fn has_shape(node: Option<Tree>, shape: Shape) -> bool {
    node is Some && node->0.shape() == shape
}

impl Node {
    /// Which variant the node is.
    pub fn shape(&self) -> (shape: Shape)
        ensures
            shape == self@.shape(),
    {
        match self {
            Node::Int(_) => Shape::Int,
            Node::Text(_) => Shape::Text,
            Node::List(_) => Shape::List,
            Node::Compound(_) => Shape::Compound,
            Node::Other => Shape::Other,
        }
    }

    /// Looks up a field of a compound by name.
    pub fn field(&self, name: &str) -> (found: Option<&Node>)
        ensures
            tree_of(found) == self@.field(name@),
    {
        match self {
            Node::Compound(fields) => {
                proof {
                    lemma_first_named(fields@, name@);
                }
                find_field(fields, name)
            },
            _ => None,
        }
    }
}

/// The first field called `name`, if there is one.
pub fn find_field<'a>(fields: &'a Vec<Field>, name: &str) -> (found: Option<&'a Node>)
    ensures
        first_named(fields@, name@) < fields@.len() ==> found == Some(
            &fields@[first_named(fields@, name@)].value,
        ),
        first_named(fields@, name@) >= fields@.len() ==> found is None,
{
    let key = name.to_owned();
    let mut i: usize = 0;
    assert(fields@.skip(0) == fields@);
    while i < fields.len()
        invariant
            i <= fields@.len(),
            key@ == name@,
            first_named(fields@, name@) == i + first_named(fields@.skip(i as int), name@),
        decreases fields@.len() - i,
    {
        proof {
            let rest = fields@.skip(i as int);
            assert(rest.drop_first() == fields@.skip(i + 1));
        }
        if fields[i].name == key {
            return Some(&fields[i].value);
        }
        i += 1;
    }
    None
}

/// The typed accessor used at every step into a tree: hands `node` back if
/// it is present and of the expected shape; otherwise records `otherwise` and
/// gives nothing. A mismatch is never an error.
pub fn expect<'a>(
    node: Option<&'a Node>,
    shape: Shape,
    otherwise: Skip,
    log: &mut Vec<Skip>,
) -> (found: Option<&'a Node>)
    ensures
        has_shape(tree_of(node), shape) ==> found == node && final(log)@ == old(log)@,
        !has_shape(tree_of(node), shape) ==> found is None && final(log)@ == old(log)@.push(
            otherwise,
        ),
{
    match node {
        Some(inner) => {
            if inner.shape() == shape {
                return node;
            }
        },
        None => {},
    }
    log.push(otherwise);
    None
}

} // verus!

//! The generic XML tree model.
//!
//! An XML document is represented schema-agnostically: an element is an
//! ordered mapping from child tag name to child value, plus an ordered list
//! of attributes; an element holding nothing but text collapses to a bare
//! scalar; a repeated child tag is promoted to a list of values.  A list
//! never directly contains another list, and the tag of a node is held by
//! its parent's entry, not by the node itself.

use crate::text::str_eq;
use vstd::prelude::*;

verus! {

/// Mathematical model of an element: attributes and children, both in
/// document order.  A child entry pairs a tag name with the value (or list
/// of values) seen under that tag.
#[verifier::ext_equal]
pub struct ElemV {
    pub attrs: Seq<(Seq<char>, Seq<char>)>,
    pub children: Seq<(Seq<char>, NodeV)>,
}

/// Mathematical model of a node of the tree.
#[verifier::ext_equal]
pub enum NodeV {
    /// Collapsed scalar text.
    Text(Seq<char>),
    /// Repeated occurrences of one child tag, in document order.
    List(Seq<NodeV>),
    /// An element with attributes and child entries.
    Elem(ElemV),
}

/// An element as built at run time: attributes and child entries, both in
/// insertion order.
#[derive(Debug, PartialEq, Eq)]
pub struct Elem {
    pub attrs: Vec<(String, String)>,
    pub children: Vec<(String, Node)>,
}

/// A node of the tree as built at run time.
#[derive(Debug, PartialEq, Eq)]
pub enum Node {
    Text(String),
    List(Vec<Node>),
    Elem(Elem),
}

pub open spec fn attrs_view(attrs: Seq<(String, String)>) -> Seq<(Seq<char>, Seq<char>)> {
    Seq::new(attrs.len(), |i: int| (attrs[i].0@, attrs[i].1@))
}

pub open spec fn node_view(n: Node) -> NodeV
    decreases n,
{
    match n {
        Node::Text(s) => NodeV::Text(s@),
        Node::List(items) => NodeV::List(nodes_view(items@)),
        Node::Elem(e) => NodeV::Elem(elem_view(e)),
    }
}

pub open spec fn nodes_view(items: Seq<Node>) -> Seq<NodeV>
    decreases items,
{
    if items.len() == 0 {
        Seq::empty()
    } else {
        seq![node_view(items[0])] + nodes_view(items.drop_first())
    }
}

pub open spec fn entries_view(es: Seq<(String, Node)>) -> Seq<(Seq<char>, NodeV)>
    decreases es,
{
    if es.len() == 0 {
        Seq::empty()
    } else {
        seq![(es[0].0@, node_view(es[0].1))] + entries_view(es.drop_first())
    }
}

pub open spec fn elem_view(e: Elem) -> ElemV
    decreases e,
{
    ElemV { attrs: attrs_view(e.attrs@), children: entries_view(e.children@) }
}

impl View for Node {
    type V = NodeV;

    open spec fn view(&self) -> NodeV {
        node_view(*self)
    }
}

impl View for Elem {
    type V = ElemV;

    open spec fn view(&self) -> ElemV {
        elem_view(*self)
    }
}

/// `nodes_view` maps `node_view` over the sequence, element by element.
pub proof fn lemma_nodes_view(items: Seq<Node>)
    ensures
        nodes_view(items).len() == items.len(),
        forall|i: int| 0 <= i < items.len() ==> nodes_view(items)[i] == node_view(items[i]),
    decreases items,
{
    if items.len() > 0 {
        lemma_nodes_view(items.drop_first());
    }
}

/// Index of the first entry named `name`, or `-1` when there is none.
pub open spec fn find_key<T>(entries: Seq<(Seq<char>, T)>, name: Seq<char>) -> int
    decreases entries,
{
    if entries.len() == 0 {
        -1
    } else if entries[0].0 == name {
        0
    } else {
        let r = find_key(entries.drop_first(), name);
        if r < 0 {
            -1
        } else {
            r + 1
        }
    }
}

/// `find_key` names the first matching entry: an entry named `name` at
/// `i`, with none before it, is the one found.
pub proof fn lemma_find_key_is<T>(entries: Seq<(Seq<char>, T)>, name: Seq<char>, i: int)
    requires
        0 <= i < entries.len(),
        entries[i].0 == name,
        forall|j: int| 0 <= j < i ==> entries[j].0 != name,
    ensures
        find_key(entries, name) == i,
    decreases entries,
{
    if i > 0 {
        let rest = entries.drop_first();
        assert(forall|j: int| 0 <= j < rest.len() ==> #[trigger] rest[j] == entries[j + 1]);
        assert(entries[0].0 != name);
        assert forall|j: int| 0 <= j < i - 1 implies rest[j].0 != name by {
            assert(entries[j + 1].0 != name);
        }
        lemma_find_key_is(rest, name, i - 1);
    }
}

/// `find_key` reports `-1` when no entry carries `name`.
pub proof fn lemma_find_key_none<T>(entries: Seq<(Seq<char>, T)>, name: Seq<char>)
    requires
        forall|j: int| 0 <= j < entries.len() ==> entries[j].0 != name,
    ensures
        find_key(entries, name) == -1,
    decreases entries,
{
    if entries.len() > 0 {
        let rest = entries.drop_first();
        assert forall|j: int| 0 <= j < rest.len() implies #[trigger] rest[j].0 != name by {
            assert(entries[j + 1].0 != name);
        }
        lemma_find_key_none(rest, name);
    }
}

/// The child entry of an element node under a tag name; `None` on a
/// scalar or list node, or when the tag does not occur.
pub open spec fn lookup_child(n: NodeV, name: Seq<char>) -> Option<NodeV> {
    match n {
        NodeV::Elem(e) => {
            let k = find_key(e.children, name);
            if k >= 0 {
                Some(e.children[k].1)
            } else {
                None
            }
        },
        _ => None,
    }
}

/// The attribute of an element node under a name; `None` on a scalar or
/// list node, or when the attribute does not occur.
pub open spec fn lookup_attr(n: NodeV, name: Seq<char>) -> Option<Seq<char>> {
    match n {
        NodeV::Elem(e) => {
            let k = find_key(e.attrs, name);
            if k >= 0 {
                Some(e.attrs[k].1)
            } else {
                None
            }
        },
        _ => None,
    }
}

/// The scalar content of a node, when it is one.
pub open spec fn text_of(n: NodeV) -> Option<Seq<char>> {
    match n {
        NodeV::Text(s) => Some(s),
        _ => None,
    }
}

/// A possibly-repeated child normalised to a sequence: a list yields its
/// items, any other node yields itself alone.
pub open spec fn listed(n: NodeV) -> Seq<NodeV> {
    match n {
        NodeV::List(items) => items,
        _ => seq![n],
    }
}

impl Node {
    /// First child entry under `name`, by document order.
    pub fn get_child<'a>(&'a self, name: &str) -> (r: Option<&'a Node>)
        ensures
            match r {
                Some(c) => lookup_child(self@, name@) == Some(c@),
                None => lookup_child(self@, name@) is None,
            },
    {
        match self {
            Node::Elem(e) => {
                proof {
                    lemma_entries_view(e.children@);
                }
                let ghost ev = elem_view(*e).children;
                let n = e.children.len();
                let mut i: usize = 0;
                while i < n
                    invariant
                        n == e.children@.len(),
                        0 <= i <= n,
                        forall|j: int| 0 <= j < i ==> e.children@[j].0@ != name@,
                        self@ == NodeV::Elem(elem_view(*e)),
                        ev == elem_view(*e).children,
                        ev.len() == n,
                        forall|j: int|
                            0 <= j < n ==> #[trigger] ev[j] == (
                            e.children@[j].0@,
                            node_view(e.children@[j].1),
                            ),
                    decreases n - i,
                {
                    if str_eq(e.children[i].0.as_str(), name) {
                        proof {
                            assert(ev[i as int].0 == name@);
                            assert forall|j: int| 0 <= j < i implies ev[j].0 != name@ by {
                                assert(e.children@[j].0@ != name@);
                            }
                            lemma_find_key_is(ev, name@, i as int);
                            assert(lookup_child(self@, name@) == Some(ev[i as int].1));
                        }
                        return Some(&e.children[i].1);
                    }
                    i = i + 1;
                }
                proof {
                    assert forall|j: int| 0 <= j < n implies ev[j].0 != name@ by {
                        assert(e.children@[j].0@ != name@);
                    }
                    lemma_find_key_none(ev, name@);
                }
                None
            },
            _ => None,
        }
    }

    /// First attribute under `name`, by document order.
    pub fn get_attr<'a>(&'a self, name: &str) -> (r: Option<&'a String>)
        ensures
            match r {
                Some(s) => lookup_attr(self@, name@) == Some(s@),
                None => lookup_attr(self@, name@) is None,
            },
    {
        match self {
            Node::Elem(e) => {
                let ghost av = elem_view(*e).attrs;
                let n = e.attrs.len();
                let mut i: usize = 0;
                while i < n
                    invariant
                        n == e.attrs@.len(),
                        0 <= i <= n,
                        forall|j: int| 0 <= j < i ==> e.attrs@[j].0@ != name@,
                        self@ == NodeV::Elem(elem_view(*e)),
                        av == elem_view(*e).attrs,
                        av.len() == n,
                        forall|j: int|
                            0 <= j < n ==> #[trigger] av[j] == (e.attrs@[j].0@, e.attrs@[j].1@),
                    decreases n - i,
                {
                    if str_eq(e.attrs[i].0.as_str(), name) {
                        proof {
                            assert(av[i as int].0 == name@);
                            assert forall|j: int| 0 <= j < i implies av[j].0 != name@ by {
                                assert(e.attrs@[j].0@ != name@);
                            }
                            lemma_find_key_is(av, name@, i as int);
                        }
                        return Some(&e.attrs[i].1);
                    }
                    i = i + 1;
                }
                proof {
                    assert forall|j: int| 0 <= j < n implies av[j].0 != name@ by {
                        assert(e.attrs@[j].0@ != name@);
                    }
                    lemma_find_key_none(av, name@);
                }
                None
            },
            _ => None,
        }
    }

    /// The scalar content of this node, when it is one.
    pub fn get_text<'a>(&'a self) -> (r: Option<&'a String>)
        ensures
            match r {
                Some(s) => text_of(self@) == Some(s@),
                None => text_of(self@) is None,
            },
    {
        match self {
            Node::Text(s) => Some(s),
            _ => None,
        }
    }
}

/// `entries_view` maps the view of both components over the sequence.
pub proof fn lemma_entries_view(es: Seq<(String, Node)>)
    ensures
        entries_view(es).len() == es.len(),
        forall|i: int| 0 <= i < es.len() ==> entries_view(es)[i] == (es[i].0@, node_view(
            es[i].1,
        )),
    decreases es,
{
    if es.len() > 0 {
        lemma_entries_view(es.drop_first());
    }
}

} // verus!

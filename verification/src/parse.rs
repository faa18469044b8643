//! The XML parser: turns XML text into the generic tree model.
//!
//! Element matching is namespace-agnostic: a tag's local name (the part
//! after the last colon) keys its entry in the parent.  Attributes keep
//! their written names.  Whitespace-only text is ignored; a text run
//! becomes the element's scalar value only when the element carries no
//! attributes and no element children.  A repeated child tag is promoted
//! to a list in document order, whether or not the occurrences are
//! adjacent.  Malformed input yields an error, never a partial tree.
//!
//! The whole grammar is stated as specification functions over the
//! character sequence; each executable function is proved to return
//! exactly what its specification counterpart describes.

use crate::node::{
    attrs_view, entries_view, find_key, lemma_entries_view, lemma_find_key_is,
    lemma_find_key_none, node_view, nodes_view, Elem, ElemV, Node, NodeV,
};
use crate::text::str_eq;
use vstd::prelude::*;
use vstd::string::StrSliceExecFns;

verus! {

pub open spec fn is_ws(c: char) -> bool {
    c == ' ' || c == '\t' || c == '\r' || c == '\n'
}

/// Characters that may stand in a tag or attribute name: anything but
/// whitespace and XML punctuation.
pub open spec fn is_name_char(c: char) -> bool {
    !is_ws(c) && c != '<' && c != '>' && c != '/' && c != '=' && c != '"' && c != '?' && c != '!'
}

/// First index at or after `i` holding a non-whitespace character, or
/// the length.
pub open spec fn ws_end(s: Seq<char>, i: int) -> int
    decreases s.len() - i,
{
    if 0 <= i < s.len() && is_ws(s[i]) {
        ws_end(s, i + 1)
    } else {
        i
    }
}

/// First index at or after `i` holding a non-name character, or the
/// length.
pub open spec fn name_end(s: Seq<char>, i: int) -> int
    decreases s.len() - i,
{
    if 0 <= i < s.len() && is_name_char(s[i]) {
        name_end(s, i + 1)
    } else {
        i
    }
}

/// First index at or after `i` holding `'<'`, or the length.
pub open spec fn text_end(s: Seq<char>, i: int) -> int
    decreases s.len() - i,
{
    if 0 <= i < s.len() && s[i] != '<' {
        text_end(s, i + 1)
    } else {
        i
    }
}

/// First index at or after `i` holding `'"'`, or the length.
pub open spec fn value_end(s: Seq<char>, i: int) -> int
    decreases s.len() - i,
{
    if 0 <= i < s.len() && s[i] != '"' {
        value_end(s, i + 1)
    } else {
        i
    }
}

/// End of `s[..b]` with trailing whitespace stripped.
pub open spec fn rstrip_end(s: Seq<char>, b: int) -> int
    decreases b,
{
    if b <= 0 {
        0
    } else if is_ws(s[b - 1]) {
        rstrip_end(s, b - 1)
    } else {
        b
    }
}

/// `s` with leading and trailing whitespace stripped.
pub open spec fn trimmed(s: Seq<char>) -> Seq<char> {
    let a = ws_end(s, 0);
    let b = rstrip_end(s, s.len() as int);
    if b <= a {
        Seq::empty()
    } else {
        s.subrange(a, b)
    }
}

/// Index of the last `':'` before `b`, or `-1`.
pub open spec fn colon_rpos(s: Seq<char>, b: int) -> int
    decreases b,
{
    if b <= 0 {
        -1
    } else if s[b - 1] == ':' {
        b - 1
    } else {
        colon_rpos(s, b - 1)
    }
}

/// The local part of a possibly prefixed name: what follows the last
/// colon.
pub open spec fn local_name(name: Seq<char>) -> Seq<char> {
    let k = colon_rpos(name, name.len() as int);
    if k < 0 {
        name
    } else {
        name.subrange(k + 1, name.len() as int)
    }
}

/// A new child inserted under `name`: a fresh tag is appended; a repeated
/// tag promotes the existing entry to a list (or extends it), in place.
pub open spec fn add_child(
    children: Seq<(Seq<char>, NodeV)>,
    name: Seq<char>,
    node: NodeV,
) -> Seq<(Seq<char>, NodeV)> {
    let k = find_key(children, name);
    if k < 0 {
        children.push((name, node))
    } else {
        match children[k].1 {
            NodeV::List(items) => children.update(k, (name, NodeV::List(items.push(node)))),
            _ => children.update(k, (name, NodeV::List(seq![children[k].1, node]))),
        }
    }
}

/// The attribute list of an opening tag, from position `i` (just after
/// the tag name): `(attributes, self-closing, position after `'>'`)`.
pub open spec fn attrs_at(
    s: Seq<char>,
    i: int,
    acc: Seq<(Seq<char>, Seq<char>)>,
) -> Option<(Seq<(Seq<char>, Seq<char>)>, bool, int)>
    decreases s.len() - i,
{
    let j = ws_end(s, i);
    if !(0 <= j < s.len()) {
        None
    } else if s[j] == '/' {
        if j + 1 < s.len() && s[j + 1] == '>' {
            Some((acc, true, j + 2))
        } else {
            None
        }
    } else if s[j] == '>' {
        Some((acc, false, j + 1))
    } else {
        let ne = name_end(s, j);
        if ne == j {
            None
        } else {
            let k = ws_end(s, ne);
            if k < s.len() && s[k] == '=' {
                let q = ws_end(s, k + 1);
                if q < s.len() && s[q] == '"' {
                    let ve = value_end(s, q + 1);
                    if ve < s.len() && ve + 1 > i {
                        attrs_at(s, ve + 1, acc.push((s.subrange(j, ne), s.subrange(q + 1, ve))))
                    } else {
                        None
                    }
                } else {
                    None
                }
            } else {
                None
            }
        }
    }
}

/// One element starting at `i` (which must hold `'<'`): its local name,
/// its tree, and the position just past its closing tag.
pub open spec fn element_at(s: Seq<char>, i: int) -> Option<((Seq<char>, NodeV), int)>
    decreases s.len() - i, 0int,
{
    if !(0 <= i < s.len() && s[i] == '<') {
        None
    } else {
        let ne = name_end(s, i + 1);
        if ne == i + 1 {
            None
        } else {
            let name = s.subrange(i + 1, ne);
            match attrs_at(s, ne, Seq::empty()) {
                None => None,
                Some((attrs, selfclosing, p)) => {
                    if selfclosing {
                        Some(
                            (
                                (
                                    local_name(name),
                                    NodeV::Elem(ElemV { attrs, children: Seq::empty() }),
                                ),
                                p,
                            ),
                        )
                    } else if p > i && p <= s.len() {
                        match content_at(s, p, name, attrs, Seq::empty(), None) {
                            None => None,
                            Some((node, q)) => Some(((local_name(name), node), q)),
                        }
                    } else {
                        None
                    }
                },
            }
        }
    }
}

/// The content of an open element named `name`, from position `i` to
/// just past its closing tag.  `attrs`, `children` and `text` carry what
/// has been seen so far; the node collapses to its first text run when
/// it ends with no attributes and no element children.
pub open spec fn content_at(
    s: Seq<char>,
    i: int,
    name: Seq<char>,
    attrs: Seq<(Seq<char>, Seq<char>)>,
    children: Seq<(Seq<char>, NodeV)>,
    text: Option<Seq<char>>,
) -> Option<(NodeV, int)>
    decreases s.len() - i, 1int,
{
    if !(0 <= i < s.len()) {
        None
    } else if s[i] == '<' {
        if i + 1 < s.len() && s[i + 1] == '/' {
            let ne = name_end(s, i + 2);
            if s.subrange(i + 2, ne) == name {
                let j = ws_end(s, ne);
                if j < s.len() && s[j] == '>' {
                    let node = if attrs.len() == 0 && children.len() == 0 && text is Some {
                        NodeV::Text(text->0)
                    } else {
                        NodeV::Elem(ElemV { attrs, children })
                    };
                    Some((node, j + 1))
                } else {
                    None
                }
            } else {
                None
            }
        } else {
            match element_at(s, i) {
                None => None,
                Some(((cname, cnode), q)) => {
                    if q > i && q <= s.len() {
                        content_at(s, q, name, attrs, add_child(children, cname, cnode), text)
                    } else {
                        None
                    }
                },
            }
        }
    } else {
        let t = text_end(s, i);
        let txt = trimmed(s.subrange(i, t));
        let text2 = if txt.len() > 0 && text is None {
            Some(txt)
        } else {
            text
        };
        if t > i && t <= s.len() {
            content_at(s, t, name, attrs, children, text2)
        } else {
            None
        }
    }
}

/// Position after an optional processing-instruction prolog at `i`.
pub open spec fn pi_end(s: Seq<char>, i: int) -> Option<int>
    decreases s.len() - i,
{
    if !(0 <= i < s.len()) {
        None
    } else if s[i] == '?' && i + 1 < s.len() && s[i + 1] == '>' {
        Some(i + 2)
    } else {
        pi_end(s, i + 1)
    }
}

pub open spec fn prolog_end(s: Seq<char>, i: int) -> Option<int> {
    if 0 <= i && i + 1 < s.len() && s[i] == '<' && s[i + 1] == '?' {
        pi_end(s, i + 2)
    } else {
        Some(i)
    }
}

/// A whole document: optional declaration, one root element, nothing but
/// whitespace elsewhere.  Yields the root's local tag name and tree.
pub open spec fn document_at(s: Seq<char>) -> Option<(Seq<char>, NodeV)> {
    let i0 = ws_end(s, 0);
    match prolog_end(s, i0) {
        None => None,
        Some(i1) => {
            if i1 < 0 || i1 > s.len() {
                None
            } else {
                let i2 = ws_end(s, i1);
                match element_at(s, i2) {
                    None => None,
                    Some(((tag, node), q)) => {
                        if ws_end(s, q) == s.len() {
                            Some((tag, node))
                        } else {
                            None
                        }
                    },
                }
            }
        },
    }
}

// ---------------------------------------------------------------------
// Executable scanners, each the mirror of its specification.
// ---------------------------------------------------------------------
fn ws_char(c: char) -> (r: bool)
    ensures
        r == is_ws(c),
{
    c == ' ' || c == '\t' || c == '\r' || c == '\n'
}

fn name_char(c: char) -> (r: bool)
    ensures
        r == is_name_char(c),
{
    !(c == ' ' || c == '\t' || c == '\r' || c == '\n') && c != '<' && c != '>' && c != '/' && c
        != '=' && c != '"' && c != '?' && c != '!'
}

fn skip_ws(s: &str, from: usize) -> (r: usize)
    requires
        from <= s@.len(),
    ensures
        r == ws_end(s@, from as int),
        from <= r <= s@.len(),
    decreases s@.len() - from,
{
    if from == s.unicode_len() {
        from
    } else if ws_char(s.get_char(from)) {
        skip_ws(s, from + 1)
    } else {
        from
    }
}

fn scan_name(s: &str, from: usize) -> (r: usize)
    requires
        from <= s@.len(),
    ensures
        r == name_end(s@, from as int),
        from <= r <= s@.len(),
    decreases s@.len() - from,
{
    if from == s.unicode_len() {
        from
    } else if name_char(s.get_char(from)) {
        scan_name(s, from + 1)
    } else {
        from
    }
}

fn scan_text(s: &str, from: usize) -> (r: usize)
    requires
        from <= s@.len(),
    ensures
        r == text_end(s@, from as int),
        from <= r <= s@.len(),
    decreases s@.len() - from,
{
    if from == s.unicode_len() {
        from
    } else if s.get_char(from) != '<' {
        scan_text(s, from + 1)
    } else {
        from
    }
}

fn scan_value(s: &str, from: usize) -> (r: usize)
    requires
        from <= s@.len(),
    ensures
        r == value_end(s@, from as int),
        from <= r <= s@.len(),
    decreases s@.len() - from,
{
    if from == s.unicode_len() {
        from
    } else if s.get_char(from) != '"' {
        scan_value(s, from + 1)
    } else {
        from
    }
}

fn rstrip(s: &str, b: usize) -> (r: usize)
    requires
        b <= s@.len(),
    ensures
        r == rstrip_end(s@, b as int),
        r <= b,
    decreases b,
{
    if b == 0 {
        0
    } else if ws_char(s.get_char(b - 1)) {
        rstrip(s, b - 1)
    } else {
        b
    }
}

/// `s` with surrounding whitespace stripped, as a fresh string.
fn trim_str(s: &str) -> (r: String)
    ensures
        r@ == trimmed(s@),
{
    let a = skip_ws(s, 0);
    let b = rstrip(s, s.unicode_len());
    if b <= a {
        let r = String::new();
        proof {
            assert(r@ =~= trimmed(s@));
        }
        r
    } else {
        s.substring_char(a, b).to_owned()
    }
}

fn rfind_colon(s: &str, b: usize) -> (r: Option<usize>)
    requires
        b <= s@.len(),
    ensures
        match r {
            Some(k) => colon_rpos(s@, b as int) == k as int && k < b,
            None => colon_rpos(s@, b as int) == -1,
        },
    decreases b,
{
    if b == 0 {
        None
    } else if s.get_char(b - 1) == ':' {
        Some(b - 1)
    } else {
        rfind_colon(s, b - 1)
    }
}

/// The local part of a possibly prefixed name.
fn strip_prefix_name(name: &str) -> (r: String)
    ensures
        r@ == local_name(name@),
{
    let len = name.unicode_len();
    match rfind_colon(name, len) {
        Some(k) => name.substring_char(k + 1, len).to_owned(),
        None => name.to_owned(),
    }
}

/// Inserts one parsed child, promoting a repeated tag to a list.
fn push_child(children: Vec<(String, Node)>, name: String, node: Node) -> (r: Vec<(String, Node)>)
    ensures
        entries_view(r@) == add_child(entries_view(children@), name@, node@),
{
    let ghost ev = entries_view(children@);
    proof {
        lemma_entries_view(children@);
    }
    let n = children.len();
    let mut i: usize = 0;
    let mut found: Option<usize> = None;
    while i < n
        invariant
            n == children@.len(),
            0 <= i <= n,
            ev == entries_view(children@),
            ev.len() == n,
            forall|j: int|
                0 <= j < n ==> #[trigger] ev[j] == (
                children@[j].0@,
                node_view(children@[j].1),
                ),
            match found {
                Some(k) => k < i && find_key(ev, name@) == k as int,
                None => forall|j: int| 0 <= j < i ==> ev[j].0 != name@,
            },
        decreases n - i,
    {
        match found {
            Some(_) => {
            },
            None => {
                if str_eq(children[i].0.as_str(), name.as_str()) {
                    proof {
                        lemma_find_key_is(ev, name@, i as int);
                    }
                    found = Some(i);
                }
            },
        }
        i = i + 1;
    }
    let mut children = children;
    match found {
        Some(k) => {
            let (old_name, old_node) = children.remove(k);
            let ghost old_node_v = node_view(old_node);
            let promoted = match old_node {
                Node::List(items) => {
                    proof {
                        crate::node::lemma_nodes_view(items@);
                    }
                    let ghost old_items_v = nodes_view(items@);
                    let mut items = items;
                    items.push(node);
                    proof {
                        crate::node::lemma_nodes_view(items@);
                        assert(nodes_view(items@) =~= old_items_v.push(node_view(node)));
                    }
                    Node::List(items)
                },
                other => {
                    let mut items: Vec<Node> = Vec::new();
                    items.push(other);
                    items.push(node);
                    proof {
                        crate::node::lemma_nodes_view(items@);
                        assert(nodes_view(items@) =~= seq![old_node_v, node_view(node)]);
                    }
                    Node::List(items)
                },
            };
            proof {
                assert(node_view(promoted) == match old_node_v {
                    NodeV::List(iv) => NodeV::List(iv.push(node_view(node))),
                    _ => NodeV::List(seq![old_node_v, node_view(node)]),
                });
            }
            children.insert(k, (name, promoted));
            proof {
                lemma_entries_view(children@);
                assert(entries_view(children@) =~= add_child(ev, name@, node_view(node)));
            }
            children
        },
        None => {
            proof {
                lemma_find_key_none(ev, name@);
            }
            children.push((name, node));
            proof {
                lemma_entries_view(children@);
                assert(entries_view(children@) =~= add_child(ev, name@, node_view(node)));
            }
            children
        },
    }
}

// ---------------------------------------------------------------------
// Executable parser, the mirror of the specification grammar.
// ---------------------------------------------------------------------
fn parse_attrs(s: &str, i: usize, acc: Vec<(String, String)>) -> (r: Option<
    (Vec<(String, String)>, bool, usize),
>)
    requires
        i <= s@.len(),
    ensures
        match r {
            Some((attrs, sc, p)) => attrs_at(s@, i as int, attrs_view(acc@)) == Some(
                (attrs_view(attrs@), sc, p as int),
            ) && p <= s@.len(),
            None => attrs_at(s@, i as int, attrs_view(acc@)) is None,
        },
    decreases s@.len() - i,
{
    let len = s.unicode_len();
    let j = skip_ws(s, i);
    if j >= len {
        return None;
    }
    let c = s.get_char(j);
    if c == '/' {
        if j + 1 < len && s.get_char(j + 1) == '>' {
            Some((acc, true, j + 2))
        } else {
            None
        }
    } else if c == '>' {
        Some((acc, false, j + 1))
    } else {
        let ne = scan_name(s, j);
        if ne == j {
            return None;
        }
        let k = skip_ws(s, ne);
        if k < len && s.get_char(k) == '=' {
            let q = skip_ws(s, k + 1);
            if q < len && s.get_char(q) == '"' {
                let ve = scan_value(s, q + 1);
                if ve < len && ve + 1 > i {
                    let aname = s.substring_char(j, ne).to_owned();
                    let avalue = s.substring_char(q + 1, ve).to_owned();
                    let mut acc2 = acc;
                    acc2.push((aname, avalue));
                    proof {
                        assert(attrs_view(acc2@) =~= attrs_view(acc@).push(
                            (s@.subrange(j as int, ne as int), s@.subrange(q + 1, ve as int)),
                        ));
                    }
                    parse_attrs(s, ve + 1, acc2)
                } else {
                    None
                }
            } else {
                None
            }
        } else {
            None
        }
    }
}

/// Parses one element starting at `i`: local tag name, tree, and the
/// position just past its closing tag.
fn parse_element(s: &str, i: usize) -> (r: Option<(String, Node, usize)>)
    requires
        i <= s@.len(),
    ensures
        match r {
            Some((tag, node, q)) => element_at(s@, i as int) == Some(((tag@, node@), q as int))
                && q <= s@.len(),
            None => element_at(s@, i as int) is None,
        },
    decreases s@.len() - i, 0int,
{
    let len = s.unicode_len();
    if !(i < len && s.get_char(i) == '<') {
        return None;
    }
    let ne = scan_name(s, i + 1);
    if ne == i + 1 {
        return None;
    }
    let name = s.substring_char(i + 1, ne);
    match parse_attrs(s, ne, Vec::new()) {
        None => {
            proof {
                assert(attrs_view(Seq::<(String, String)>::empty()) =~= Seq::<
                    (Seq<char>, Seq<char>),
                >::empty());
            }
            None
        },
        Some((attrs, selfclosing, p)) => {
            proof {
                assert(attrs_view(Seq::<(String, String)>::empty()) =~= Seq::<
                    (Seq<char>, Seq<char>),
                >::empty());
            }
            if selfclosing {
                let node = Node::Elem(Elem { attrs, children: Vec::new() });
                proof {
                    lemma_entries_view(node->0.children@);
                    assert(entries_view(node->0.children@) =~= Seq::<(Seq<char>, NodeV)>::empty());
                }
                Some((strip_prefix_name(name), node, p))
            } else if p > i && p <= s.unicode_len() {
                match parse_content(s, p, name, attrs, Vec::new(), None) {
                    None => {
                        proof {
                            assert(entries_view(Seq::<(String, Node)>::empty()) =~= Seq::<
                                (Seq<char>, NodeV),
                            >::empty());
                        }
                        None
                    },
                    Some((node, q)) => {
                        proof {
                            assert(entries_view(Seq::<(String, Node)>::empty()) =~= Seq::<
                                (Seq<char>, NodeV),
                            >::empty());
                        }
                        Some((strip_prefix_name(name), node, q))
                    },
                }
            } else {
                None
            }
        },
    }
}

/// Parses the content of an open element named `name` up to and past its
/// closing tag.
fn parse_content(
    s: &str,
    i: usize,
    name: &str,
    attrs: Vec<(String, String)>,
    children: Vec<(String, Node)>,
    text: Option<String>,
) -> (r: Option<(Node, usize)>)
    requires
        i <= s@.len(),
    ensures
        match r {
            Some((node, q)) => content_at(
                s@,
                i as int,
                name@,
                attrs_view(attrs@),
                entries_view(children@),
                text.deep_view(),
            ) == Some((node@, q as int)) && q <= s@.len(),
            None => content_at(
                s@,
                i as int,
                name@,
                attrs_view(attrs@),
                entries_view(children@),
                text.deep_view(),
            ) is None,
        },
    decreases s@.len() - i, 1int,
{
    let len = s.unicode_len();
    if i >= len {
        return None;
    }
    if s.get_char(i) == '<' {
        if i + 1 < len && s.get_char(i + 1) == '/' {
            let ne = scan_name(s, i + 2);
            let cname = s.substring_char(i + 2, ne);
            if str_eq(cname, name) {
                let j = skip_ws(s, ne);
                if j < len && s.get_char(j) == '>' {
                    let node = if attrs.len() == 0 && children.len() == 0 && text.is_some() {
                        match text {
                            Some(t) => Node::Text(t),
                            None => Node::Text(String::new()),
                        }
                    } else {
                        let node = Node::Elem(Elem { attrs, children });
                        proof {
                            lemma_entries_view(node->0.children@);
                        }
                        node
                    };
                    Some((node, j + 1))
                } else {
                    None
                }
            } else {
                None
            }
        } else {
            match parse_element(s, i) {
                None => None,
                Some((cname, cnode, q)) => {
                    if q > i && q <= len {
                        let children2 = push_child(children, cname, cnode);
                        parse_content(s, q, name, attrs, children2, text)
                    } else {
                        None
                    }
                },
            }
        }
    } else {
        let t = scan_text(s, i);
        let piece = s.substring_char(i, t);
        let trimmed_piece = trim_str(piece);
        let text2 = if !trimmed_piece.as_str().is_empty() && text.is_none() {
            Some(trimmed_piece)
        } else {
            text
        };
        if t > i && t <= len {
            parse_content(s, t, name, attrs, children, text2)
        } else {
            None
        }
    }
}

/// Parses a whole document.  On success, the root element's local tag
/// name and tree; on failure, a human-readable message.
pub fn parse_document(s: &str) -> (r: Result<(String, Node), String>)
    ensures
        match r {
            Ok((tag, root)) => document_at(s@) == Some((tag@, root@)),
            Err(_) => document_at(s@) is None,
        },
{
    let len = s.unicode_len();
    let i0 = skip_ws(s, 0);
    let i1 = if i0 < len && i0 + 1 < len && s.get_char(i0) == '<' && s.get_char(i0 + 1) == '?' {
        match find_pi_end(s, i0 + 2) {
            Some(p) => p,
            None => {
                return Err("XML sem fim de declaração".to_owned());
            },
        }
    } else {
        i0
    };
    let i2 = skip_ws(s, i1);
    match parse_element(s, i2) {
        None => Err("XML mal formado".to_owned()),
        Some((tag, root, q)) => {
            if skip_ws(s, q) == len {
                Ok((tag, root))
            } else {
                Err("conteúdo inesperado após o elemento raiz".to_owned())
            }
        },
    }
}

fn find_pi_end(s: &str, i: usize) -> (r: Option<usize>)
    requires
        i <= s@.len(),
    ensures
        match r {
            Some(p) => pi_end(s@, i as int) == Some(p as int) && p <= s@.len(),
            None => pi_end(s@, i as int) is None,
        },
    decreases s@.len() - i,
{
    let len = s.unicode_len();
    if i >= len {
        None
    } else if s.get_char(i) == '?' && i + 1 < len && s.get_char(i + 1) == '>' {
        Some(i + 2)
    } else {
        find_pi_end(s, i + 1)
    }
}

} // verus!

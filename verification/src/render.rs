//! The XML serializer: turns a tree back into XML text.
//!
//! Attributes are rendered first, in order, on the opening tag; child
//! entries follow in insertion order, each on its own line, indented two
//! spaces per level; a list renders as repeated sibling elements; a
//! scalar renders on one line; an element with no content renders as an
//! empty tag pair.  The whole document is prefixed with a single XML
//! declaration.

use crate::node::{elem_view, node_view, nodes_view, Node, NodeV};
use vstd::prelude::*;
use vstd::string::StringExecFns;

verus! {

/// One rendered attribute, with its leading separator.
pub open spec fn attr_text(a: (Seq<char>, Seq<char>)) -> Seq<char> {
    " "@ + a.0 + "=\""@ + a.1 + "\""@
}

/// The attributes from index `i` on, rendered in order.
pub open spec fn attrs_from(attrs: Seq<(Seq<char>, Seq<char>)>, i: int) -> Seq<char>
    decreases attrs.len() - i,
{
    if i < 0 || i >= attrs.len() {
        Seq::empty()
    } else {
        attr_text(attrs[i]) + attrs_from(attrs, i + 1)
    }
}

/// The rendering of one node under a tag, at a given indentation.  The
/// leading indent is the parent's concern; a bare list has no rendering
/// of its own (its items are rendered by the surrounding element).
pub open spec fn ser(n: NodeV, tag: Seq<char>, ind: Seq<char>) -> Seq<char>
    decreases n, 0int,
{
    match n {
        NodeV::Text(s) => "<"@ + tag + ">"@ + s + "</"@ + tag + ">"@,
        NodeV::List(_) => Seq::empty(),
        NodeV::Elem(e) => {
            let open = "<"@ + tag + attrs_from(e.attrs, 0) + ">"@;
            let inner = children_from(e.children, 0, ind);
            if inner.len() == 0 {
                open + "</"@ + tag + ">"@
            } else {
                open + inner + "\n"@ + ind + "</"@ + tag + ">"@
            }
        },
    }
}

/// The child entries from index `i` on, each on its own line one level
/// deeper; a list entry contributes one line per item.
pub open spec fn children_from(es: Seq<(Seq<char>, NodeV)>, i: int, ind: Seq<char>) -> Seq<char>
    decreases es, es.len() - i,
{
    if i < 0 || i >= es.len() {
        Seq::empty()
    } else {
        let piece = match es[i].1 {
            NodeV::List(items) => items_from(items, 0, es[i].0, ind),
            _ => "\n"@ + ind + "  "@ + ser(es[i].1, es[i].0, ind + "  "@),
        };
        piece + children_from(es, i + 1, ind)
    }
}

/// The items of a repeated child from index `j` on, as sibling elements
/// sharing one tag.
pub open spec fn items_from(items: Seq<NodeV>, j: int, name: Seq<char>, ind: Seq<char>) -> Seq<
    char,
>
    decreases items, items.len() - j,
{
    if j < 0 || j >= items.len() {
        Seq::empty()
    } else {
        "\n"@ + ind + "  "@ + ser(items[j], name, ind + "  "@) + items_from(
            items,
            j + 1,
            name,
            ind,
        )
    }
}

/// The single XML declaration that opens every document.
pub open spec fn xml_header() -> Seq<char> {
    "<?xml version=\"1.0\" encoding=\"UTF-8\"?>\n"@
}

/// A whole rendered document: declaration, root element, final newline.
pub open spec fn document_text(tag: Seq<char>, root: NodeV) -> Seq<char> {
    xml_header() + ser(root, tag, Seq::empty()) + "\n"@
}

/// Renders one node under `tag` at indentation `ind`.
pub fn render(n: &Node, tag: &str, ind: &str) -> (r: String)
    ensures
        r@ == ser(n@, tag@, ind@),
    decreases *n,
{
    match n {
        Node::Text(s) => {
            let mut out = "<".to_owned();
            out.append(tag);
            out.append(">");
            out.append(s.as_str());
            out.append("</");
            out.append(tag);
            out.append(">");
            proof {
                assert(out@ =~= ser(n@, tag@, ind@));
            }
            out
        },
        Node::List(_) => String::new(),
        Node::Elem(e) => {
            let ghost av = elem_view(*e).attrs;
            let ghost evc = elem_view(*e).children;
            let mut out = "<".to_owned();
            out.append(tag);
            let na = e.attrs.len();
            let mut i: usize = 0;
            while i < na
                invariant
                    na == e.attrs@.len(),
                    0 <= i <= na,
                    av == elem_view(*e).attrs,
                    av.len() == na,
                    forall|j: int|
                        0 <= j < na ==> #[trigger] av[j] == (e.attrs@[j].0@, e.attrs@[j].1@),
                    out@ + attrs_from(av, i as int) == "<"@ + tag@ + attrs_from(av, 0),
                decreases na - i,
            {
                let ghost before = out@;
                out.append(" ");
                out.append(e.attrs[i].0.as_str());
                out.append("=\"");
                out.append(e.attrs[i].1.as_str());
                out.append("\"");
                proof {
                    assert(out@ =~= before + attr_text(av[i as int]));
                    assert(out@ + attrs_from(av, i + 1) =~= before + attrs_from(av, i as int));
                }
                i = i + 1;
            }
            out.append(">");
            let mut cind = ind.to_owned();
            cind.append("  ");
            let mut content = String::new();
            proof {
                crate::node::lemma_entries_view(e.children@);
            }
            let nc = e.children.len();
            let mut k: usize = 0;
            while k < nc
                invariant
                    nc == e.children@.len(),
                    0 <= k <= nc,
                    *n == Node::Elem(*e),
                    evc == elem_view(*e).children,
                    evc.len() == nc,
                    forall|j: int|
                        0 <= j < nc ==> #[trigger] evc[j] == (
                        e.children@[j].0@,
                        node_view(e.children@[j].1),
                        ),
                    cind@ == ind@ + "  "@,
                    content@ + children_from(evc, k as int, ind@) == children_from(evc, 0, ind@),
                decreases nc - k,
            {
                let ghost at_entry = content@;
                match &e.children[k].1 {
                    Node::List(items) => {
                        proof {
                            crate::node::lemma_nodes_view(items@);
                        }
                        let ghost itv = nodes_view(items@);
                        let ni = items.len();
                        let mut j: usize = 0;
                        while j < ni
                            invariant
                                ni == items@.len(),
                                0 <= j <= ni,
                                nc == e.children@.len(),
                                0 <= k < nc,
                                *n == Node::Elem(*e),
                                evc == elem_view(*e).children,
                                evc.len() == nc,
                                forall|jj: int|
                                    0 <= jj < nc ==> #[trigger] evc[jj] == (
                                    e.children@[jj].0@,
                                    node_view(e.children@[jj].1),
                                    ),
                                e.children@[k as int].1 == Node::List(*items),
                                itv == nodes_view(items@),
                                itv.len() == ni,
                                forall|jj: int|
                                    0 <= jj < ni ==> #[trigger] itv[jj] == node_view(
                                        items@[jj],
                                    ),
                                cind@ == ind@ + "  "@,
                                content@ + items_from(itv, j as int, evc[k as int].0, ind@)
                                    == at_entry + items_from(itv, 0, evc[k as int].0, ind@),
                            decreases ni - j,
                        {
                            let ghost before = content@;
                            content.append("\n");
                            content.append(cind.as_str());
                            proof {
                                assert(*n == Node::Elem(*e));
                                assert(decreases_to!(*n => n->0));
                                assert(n->0 == *e);
                                assert(decreases_to!(*e => e.children));
                                assert(decreases_to!(e.children => e.children@));
                                assert(decreases_to!(e.children@ => e.children@[k as int]));
                                assert(decreases_to!(e.children@[k as int] => e.children@[k as int].1));
                                assert(decreases_to!(e.children@[k as int].1 => *items));
                                assert(decreases_to!(*items => items@));
                                assert(decreases_to!(items@ => items@[j as int]));
                            }
                            let piece = render(&items[j], e.children[k].0.as_str(), cind.as_str());
                            content.append(piece.as_str());
                            proof {
                                assert(content@ =~= before + ("\n"@ + ind@ + "  "@ + ser(
                                    itv[j as int],
                                    evc[k as int].0,
                                    ind@ + "  "@,
                                )));
                                assert(content@ + items_from(itv, j + 1, evc[k as int].0, ind@)
                                    =~= before + items_from(itv, j as int, evc[k as int].0, ind@));
                            }
                            j = j + 1;
                        }
                        proof {
                            assert(items_from(itv, ni as int, evc[k as int].0, ind@)
                                =~= Seq::<char>::empty());
                            assert(content@ =~= at_entry + items_from(
                                itv,
                                0,
                                evc[k as int].0,
                                ind@,
                            ));
                            assert(evc[k as int].1 == NodeV::List(itv));
                            assert(content@ + children_from(evc, k + 1, ind@) =~= children_from(
                                evc,
                                0,
                                ind@,
                            ));
                        }
                    },
                    child => {
                        let ghost before = content@;
                        content.append("\n");
                        content.append(cind.as_str());
                        proof {
                            assert(*n == Node::Elem(*e));
                            assert(decreases_to!(*n => n->0));
                            assert(n->0 == *e);
                            assert(decreases_to!(*e => e.children));
                            assert(decreases_to!(e.children => e.children@));
                            assert(decreases_to!(e.children@ => e.children@[k as int]));
                            assert(decreases_to!(e.children@[k as int] => e.children@[k as int].1));
                        }
                        let piece = render(child, e.children[k].0.as_str(), cind.as_str());
                        content.append(piece.as_str());
                        proof {
                            assert(!(evc[k as int].1 is List));
                            assert(content@ =~= before + ("\n"@ + ind@ + "  "@ + ser(
                                evc[k as int].1,
                                evc[k as int].0,
                                ind@ + "  "@,
                            )));
                            assert(content@ + children_from(evc, k + 1, ind@) =~= before
                                + children_from(evc, k as int, ind@));
                        }
                    },
                }
                k = k + 1;
            }
            proof {
                assert(children_from(evc, nc as int, ind@) =~= Seq::<char>::empty());
                assert(content@ =~= children_from(evc, 0, ind@));
            }
            if content.as_str().is_empty() {
                out.append("</");
                out.append(tag);
                out.append(">");
            } else {
                out.append(content.as_str());
                out.append("\n");
                out.append(ind);
                out.append("</");
                out.append(tag);
                out.append(">");
            }
            proof {
                assert(out@ =~= ser(n@, tag@, ind@));
            }
            out
        },
    }
}

/// Renders a whole document under the given root tag.
pub fn render_document(tag: &str, root: &Node) -> (r: String)
    ensures
        r@ == document_text(tag@, root@),
{
    let mut out = "<?xml version=\"1.0\" encoding=\"UTF-8\"?>\n".to_owned();
    let body = render(root, tag, "");
    out.append(body.as_str());
    out.append("\n");
    proof {
        reveal_strlit("");
        assert(""@ =~= Seq::<char>::empty());
        assert(out@ =~= document_text(tag@, root@));
    }
    out
}

} // verus!

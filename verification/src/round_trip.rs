//! Round-trip law: serializing a tree and re-parsing the text yields the
//! tree again.
//!
//! The law holds for canonical trees: tag names are nonempty, made of
//! name characters and carry no namespace colon (parsing keys children by
//! local name); scalar text is nonempty, trimmed and free of markup;
//! attribute values carry no quote; sibling tags are distinct (a repeat
//! would re-parse as a list); and a list holds at least two items (a
//! shorter one would re-parse as a bare node or nothing).

use crate::node::{ElemV, NodeV};
use crate::parse::{
    add_child, attrs_at, colon_rpos, content_at, document_at, element_at, is_name_char, is_ws,
    local_name, name_end, pi_end, prolog_end, rstrip_end, text_end, trimmed, value_end, ws_end,
};
use crate::render::{attr_text, attrs_from, children_from, document_text, items_from, ser,
    xml_header};
use vstd::prelude::*;

verus! {

// ---------------------------------------------------------------------
// Canonical trees.
// ---------------------------------------------------------------------
pub open spec fn ws_only(s: Seq<char>) -> bool {
    forall|i: int| 0 <= i < s.len() ==> is_ws(s[i])
}

/// A tag name that keys a child or names the root: nonempty, made of
/// name characters, without a namespace colon.
pub open spec fn wf_tag(n: Seq<char>) -> bool {
    n.len() > 0 && (forall|i: int| 0 <= i < n.len() ==> is_name_char(n[i]) && n[i] != ':')
}

/// An attribute whose name is nonempty and made of name characters, and
/// whose value carries no quote.
pub open spec fn wf_attr(a: (Seq<char>, Seq<char>)) -> bool {
    &&& a.0.len() > 0
    &&& (forall|i: int| 0 <= i < a.0.len() ==> is_name_char(a.0[i]))
    &&& (forall|i: int| 0 <= i < a.1.len() ==> a.1[i] != '"')
}

/// Scalar text that survives the parser's trimming: nonempty, trimmed,
/// free of markup.
pub open spec fn wf_text(s: Seq<char>) -> bool {
    s.len() > 0 && trimmed(s) == s && (forall|i: int| 0 <= i < s.len() ==> s[i] != '<')
}

/// A canonical node: one whose rendering re-parses to itself.
pub open spec fn canonical(n: NodeV) -> bool
    decreases n, 0int,
{
    match n {
        NodeV::Text(s) => wf_text(s),
        NodeV::List(_) => false,
        NodeV::Elem(e) => {
            &&& (forall|i: int| 0 <= i < e.attrs.len() ==> wf_attr(#[trigger] e.attrs[i]))
            &&& canonical_entries(e.children)
        },
    }
}

/// Canonical child entries: distinct well-formed tags, canonical values.
pub open spec fn canonical_entries(es: Seq<(Seq<char>, NodeV)>) -> bool
    decreases es, 2int,
{
    &&& (forall|i: int, j: int| 0 <= i < j < es.len() ==> es[i].0 != es[j].0)
    &&& (forall|i: int|
        0 <= i < es.len() ==> wf_tag(#[trigger] es[i].0) && canonical_child(es[i].1))
}

/// A canonical child value: a canonical node, or a list of at least two
/// canonical non-list items.
pub open spec fn canonical_child(n: NodeV) -> bool
    decreases n, 1int,
{
    match n {
        NodeV::List(items) => items.len() >= 2 && (forall|i: int|
            0 <= i < items.len() ==> !(#[trigger] items[i] is List) && canonical(items[i])),
        _ => canonical(n),
    }
}

// ---------------------------------------------------------------------
// Fragments of the input.
// ---------------------------------------------------------------------
/// The characters of `s` from `i` on begin with `frag`.
pub open spec fn matches_at(s: Seq<char>, i: int, frag: Seq<char>) -> bool {
    &&& 0 <= i
    &&& i + frag.len() <= s.len()
    &&& (forall|k: int| 0 <= k < frag.len() ==> s[i + k] == #[trigger] frag[k])
}

proof fn lemma_matches_split(s: Seq<char>, i: int, a: Seq<char>, b: Seq<char>)
    requires
        matches_at(s, i, a + b),
    ensures
        matches_at(s, i, a),
        matches_at(s, i + a.len(), b),
{
    assert forall|k: int| 0 <= k < a.len() implies s[i + k] == a[k] by {
        assert((a + b)[k] == a[k]);
    }
    assert forall|k: int| 0 <= k < b.len() implies s[i + a.len() + k] == b[k] by {
        assert((a + b)[a.len() + k] == b[k]);
    }
}

proof fn lemma_matches_subrange(s: Seq<char>, i: int, frag: Seq<char>)
    requires
        matches_at(s, i, frag),
    ensures
        s.subrange(i, i + frag.len() as int) == frag,
{
    assert(s.subrange(i, i + frag.len() as int) =~= frag);
}

// ---------------------------------------------------------------------
// Where each scanner stops.
// ---------------------------------------------------------------------
proof fn lemma_ws_end_at(s: Seq<char>, i: int, j: int)
    requires
        0 <= i <= j <= s.len(),
        forall|k: int| i <= k < j ==> is_ws(s[k]),
        j == s.len() || !is_ws(s[j]),
    ensures
        ws_end(s, i) == j,
    decreases j - i,
{
    if i < j {
        lemma_ws_end_at(s, i + 1, j);
    }
}

proof fn lemma_name_end_at(s: Seq<char>, i: int, j: int)
    requires
        0 <= i <= j <= s.len(),
        forall|k: int| i <= k < j ==> is_name_char(s[k]),
        j == s.len() || !is_name_char(s[j]),
    ensures
        name_end(s, i) == j,
    decreases j - i,
{
    if i < j {
        lemma_name_end_at(s, i + 1, j);
    }
}

proof fn lemma_text_end_at(s: Seq<char>, i: int, j: int)
    requires
        0 <= i <= j <= s.len(),
        forall|k: int| i <= k < j ==> s[k] != '<',
        j == s.len() || s[j] == '<',
    ensures
        text_end(s, i) == j,
    decreases j - i,
{
    if i < j {
        lemma_text_end_at(s, i + 1, j);
    }
}

proof fn lemma_value_end_at(s: Seq<char>, i: int, j: int)
    requires
        0 <= i <= j <= s.len(),
        forall|k: int| i <= k < j ==> s[k] != '"',
        j == s.len() || s[j] == '"',
    ensures
        value_end(s, i) == j,
    decreases j - i,
{
    if i < j {
        lemma_value_end_at(s, i + 1, j);
    }
}

proof fn lemma_pi_end_at(s: Seq<char>, i: int, j: int)
    requires
        0 <= i <= j,
        j + 1 < s.len(),
        forall|k: int| i <= k < j ==> !(#[trigger] s[k] == '?' && s[k + 1] == '>'),
        s[j] == '?' && s[j + 1] == '>',
    ensures
        pi_end(s, i) == Some(j + 2),
    decreases j - i,
{
    if i < j {
        lemma_pi_end_at(s, i + 1, j);
    }
}

/// A name without colons is its own local name.
proof fn lemma_colon_rpos_none(s: Seq<char>, b: int)
    requires
        b <= s.len(),
        forall|k: int| 0 <= k < b ==> s[k] != ':',
    ensures
        colon_rpos(s, b) == -1,
    decreases b,
{
    if b > 0 {
        lemma_colon_rpos_none(s, b - 1);
    }
}

proof fn lemma_local_name_id(name: Seq<char>)
    requires
        wf_tag(name),
    ensures
        local_name(name) == name,
{
    lemma_colon_rpos_none(name, name.len() as int);
}

/// A whitespace run trims to nothing.
proof fn lemma_trim_ws(s: Seq<char>)
    requires
        ws_only(s),
    ensures
        trimmed(s).len() == 0,
{
    lemma_ws_end_at(s, 0, s.len() as int);
    lemma_rstrip_all_ws(s, s.len() as int);
}

proof fn lemma_rstrip_all_ws(s: Seq<char>, b: int)
    requires
        0 <= b <= s.len(),
        forall|k: int| 0 <= k < b ==> is_ws(s[k]),
    ensures
        rstrip_end(s, b) == 0,
    decreases b,
{
    if b > 0 {
        lemma_rstrip_all_ws(s, b - 1);
    }
}

// ---------------------------------------------------------------------
// Named fragments of the rendered form.
// ---------------------------------------------------------------------
/// The closing tag.
pub open spec fn closing_text(tag: Seq<char>) -> Seq<char> {
    "</"@ + tag + ">"@
}

/// The line break and indentation before each child line.
pub open spec fn entry_sep(ind: Seq<char>) -> Seq<char> {
    "\n"@ + ind + "  "@
}

/// The line break, indentation and closing tag that end an element with
/// content.
pub open spec fn elem_close(ind: Seq<char>, tag: Seq<char>) -> Seq<char> {
    "\n"@ + ind + closing_text(tag)
}

/// The rendering of a scalar or element begins with `'<'`.
proof fn lemma_ser_starts(n: NodeV, tag: Seq<char>, ind: Seq<char>)
    requires
        !(n is List),
        tag.len() > 0,
    ensures
        ser(n, tag, ind).len() > 1,
        ser(n, tag, ind)[0] == '<',
        ser(n, tag, ind)[1] == tag[0],
{
    reveal_strlit("<");
    match n {
        NodeV::Text(s) => {
            assert(ser(n, tag, ind)[0] == '<');
        },
        NodeV::Elem(e) => {
            assert(ser(n, tag, ind)[0] == '<');
        },
        NodeV::List(_) => {
        },
    }
}

/// Reading an attribute list off its rendering: from just after the tag
/// name, the parser returns exactly the attributes and stops past the
/// closing `'>'`.
proof fn lemma_attrs_round_trip(
    s: Seq<char>,
    i: int,
    attrs: Seq<(Seq<char>, Seq<char>)>,
    j: int,
    acc: Seq<(Seq<char>, Seq<char>)>,
)
    requires
        0 <= j <= attrs.len(),
        forall|k: int| 0 <= k < attrs.len() ==> wf_attr(#[trigger] attrs[k]),
        matches_at(s, i, attrs_from(attrs, j) + ">"@),
    ensures
        attrs_at(s, i, acc) == Some(
            (
                acc + attrs.subrange(j, attrs.len() as int),
                false,
                i + attrs_from(attrs, j).len() + 1,
            ),
        ),
    decreases attrs.len() - j,
{
    reveal_strlit(">");
    reveal_strlit(" ");
    reveal_strlit("=\"");
    reveal_strlit("\"");
    if j == attrs.len() {
        assert(attrs_from(attrs, j) =~= Seq::<char>::empty());
        assert(attrs_from(attrs, j) + ">"@ =~= ">"@);
        assert(s[i] == '>') by {
            assert(s[i + 0] == (attrs_from(attrs, j) + ">"@)[0]);
        }
        lemma_ws_end_at(s, i, i);
        assert(acc + attrs.subrange(j, attrs.len() as int) =~= acc);
    } else {
        let a = attrs[j];
        let nl = a.0.len() as int;
        let vl = a.1.len() as int;
        let at = attr_text(a);
        let rest = attrs_from(attrs, j + 1) + ">"@;
        assert(attrs_from(attrs, j) + ">"@ =~= at + rest);
        lemma_matches_split(s, i, at, rest);
        // decompose the attribute text itself
        assert(at =~= ((" "@ + a.0) + "=\""@) + (a.1 + "\""@));
        lemma_matches_split(s, i, (" "@ + a.0) + "=\""@, a.1 + "\""@);
        lemma_matches_split(s, i, " "@ + a.0, "=\""@);
        lemma_matches_split(s, i, " "@, a.0);
        lemma_matches_split(s, i + 3 + nl, a.1, "\""@);
        assert(s[i] == ' ') by {
            assert(s[i + 0] == " "@[0]);
        }
        assert(forall|k: int| 0 <= k < nl ==> s[i + 1 + k] == a.0[k]);
        assert(s[i + 1 + nl] == '=') by {
            assert(s[i + 1 + nl + 0] == "=\""@[0]);
        }
        assert(s[i + 2 + nl] == '"') by {
            assert(s[i + 1 + nl + 1] == "=\""@[1]);
        }
        assert(forall|k: int| 0 <= k < vl ==> s[i + 3 + nl + k] == a.1[k]);
        assert(s[i + 3 + nl + vl] == '"') by {
            assert(s[i + 3 + nl + vl + 0] == "\""@[0]);
        }
        // the scanners stop where the pieces end
        assert(is_name_char(s[i + 1])) by {
            assert(s[i + 1 + 0] == a.0[0]);
        }
        lemma_ws_end_at(s, i, i + 1);
        assert forall|k: int| i + 1 <= k < i + 1 + nl implies is_name_char(s[k]) by {
            assert(s[i + 1 + (k - i - 1)] == a.0[k - i - 1]);
        }
        lemma_name_end_at(s, i + 1, i + 1 + nl);
        lemma_ws_end_at(s, i + 1 + nl, i + 1 + nl);
        lemma_ws_end_at(s, i + 2 + nl, i + 2 + nl);
        assert forall|k: int| i + 3 + nl <= k < i + 3 + nl + vl implies s[k] != '"' by {
            assert(s[i + 3 + nl + (k - i - 3 - nl)] == a.1[k - i - 3 - nl]);
        }
        lemma_value_end_at(s, i + 3 + nl, i + 3 + nl + vl);
        let ve = i + 3 + nl + vl;
        lemma_matches_subrange(s, i + 1, a.0);
        lemma_matches_subrange(s, i + 3 + nl, a.1);
        assert((s.subrange(i + 1, i + 1 + nl), s.subrange(i + 3 + nl, ve)) == a);
        lemma_attrs_round_trip(s, ve + 1, attrs, j + 1, acc.push(a));
        assert(acc.push(a) + attrs.subrange(j + 1, attrs.len() as int) =~= acc + attrs.subrange(
            j,
            attrs.len() as int,
        ));
        assert(attrs_at(s, i, acc) == attrs_at(s, ve + 1, acc.push(
            (s.subrange(i + 1, i + 1 + nl), s.subrange(i + 3 + nl, ve)),
        )));
    }
}

/// Reading a closing tag: the parser finishes the element, collapsing to
/// a scalar exactly when nothing but a text run was seen.
proof fn lemma_closing(
    s: Seq<char>,
    t: int,
    tag: Seq<char>,
    attrs: Seq<(Seq<char>, Seq<char>)>,
    built: Seq<(Seq<char>, NodeV)>,
    text: Option<Seq<char>>,
)
    requires
        wf_tag(tag),
        matches_at(s, t, closing_text(tag)),
    ensures
        content_at(s, t, tag, attrs, built, text) == Some(
            (
                if attrs.len() == 0 && built.len() == 0 && text is Some {
                    NodeV::Text(text->0)
                } else {
                    NodeV::Elem(ElemV { attrs, children: built })
                },
                t + closing_text(tag).len() as int,
            ),
        ),
{
    reveal_strlit("</");
    reveal_strlit(">");
    let nl = tag.len() as int;
    lemma_matches_split(s, t, "</"@ + tag, ">"@);
    lemma_matches_split(s, t, "</"@, tag);
    assert(s[t] == '<') by {
        assert(s[t + 0] == "</"@[0]);
    }
    assert(s[t + 1] == '/') by {
        assert(s[t + 1] == "</"@[1]);
    }
    assert(forall|k: int| 0 <= k < nl ==> s[t + 2 + k] == tag[k]);
    assert(s[t + 2 + nl] == '>') by {
        assert(s[t + 2 + nl + 0] == ">"@[0]);
    }
    assert forall|k: int| t + 2 <= k < t + 2 + nl implies is_name_char(s[k]) by {
        assert(s[t + 2 + (k - t - 2)] == tag[k - t - 2]);
    }
    lemma_name_end_at(s, t + 2, t + 2 + nl);
    lemma_matches_subrange(s, t + 2, tag);
    lemma_ws_end_at(s, t + 2 + nl, t + 2 + nl);
}

/// A nonempty entry sequence renders to nonempty content.
proof fn lemma_children_from_len(es: Seq<(Seq<char>, NodeV)>, ind: Seq<char>)
    requires
        canonical_entries(es),
        es.len() > 0,
    ensures
        children_from(es, 0, ind).len() > 0,
{
    reveal_strlit("\n");
    assert(wf_tag(es[0].0) && canonical_child(es[0].1));
    match es[0].1 {
        NodeV::List(items) => {
            assert(items.len() >= 2);
            assert(items_from(items, 0, es[0].0, ind).len() > 0);
        },
        _ => {
        },
    }
}

/// The children accumulated so far while re-parsing a repeated tag: the
/// finished entries, then the repeated entry holding the items seen.
pub open spec fn partial_children(
    es: Seq<(Seq<char>, NodeV)>,
    k: int,
    items: Seq<NodeV>,
    r: int,
) -> Seq<(Seq<char>, NodeV)> {
    es.subrange(0, k).push(
        (
            es[k].0,
            if r == 1 {
                items[0]
            } else {
                NodeV::List(items.subrange(0, r))
            },
        ),
    )
}

/// One child line: the separator leaves the parser's state unchanged and
/// the element below it parses back to itself, joining the accumulated
/// children.
proof fn lemma_child_line(
    s: Seq<char>,
    i: int,
    child: NodeV,
    nm: Seq<char>,
    ename: Seq<char>,
    ind: Seq<char>,
    attrs: Seq<(Seq<char>, Seq<char>)>,
    built: Seq<(Seq<char>, NodeV)>,
    text: Option<Seq<char>>,
)
    requires
        canonical(child),
        wf_tag(nm),
        ws_only(ind),
        matches_at(s, i, entry_sep(ind) + ser(child, nm, ind + "  "@)),
    ensures
        content_at(s, i, ename, attrs, built, text) == content_at(
            s,
            i + entry_sep(ind).len() + ser(child, nm, ind + "  "@).len(),
            ename,
            attrs,
            add_child(built, nm, child),
            text,
        ),
    decreases child, 1int, 0int, 0int,
{
    reveal_strlit("\n");
    reveal_strlit("  ");
    let sep = entry_sep(ind);
    let body = ser(child, nm, ind + "  "@);
    lemma_matches_split(s, i, sep, body);
    assert(!(child is List));
    lemma_ser_starts(child, nm, ind + "  "@);
    assert forall|k: int| 0 <= k < sep.len() implies is_ws(sep[k]) by {
        if k == 0 {
            assert(sep[k] == "\n"@[0]);
        } else if k < 1 + ind.len() {
            assert(sep[k] == ind[k - 1]);
        } else {
            assert(sep[k] == "  "@[k - 1 - ind.len()]);
        }
    }
    let t = i + sep.len() as int;
    assert(s[t] == '<') by {
        assert(s[t + 0] == body[0]);
    }
    assert forall|k: int| i <= k < t implies s[k] != '<' by {
        assert(s[i + (k - i)] == sep[k - i]);
        assert(is_ws(sep[k - i]));
    }
    lemma_text_end_at(s, i, t);
    lemma_matches_subrange(s, i, sep);
    lemma_trim_ws(sep);
    assert(s[i] != '<') by {
        assert(s[i + 0] == sep[0]);
    }
    assert(content_at(s, i, ename, attrs, built, text) == content_at(
        s,
        t,
        ename,
        attrs,
        built,
        text,
    ));
    assert(s[t + 1] == nm[0]) by {
        assert(s[t + 1] == body[1]);
    }
    assert(is_name_char(nm[0]));
    assert forall|k: int| 0 <= k < (ind + "  "@).len() implies is_ws((ind + "  "@)[k]) by {
        if k < ind.len() {
            assert((ind + "  "@)[k] == ind[k]);
        } else {
            assert((ind + "  "@)[k] == "  "@[k - ind.len()]);
        }
    }
    lemma_element_round_trip(s, t, child, nm, ind + "  "@);
    let q = t + body.len() as int;
    assert(content_at(s, t, ename, attrs, built, text) == content_at(
        s,
        q,
        ename,
        attrs,
        add_child(built, nm, child),
        text,
    ));
}

/// An element's rendering re-parses to the element, ending just past its
/// closing tag.
#[verifier::rlimit(100)]
proof fn lemma_element_round_trip(s: Seq<char>, i: int, n: NodeV, tag: Seq<char>, ind: Seq<char>)
    requires
        canonical(n),
        wf_tag(tag),
        ws_only(ind),
        matches_at(s, i, ser(n, tag, ind)),
    ensures
        element_at(s, i) == Some(((tag, n), i + ser(n, tag, ind).len())),
    decreases n, 0int, 0int, 0int,
{
    reveal_strlit("<");
    reveal_strlit(">");
    reveal_strlit("</");
    reveal_strlit(" ");
    lemma_local_name_id(tag);
    let nl = tag.len() as int;
    let frag = ser(n, tag, ind);
    match n {
        NodeV::Text(txt) => {
            let tl = txt.len() as int;
            let p1 = ("<"@ + tag) + ">"@;
            assert(frag =~= (p1 + txt) + closing_text(tag));
            lemma_matches_split(s, i, p1 + txt, closing_text(tag));
            lemma_matches_split(s, i, p1, txt);
            lemma_matches_split(s, i, "<"@ + tag, ">"@);
            lemma_matches_split(s, i, "<"@, tag);
            assert(s[i] == '<') by {
                assert(s[i + 0] == "<"@[0]);
            }
            assert forall|k: int| i + 1 <= k < i + 1 + nl implies is_name_char(s[k]) by {
                assert(s[i + 1 + (k - i - 1)] == tag[k - i - 1]);
            }
            assert(s[i + 1 + nl] == '>') by {
                assert(s[i + 1 + nl + 0] == ">"@[0]);
            }
            lemma_name_end_at(s, i + 1, i + 1 + nl);
            lemma_matches_subrange(s, i + 1, tag);
            lemma_ws_end_at(s, i + 1 + nl, i + 1 + nl);
            let p = i + 2 + nl;
            assert(attrs_at(s, i + 1 + nl, Seq::empty()) == Some(
                (Seq::<(Seq<char>, Seq<char>)>::empty(), false, p),
            ));
            assert(s[p + tl] == '<') by {
                assert(s[p + tl + 0] == closing_text(tag)[0]);
                assert(closing_text(tag)[0] == "</"@[0]);
            }
            assert forall|k: int| p <= k < p + tl implies s[k] != '<' by {
                assert(s[p + (k - p)] == txt[k - p]);
            }
            lemma_text_end_at(s, p, p + tl);
            lemma_matches_subrange(s, p, txt);
            assert(s[p] != '<') by {
                assert(s[p + 0] == txt[0]);
            }
            assert(content_at(s, p, tag, Seq::empty(), Seq::empty(), None::<Seq<char>>)
                == content_at(s, p + tl, tag, Seq::empty(), Seq::empty(), Some(txt)));
            lemma_closing(
                s,
                p + tl,
                tag,
                Seq::empty(),
                Seq::empty(),
                Some(txt),
            );
            assert(element_at(s, i) == Some(((tag, n), i + frag.len())));
        },
        NodeV::Elem(e) => {
            let es = e.children;
            let alen = attrs_from(e.attrs, 0).len() as int;
            let inner = children_from(es, 0, ind);
            let g1 = "<"@ + tag;
            let g2 = attrs_from(e.attrs, 0) + ">"@;
            if inner.len() == 0 {
                assert(frag =~= (g1 + g2) + closing_text(tag));
                lemma_matches_split(s, i, g1 + g2, closing_text(tag));
                lemma_matches_split(s, i, g1, g2);
                lemma_matches_split(s, i, "<"@, tag);
            } else {
                assert(frag =~= (g1 + g2) + (inner + elem_close(ind, tag)));
                lemma_matches_split(s, i, g1 + g2, inner + elem_close(ind, tag));
                lemma_matches_split(s, i, g1, g2);
                lemma_matches_split(s, i, "<"@, tag);
            }
            assert(s[i] == '<') by {
                assert(s[i + 0] == "<"@[0]);
            }
            assert forall|k: int| i + 1 <= k < i + 1 + nl implies is_name_char(s[k]) by {
                assert(s[i + 1 + (k - i - 1)] == tag[k - i - 1]);
            }
            // the character after the tag name is either the first
            // attribute's leading space or the opening tag's '>'
            if e.attrs.len() > 0 {
                assert(wf_attr(e.attrs[0]));
                assert(g2[0] == ' ') by {
                    assert(attrs_from(e.attrs, 0)[0] == attr_text(e.attrs[0])[0]);
                    assert(attr_text(e.attrs[0])[0] == " "@[0]);
                }
            } else {
                assert(attrs_from(e.attrs, 0) =~= Seq::<char>::empty());
                assert(g2[0] == '>') by {
                    assert(g2[0] == ">"@[0]);
                }
            }
            assert(s[i + 1 + nl] == g2[0]) by {
                assert(s[i + 1 + nl + 0] == g2[0]);
            }
            assert(!is_name_char(g2[0]));
            lemma_name_end_at(s, i + 1, i + 1 + nl);
            lemma_matches_subrange(s, i + 1, tag);
            lemma_attrs_round_trip(s, i + 1 + nl, e.attrs, 0, Seq::empty());
            assert(Seq::<(Seq<char>, Seq<char>)>::empty() + e.attrs.subrange(
                0,
                e.attrs.len() as int,
            ) =~= e.attrs);
            let p = i + 2 + nl + alen;
            if inner.len() == 0 {
                if es.len() > 0 {
                    lemma_children_from_len(es, ind);
                }
                assert(es.len() == 0);
                lemma_closing(s, p, tag, e.attrs, Seq::empty(), None::<Seq<char>>);
                assert(es.subrange(0, 0) =~= Seq::<(Seq<char>, NodeV)>::empty());
                assert(e.children =~= Seq::<(Seq<char>, NodeV)>::empty());
                assert(ElemV { attrs: e.attrs, children: Seq::empty() } =~= e);
                assert(element_at(s, i) == Some(((tag, n), i + frag.len())));
            } else {
                assert(es.len() > 0) by {
                    if es.len() == 0 {
                        assert(children_from(es, 0, ind) =~= Seq::<char>::empty());
                    }
                }
                lemma_children_round_trip(s, p, es, 0, tag, ind, e.attrs, None::<Seq<char>>);
                assert(es.subrange(0, 0) =~= Seq::<(Seq<char>, NodeV)>::empty());
                assert(ElemV { attrs: e.attrs, children: es } =~= e);
                assert(element_at(s, i) == Some(((tag, n), i + frag.len())));
            }
        },
        NodeV::List(_) => {
            assert(false);
        },
    }
}

/// The rendered child entries from `k` on, followed by the closing line,
/// re-parse into the full entry list and finish the element.
proof fn lemma_children_round_trip(
    s: Seq<char>,
    i: int,
    es: Seq<(Seq<char>, NodeV)>,
    k: int,
    tag: Seq<char>,
    ind: Seq<char>,
    attrs: Seq<(Seq<char>, Seq<char>)>,
    text: Option<Seq<char>>,
)
    requires
        canonical_entries(es),
        wf_tag(tag),
        ws_only(ind),
        0 <= k <= es.len(),
        es.len() > 0,
        matches_at(s, i, children_from(es, k, ind) + elem_close(ind, tag)),
    ensures
        content_at(s, i, tag, attrs, es.subrange(0, k), text) == Some(
            (
                NodeV::Elem(ElemV { attrs, children: es }),
                i + (children_from(es, k, ind) + elem_close(ind, tag)).len(),
            ),
        ),
    decreases es, es.len() - k, 1int, 0int,
{
    reveal_strlit("\n");
    reveal_strlit("</");
    let ec = elem_close(ind, tag);
    if k == es.len() {
        let run = "\n"@ + ind;
        assert(children_from(es, k, ind) =~= Seq::<char>::empty());
        assert(children_from(es, k, ind) + ec =~= run + closing_text(tag));
        lemma_matches_split(s, i, run, closing_text(tag));
        assert forall|k2: int| 0 <= k2 < run.len() implies is_ws(run[k2]) by {
            if k2 == 0 {
                assert(run[k2] == "\n"@[0]);
            } else {
                assert(run[k2] == ind[k2 - 1]);
            }
        }
        let t = i + run.len() as int;
        assert(s[t] == '<') by {
            assert(s[t + 0] == closing_text(tag)[0]);
            assert(closing_text(tag)[0] == "</"@[0]);
        }
        assert forall|k2: int| i <= k2 < t implies s[k2] != '<' by {
            assert(s[i + (k2 - i)] == run[k2 - i]);
            assert(is_ws(run[k2 - i]));
        }
        lemma_text_end_at(s, i, t);
        lemma_matches_subrange(s, i, run);
        lemma_trim_ws(run);
        assert(s[i] != '<') by {
            assert(s[i + 0] == run[0]);
        }
        assert(content_at(s, i, tag, attrs, es.subrange(0, k), text) == content_at(
            s,
            t,
            tag,
            attrs,
            es.subrange(0, k),
            text,
        ));
        lemma_closing(s, t, tag, attrs, es.subrange(0, k), text);
        assert(es.subrange(0, k) =~= es);
    } else {
        assert(wf_tag(es[k].0) && canonical_child(es[k].1));
        let nm = es[k].0;
        let cf1 = children_from(es, k + 1, ind);
        assert forall|j: int| 0 <= j < k implies es.subrange(0, k)[j].0 != nm by {
            assert(es.subrange(0, k)[j] == es[j]);
            assert(es[j].0 != es[k].0);
        }
        crate::node::lemma_find_key_none(es.subrange(0, k), nm);
        match es[k].1 {
            NodeV::List(items) => {
                assert(items.len() >= 2);
                assert(!(items[0] is List) && canonical(items[0]));
                let line = entry_sep(ind) + ser(items[0], nm, ind + "  "@);
                let rest = (items_from(items, 1, nm, ind) + cf1) + ec;
                assert(children_from(es, k, ind) == items_from(items, 0, nm, ind) + cf1);
                assert(items_from(items, 0, nm, ind) == "\n"@ + ind + "  "@ + ser(
                    items[0],
                    nm,
                    ind + "  "@,
                ) + items_from(items, 1, nm, ind));
                assert(line =~= "\n"@ + ind + "  "@ + ser(items[0], nm, ind + "  "@));
                assert(children_from(es, k, ind) + ec =~= line + rest);
                lemma_matches_split(s, i, line, rest);
                lemma_child_line(
                    s,
                    i,
                    items[0],
                    nm,
                    tag,
                    ind,
                    attrs,
                    es.subrange(0, k),
                    text,
                );
                assert(add_child(es.subrange(0, k), nm, items[0]) =~= partial_children(
                    es,
                    k,
                    items,
                    1,
                ));
                let i1 = i + line.len() as int;
                lemma_list_round_trip(s, i1, es, k, items, 1, tag, ind, attrs, text);
            },
            _ => {
                let child = es[k].1;
                assert(canonical(child));
                let line = entry_sep(ind) + ser(child, nm, ind + "  "@);
                let rest = cf1 + ec;
                assert(children_from(es, k, ind) + ec =~= line + rest);
                lemma_matches_split(s, i, line, rest);
                lemma_child_line(s, i, child, nm, tag, ind, attrs, es.subrange(0, k), text);
                assert(add_child(es.subrange(0, k), nm, child) =~= es.subrange(0, k + 1));
                let i1 = i + line.len() as int;
                lemma_children_round_trip(s, i1, es, k + 1, tag, ind, attrs, text);
            },
        }
    }
}

/// The remaining items of a repeated tag re-parse one by one, growing
/// the list in place, and the element finishes after the closing line.
proof fn lemma_list_round_trip(
    s: Seq<char>,
    i: int,
    es: Seq<(Seq<char>, NodeV)>,
    k: int,
    items: Seq<NodeV>,
    r: int,
    tag: Seq<char>,
    ind: Seq<char>,
    attrs: Seq<(Seq<char>, Seq<char>)>,
    text: Option<Seq<char>>,
)
    requires
        canonical_entries(es),
        wf_tag(tag),
        ws_only(ind),
        0 <= k < es.len(),
        es[k].1 == NodeV::List(items),
        1 <= r < items.len(),
        matches_at(
            s,
            i,
            items_from(items, r, es[k].0, ind) + children_from(es, k + 1, ind) + elem_close(
                ind,
                tag,
            ),
        ),
    ensures
        content_at(s, i, tag, attrs, partial_children(es, k, items, r), text) == Some(
            (
                NodeV::Elem(ElemV { attrs, children: es }),
                i + (items_from(items, r, es[k].0, ind) + children_from(es, k + 1, ind)
                    + elem_close(ind, tag)).len(),
            ),
        ),
    decreases es, es.len() - k, 0int, items.len() - r,
{
    let nm = es[k].0;
    assert(wf_tag(es[k].0) && canonical_child(es[k].1));
    assert(items.len() >= 2);
    assert(!(items[r] is List) && canonical(items[r]));
    assert(!(items[0] is List));
    let line = entry_sep(ind) + ser(items[r], nm, ind + "  "@);
    let rest_items = items_from(items, r + 1, nm, ind);
    let cf1 = children_from(es, k + 1, ind);
    let ec = elem_close(ind, tag);
    assert(items_from(items, r, nm, ind) + cf1 + ec =~= line + ((rest_items + cf1) + ec));
    lemma_matches_split(s, i, line, (rest_items + cf1) + ec);
    let built = partial_children(es, k, items, r);
    lemma_child_line(s, i, items[r], nm, tag, ind, attrs, built, text);
    assert forall|j: int| 0 <= j < k implies built[j].0 != nm by {
        assert(built[j] == es.subrange(0, k)[j]);
        assert(es.subrange(0, k)[j] == es[j]);
        assert(es[j].0 != es[k].0);
    }
    assert(built[k as int].0 == nm);
    crate::node::lemma_find_key_is(built, nm, k);
    if r == 1 {
        assert(built[k as int].1 == items[0]);
        assert(seq![items[0], items[1]] =~= items.subrange(0, 2));
        assert(add_child(built, nm, items[r]) =~= partial_children(es, k, items, 2));
    } else {
        assert(built[k as int].1 == NodeV::List(items.subrange(0, r)));
        assert(items.subrange(0, r).push(items[r]) =~= items.subrange(0, r + 1));
        assert(add_child(built, nm, items[r]) =~= partial_children(es, k, items, r + 1));
    }
    let i1 = i + line.len() as int;
    if r + 1 < items.len() {
        lemma_list_round_trip(s, i1, es, k, items, r + 1, tag, ind, attrs, text);
    } else {
        assert(items.subrange(0, r + 1) =~= items);
        assert(es[k] == (es[k].0, es[k].1));
        assert(partial_children(es, k, items, r + 1) =~= es.subrange(0, k + 1));
        assert(rest_items =~= Seq::<char>::empty());
        assert((rest_items + cf1) + ec =~= cf1 + ec);
        lemma_children_round_trip(s, i1, es, k + 1, tag, ind, attrs, text);
    }
}

/// Round-trip idempotence: rendering a canonical tree as a document and
/// re-parsing the text yields the same root tag and the same tree.
///
/// `wf_tag` and `canonical` say what "no collisions" means here: names
/// are plain (nonempty name characters, no namespace colon), scalar text
/// is trimmed, nonempty and free of markup, attribute values carry no
/// quote, sibling tags are distinct, and every list holds at least two
/// non-list items — a repeated tag is the only way XML text can express
/// a list, so any other list shape cannot survive a round trip.
#[verifier::rlimit(60)]
pub proof fn lemma_render_parse_round_trip(tag: Seq<char>, t: NodeV)
    requires
        wf_tag(tag),
        canonical(t),
    ensures
        document_at(document_text(tag, t)) == Some((tag, t)),
{
    reveal_strlit("<?xml version=\"1.0\" encoding=\"UTF-8\"?>\n");
    reveal_strlit("\n");
    let h = xml_header();
    let body = ser(t, tag, Seq::empty());
    let s = document_text(tag, t);
    assert(h.len() == 39);
    assert(matches_at(s, 0, s)) by {
        assert(forall|k: int| 0 <= k < s.len() ==> s[0int + k] == #[trigger] s[k]);
    }
    assert(s =~= (h + body) + "\n"@);
    lemma_matches_split(s, 0, h + body, "\n"@);
    lemma_matches_split(s, 0, h, body);
    assert(forall|k: int| 0 <= k < 39 ==> s[0int + k] == h[k]);
    assert(s[0] == '<') by {
        assert(s[0int + 0] == h[0]);
    }
    assert(s[1] == '?') by {
        assert(s[0int + 1] == h[1]);
    }
    lemma_ws_end_at(s, 0, 0);
    assert forall|k: int| 2 <= k < 36 implies !(#[trigger] s[k] == '?' && s[k + 1] == '>') by {
        assert(s[0int + k] == h[k]);
        assert(s[0int + (k + 1)] == h[k + 1]);
    }
    assert(s[36] == '?') by {
        assert(s[0int + 36] == h[36]);
    }
    assert(s[37] == '>') by {
        assert(s[0int + 37] == h[37]);
    }
    lemma_pi_end_at(s, 2, 36);
    assert(prolog_end(s, 0) == Some(38int));
    assert(s[38] == '\n') by {
        assert(s[0int + 38] == h[38]);
    }
    lemma_ser_starts(t, tag, Seq::empty());
    assert(s[39] == '<') by {
        assert(s[39int + 0] == body[0]);
    }
    lemma_ws_end_at(s, 38, 39);
    lemma_element_round_trip(s, 39, t, tag, Seq::empty());
    let q = 39 + body.len() as int;
    assert(s[q] == '\n') by {
        assert(s[q + 0] == "\n"@[0]);
    }
    assert(q + 1 == s.len());
    lemma_ws_end_at(s, q, s.len() as int);
}

} // verus!

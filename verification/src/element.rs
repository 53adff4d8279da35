//! Elements of documents, and lists of nodes that hold them.

use vstd::prelude::*;
use crate::xml;
use crate::xml::{AttributeView, NodeView};

verus! {

/// An element with what it holds.
pub struct Element {
    pub tag: Seq<char>,
    /// Names and values.
    pub attributes: Seq<(Seq<char>, Seq<char>)>,
    /// The text, where the element has one and no other elements.
    pub text: Option<Seq<char>>,
    pub children: Seq<Element>,
    /// What stands before each of the other elements and behind the last; empty where the element
    /// is closed as it is opened.
    pub gaps: Seq<Seq<char>>,
}

// ── Escaping ──

/// Whether a character may stand in a document.
pub open spec fn is_legal(c: char) -> bool {
    (' ' <= c && c != '\u{FFFE}' && c != '\u{FFFF}') || c == '\t' || c == '\n' || c == '\r'
}

/// Whether all characters of a text may stand in a document.
pub open spec fn is_legal_text(s: Seq<char>) -> bool {
    forall|i: int| 0 <= i < s.len() ==> is_legal(#[trigger] s[i])
}

/// A text with a replacement character in the place of each that may not stand in a document.
pub open spec fn cleaned(s: Seq<char>) -> Seq<char> {
    s.map_values(
        |c: char|
            if is_legal(c) {
                c
            } else {
                '\u{FFFD}'
            },
    )
}

/// Cleaning leaves nothing that may not stand in a document, and changes nothing that may.
pub proof fn cleaning_keeps_what_is_legal(s: Seq<char>)
    ensures
        is_legal_text(cleaned(s)),
        is_legal_text(s) ==> cleaned(s) == s,
        cleaned(s).len() == s.len(),
{
    if is_legal_text(s) {
        assert(cleaned(s) =~= s);
    }
}

/// Whether a text ends with two closing brackets, behind which `>` would be taken for the end of a
/// section.
pub open spec fn ends_in_brackets(s: Seq<char>) -> bool {
    s.len() >= 2 && s[s.len() - 1] == ']' && s[s.len() - 2] == ']'
}

/// A character as it is written in the value of an attribute or in a text, behind the characters
/// `before`.
pub open spec fn escaped_char(before: Seq<char>, c: char, in_value: bool) -> Seq<char> {
    if c == '&' {
        "&amp;"@
    } else if c == '<' {
        "&lt;"@
    } else if c == '>' && !in_value && ends_in_brackets(before) {
        "&gt;"@
    } else if c == '"' && in_value {
        "&quot;"@
    } else if c == '\r' {
        "&#13;"@
    } else if c == '\n' && in_value {
        "&#10;"@
    } else if c == '\t' && in_value {
        "&#9;"@
    } else {
        seq![c]
    }
}

/// The value of an attribute or a text as it is written.
pub open spec fn escaped(s: Seq<char>, in_value: bool) -> Seq<char>
    decreases s.len(),
{
    if s.len() == 0 {
        Seq::empty()
    } else {
        escaped(s.drop_last(), in_value) + escaped_char(s.drop_last(), s.last(), in_value)
    }
}

// ── Writing ──

/// The first `n` attributes as they are written.
pub open spec fn attributes_text(a: Seq<(Seq<char>, Seq<char>)>, n: int) -> Seq<char>
    decreases n,
{
    if n <= 0 {
        Seq::empty()
    } else {
        attributes_text(a, n - 1) + " "@ + a[n - 1].0 + "=\""@ + escaped(a[n - 1].1, true) + "\""@
    }
}

/// An element around a text.
pub open spec fn wrapped(tag: Seq<char>, attributes: Seq<char>, inner: Seq<char>) -> Seq<char> {
    "<"@ + tag + attributes + ">"@ + inner + "</"@ + tag + ">"@
}

/// An element as it is written.
pub open spec fn printed(e: Element) -> Seq<char>
    decreases e, e.children.len() + 1,
{
    let attributes = attributes_text(e.attributes, e.attributes.len() as int);
    match e.text {
        Some(t) => wrapped(e.tag, attributes, escaped(t, false)),
        None => if e.gaps.len() == 0 {
            "<"@ + e.tag + attributes + "/>"@
        } else {
            wrapped(e.tag, attributes, inner_text(e, e.children.len()))
        },
    }
}

/// What an element holds up to the `n`-th of the other elements, as it is written.
pub open spec fn inner_text(e: Element, n: nat) -> Seq<char>
    decreases e, n,
{
    if n == 0 || n > e.children.len() {
        e.gaps[0]
    } else {
        inner_text(e, (n - 1) as nat) + printed(e.children[n - 1]) + e.gaps[n as int]
    }
}

/// A document of one element in a namespace of its own.
pub open spec fn document_text(namespace: Seq<char>, e: Element) -> Seq<char> {
    "<?xml version=\"1.0\" encoding=\"utf-8\"?>\n"@ + wrapped(
        e.tag,
        " xmlns=\""@ + namespace + "\""@ + attributes_text(e.attributes, e.attributes.len() as int),
        inner_text(e, e.children.len()),
    ) + "\n"@
}

// ── Plain elements ──

/// Whether a text is a name of letters, digits and underscores.
pub open spec fn is_name(s: Seq<char>) -> bool {
    &&& s.len() > 0
    &&& forall|i: int|
        0 <= i < s.len() ==> {
            let c = #[trigger] s[i];
            ('a' <= c && c <= 'z') || ('A' <= c && c <= 'Z') || c == '_' || (i > 0 && '0' <= c && c <= '9')
        }
}

/// Whether a text is made of blanks and ends of lines.
pub open spec fn is_gap(s: Seq<char>) -> bool {
    forall|i: int| 0 <= i < s.len() ==> #[trigger] s[i] == ' ' || s[i] == '\n'
}

/// Whether attributes have different names and values of legal characters.
pub open spec fn are_plain(a: Seq<(Seq<char>, Seq<char>)>) -> bool {
    &&& forall|i: int|
        0 <= i < a.len() ==> is_name((#[trigger] a[i]).0) && a[i].0 != "xmlns"@ && is_legal_text(a[i].1)
    &&& forall|i: int, j: int| 0 <= i < j < a.len() ==> (#[trigger] a[i]).0 != (#[trigger] a[j]).0
}

/// Whether an element with all that it holds can be written.
pub open spec fn is_plain(e: Element) -> bool
    decreases e,
{
    &&& is_name(e.tag)
    &&& are_plain(e.attributes)
    &&& e.text matches Some(t) ==> is_legal_text(t) && e.children.len() == 0
    &&& e.gaps.len() == 0 ==> e.children.len() == 0
    &&& e.gaps.len() != 0 ==> e.gaps.len() == e.children.len() + 1
    &&& forall|i: int| 0 <= i < e.gaps.len() ==> is_gap(#[trigger] e.gaps[i])
    &&& forall|c: int| 0 <= c < e.children.len() ==> is_plain(#[trigger] e.children[c])
}

/// Attributes without namespaces.
pub open spec fn plain_attributes(a: Seq<(Seq<char>, Seq<char>)>) -> Seq<AttributeView> {
    a.map_values(
        |x: (Seq<char>, Seq<char>)| AttributeView { namespace: None, name: x.0, value: x.1 },
    )
}

/// Whether a node has the name, the attributes and the text of an element.
pub open spec fn looks_like(node: NodeView, e: Element) -> bool {
    &&& node.tag == e.tag
    &&& node.tag.len() > 0
    &&& node.attributes == plain_attributes(e.attributes)
    &&& e.text matches Some(t) ==> node.text == if t.len() == 0 {
        None
    } else {
        Some(t)
    }
}

/// Whether node `j` is an element directly below node `i`.
pub open spec fn is_member(nodes: Seq<NodeView>, i: int, j: int) -> bool {
    xml::is_child(nodes, i, j) && nodes[j].tag.len() > 0
}

/// The elements directly below a node among the first `n` nodes.
pub open spec fn members_in(nodes: Seq<NodeView>, i: int, n: int) -> Seq<int>
    decreases n,
{
    if n <= 0 {
        Seq::empty()
    } else if is_member(nodes, i, n - 1) {
        members_in(nodes, i, n - 1).push(n - 1)
    } else {
        members_in(nodes, i, n - 1)
    }
}

/// The elements directly below a node.
pub open spec fn members(nodes: Seq<NodeView>, i: int) -> Seq<int> {
    members_in(nodes, i, nodes.len() as int)
}

/// Whether node `i` is the given element with all that it holds.
pub open spec fn holds(nodes: Seq<NodeView>, i: int, e: Element) -> bool
    decreases e,
{
    &&& 0 <= i < nodes.len()
    &&& looks_like(nodes[i], e)
    &&& members(nodes, i).len() == e.children.len()
    &&& forall|c: int|
        0 <= c < e.children.len() ==> holds(nodes, #[trigger] members(nodes, i)[c], e.children[c])
}

/// Whether elements are below elements, the outermost ones below the first node.
pub open spec fn nested(nodes: Seq<NodeView>) -> bool {
    forall|j: int|
        0 <= j < nodes.len() && (#[trigger] nodes[j]).tag.len() > 0 ==> (nodes[j].parent matches Some(p) && p
            < j && (p == 0 || nodes[p as int].tag.len() > 0))
}

/// Whether nodes are those of a document of one element.
pub open spec fn is_document(nodes: Seq<NodeView>, e: Element) -> bool {
    &&& nested(nodes)
    &&& 0 < crate::dae_read::root(nodes)
    &&& holds(nodes, crate::dae_read::root(nodes), e)
}

// ── Members ──

pub proof fn members_are(nodes: Seq<NodeView>, i: int, n: int)
    requires
        n <= nodes.len(),
    ensures
        forall|c: int|
            0 <= c < members_in(nodes, i, n).len() ==> 0 <= #[trigger] members_in(nodes, i, n)[c] < n && is_member(
                nodes,
                i,
                members_in(nodes, i, n)[c],
            ),
        forall|c: int, d: int|
            0 <= c < d < members_in(nodes, i, n).len() ==> #[trigger] members_in(nodes, i, n)[c]
                < #[trigger] members_in(nodes, i, n)[d],
    decreases n,
{
    if n > 0 {
        members_are(nodes, i, n - 1);
        let a = members_in(nodes, i, n - 1);
        let b = members_in(nodes, i, n);
        assert forall|c: int| 0 <= c < b.len() implies 0 <= #[trigger] b[c] < n && is_member(nodes, i, b[c]) by {
            if c < a.len() {
                assert(b[c] == a[c]);
            }
        }
        assert forall|c: int, d: int| 0 <= c < d < b.len() implies #[trigger] b[c] < #[trigger] b[d] by {
            assert(b[c] == a[c]);
            if d < a.len() {
                assert(b[d] == a[d]);
            }
        }
    }
}

/// Where an element is listed among those below a node.
pub proof fn member_is_listed(nodes: Seq<NodeView>, i: int, n: int, j: int) -> (c: int)
    requires
        0 <= j < n <= nodes.len(),
        is_member(nodes, i, j),
    ensures
        0 <= c < members_in(nodes, i, n).len(),
        members_in(nodes, i, n)[c] == j,
    decreases n,
{
    if j == n - 1 {
        members_in(nodes, i, n - 1).len() as int
    } else {
        let c = member_is_listed(nodes, i, n - 1, j);
        assert(members_in(nodes, i, n)[c] == members_in(nodes, i, n - 1)[c]);
        c
    }
}

// ── Searching ──

proof fn first_child(nodes: Seq<NodeView>, i: int, tag: Seq<char>, j: int, x: int)
    requires
        0 <= j <= x < nodes.len(),
        xml::is_child(nodes, i, x),
        nodes[x].tag == tag,
        forall|y: int| j <= y < x && xml::is_child(nodes, i, y) ==> (#[trigger] nodes[y]).tag != tag,
    ensures
        xml::child_from(nodes, i, tag, j) == Some(x),
    decreases x - j,
{
    if j < x {
        assert(!(xml::is_child(nodes, i, j) && nodes[j].tag == tag));
        first_child(nodes, i, tag, j + 1, x);
    }
}

proof fn no_child(nodes: Seq<NodeView>, i: int, tag: Seq<char>, j: int)
    requires
        0 <= j <= nodes.len(),
        forall|y: int| j <= y < nodes.len() && xml::is_child(nodes, i, y) ==> (#[trigger] nodes[y]).tag != tag,
    ensures
        xml::child_from(nodes, i, tag, j) is None,
    decreases nodes.len() - j,
{
    if j < nodes.len() {
        assert(!(xml::is_child(nodes, i, j) && nodes[j].tag == tag));
        no_child(nodes, i, tag, j + 1);
    }
}

/// The first child of a name is found.
pub proof fn child_is_found(nodes: Seq<NodeView>, i: int, e: Element, tag: Seq<char>, c: int)
    requires
        holds(nodes, i, e),
        tag.len() > 0,
        0 <= c < e.children.len(),
        e.children[c].tag == tag,
        forall|d: int| 0 <= d < c ==> (#[trigger] e.children[d]).tag != tag,
    ensures
        xml::child(nodes, i, tag) == Some(members(nodes, i)[c]),
        holds(nodes, members(nodes, i)[c], e.children[c]),
{
    let m = members(nodes, i);
    members_are(nodes, i, nodes.len() as int);
    let x = m[c];
    assert(holds(nodes, m[c], e.children[c]));
    assert(is_member(nodes, i, m[c]));
    assert forall|y: int| 0 <= y < x && xml::is_child(nodes, i, y) implies (#[trigger] nodes[y]).tag != tag by {
        if nodes[y].tag == tag {
            let d = member_is_listed(nodes, i, nodes.len() as int, y);
            assert(m[d] == y);
            if d >= c {
                if d > c {
                    assert(m[c] < m[d]);
                }
            } else {
                assert(holds(nodes, m[d], e.children[d]));
                assert(e.children[d].tag != tag);
            }
        }
    }
    first_child(nodes, i, tag, 0, x);
}

/// No child of a name is found where there is none.
pub proof fn child_is_missing(nodes: Seq<NodeView>, i: int, e: Element, tag: Seq<char>)
    requires
        holds(nodes, i, e),
        tag.len() > 0,
        forall|d: int| 0 <= d < e.children.len() ==> (#[trigger] e.children[d]).tag != tag,
    ensures
        xml::child(nodes, i, tag) is None,
{
    let m = members(nodes, i);
    assert forall|y: int| 0 <= y < nodes.len() && xml::is_child(nodes, i, y) implies (#[trigger] nodes[y]).tag
        != tag by {
        if nodes[y].tag == tag {
            let d = member_is_listed(nodes, i, nodes.len() as int, y);
            assert(holds(nodes, m[d], e.children[d]));
            assert(e.children[d].tag != tag);
        }
    }
    no_child(nodes, i, tag, 0);
}

/// The text of the first child of a name is found.
pub proof fn child_text_is_found(nodes: Seq<NodeView>, i: int, e: Element, tag: Seq<char>, c: int)
    requires
        holds(nodes, i, e),
        tag.len() > 0,
        0 <= c < e.children.len(),
        e.children[c].tag == tag,
        e.children[c].text is Some,
        forall|d: int| 0 <= d < c ==> (#[trigger] e.children[d]).tag != tag,
    ensures
        crate::dae_read::child_text(nodes, i, tag) == if e.children[c].text->0.len() == 0 {
            None
        } else {
            e.children[c].text
        },
{
    child_is_found(nodes, i, e, tag, c);
}

// ── Attributes ──

proof fn attribute_search(a: Seq<(Seq<char>, Seq<char>)>, name: Seq<char>, i: int, c: int)
    requires
        0 <= i <= c < a.len(),
        a[c].0 == name,
        forall|d: int| i <= d < c ==> (#[trigger] a[d]).0 != name,
    ensures
        xml::attribute_from(plain_attributes(a), name, i) == Some(a[c].1),
    decreases c - i,
{
    if i < c {
        assert(a[i].0 != name);
        attribute_search(a, name, i + 1, c);
    }
}

proof fn attribute_search_fails(a: Seq<(Seq<char>, Seq<char>)>, name: Seq<char>, i: int)
    requires
        0 <= i <= a.len(),
        forall|d: int| i <= d < a.len() ==> (#[trigger] a[d]).0 != name,
    ensures
        xml::attribute_from(plain_attributes(a), name, i) is None,
    decreases a.len() - i,
{
    if i < a.len() {
        assert(a[i].0 != name);
        attribute_search_fails(a, name, i + 1);
    }
}

/// The first attribute of a name is found.
pub proof fn attribute_is_found(node: NodeView, e: Element, name: Seq<char>, c: int)
    requires
        looks_like(node, e),
        0 <= c < e.attributes.len(),
        e.attributes[c].0 == name,
        forall|d: int| 0 <= d < c ==> (#[trigger] e.attributes[d]).0 != name,
    ensures
        node.attribute(name) == Some(e.attributes[c].1),
{
    attribute_search(e.attributes, name, 0, c);
}

/// No attribute of a name is found where there is none.
pub proof fn attribute_is_missing(node: NodeView, e: Element, name: Seq<char>)
    requires
        looks_like(node, e),
        forall|d: int| 0 <= d < e.attributes.len() ==> (#[trigger] e.attributes[d]).0 != name,
    ensures
        node.attribute(name) is None,
{
    attribute_search_fails(e.attributes, name, 0);
}

// ── Below ──

pub proof fn under_is_later(nodes: Seq<NodeView>, i: int, j: int)
    requires
        xml::is_under(nodes, i, j),
    ensures
        i <= j,
    decreases j,
{
    if j != i {
        match nodes[j].parent {
            Some(p) => {
                under_is_later(nodes, i, p as int);
            },
            None => {},
        }
    }
}

/// An element below a node is the node itself or below one of those directly below.
pub proof fn under_a_member(nodes: Seq<NodeView>, i: int, j: int) -> (c: int)
    requires
        nested(nodes),
        0 < i < nodes.len(),
        0 <= j < nodes.len(),
        j != i,
        nodes[j].tag.len() > 0,
        xml::is_under(nodes, i, j),
    ensures
        0 <= c < members(nodes, i).len(),
        xml::is_under(nodes, members(nodes, i)[c], j),
    decreases j,
{
    let p = nodes[j].parent->0 as int;
    assert(nodes[j].parent is Some && p < j);
    assert(xml::is_under(nodes, i, p));
    if p == i {
        let c = member_is_listed(nodes, i, nodes.len() as int, j);
        c
    } else {
        under_is_later(nodes, i, p);
        assert(nodes[p].tag.len() > 0);
        let c = under_a_member(nodes, i, p);
        c
    }
}

/// Whether an element and all that it holds satisfy a condition.
pub open spec fn every(e: Element, f: spec_fn(Element) -> bool) -> bool
    decreases e,
{
    &&& f(e)
    &&& forall|c: int| 0 <= c < e.children.len() ==> every(#[trigger] e.children[c], f)
}

/// What holds of an element and all below it holds of each node below it.
pub proof fn every_under(nodes: Seq<NodeView>, i: int, e: Element, f: spec_fn(Element) -> bool, j: int) -> (x: Element)
    requires
        nested(nodes),
        0 < i,
        holds(nodes, i, e),
        every(e, f),
        0 <= j < nodes.len(),
        nodes[j].tag.len() > 0,
        xml::is_under(nodes, i, j),
    ensures
        f(x),
        looks_like(nodes[j], x),
    decreases e,
{
    if j == i {
        e
    } else {
        let c = under_a_member(nodes, i, j);
        let m = members(nodes, i);
        members_are(nodes, i, nodes.len() as int);
        assert(holds(nodes, m[c], e.children[c]));
        assert(every(e.children[c], f));
        assert(is_member(nodes, i, m[c]));
        assert(nodes[m[c]].tag.len() > 0);
        every_under(nodes, m[c], e.children[c], f, j)
    }
}

proof fn first_below(nodes: Seq<NodeView>, i: int, tag: Seq<char>, j: int, x: int)
    requires
        0 <= j <= x < nodes.len(),
        xml::is_under(nodes, i, x),
        nodes[x].tag == tag,
        forall|y: int| j <= y < x && xml::is_under(nodes, i, y) ==> (#[trigger] nodes[y]).tag != tag,
    ensures
        xml::below_from(nodes, i, tag, j) == Some(x),
    decreases x - j,
{
    if j < x {
        assert(!(xml::is_under(nodes, i, j) && nodes[j].tag == tag));
        first_below(nodes, i, tag, j + 1, x);
    }
}

/// The first element of a name below another is found directly below it where nothing before
/// has the name.
pub proof fn below_is_found(nodes: Seq<NodeView>, i: int, e: Element, tag: Seq<char>, c: int)
    requires
        nested(nodes),
        0 < i,
        holds(nodes, i, e),
        tag.len() > 0,
        e.tag != tag,
        0 <= c < e.children.len(),
        e.children[c].tag == tag,
        forall|d: int| 0 <= d < c ==> every(#[trigger] e.children[d], |x: Element| x.tag != tag),
    ensures
        xml::below(nodes, i, tag) == Some(members(nodes, i)[c]),
        holds(nodes, members(nodes, i)[c], e.children[c]),
{
    let m = members(nodes, i);
    members_are(nodes, i, nodes.len() as int);
    let x = m[c];
    assert(holds(nodes, m[c], e.children[c]));
    assert(is_member(nodes, i, m[c]));
    assert(nodes[x].parent == Some(i as usize));
    assert(xml::is_under(nodes, i, i));
    assert(nodes[x].tag.len() > 0);
    assert(xml::is_under(nodes, i, x));
    assert forall|y: int| 0 <= y < x && xml::is_under(nodes, i, y) implies (#[trigger] nodes[y]).tag != tag by {
        if nodes[y].tag == tag {
            assert(y != i);
            let d = under_a_member(nodes, i, y);
            under_is_later(nodes, m[d], y);
            if d >= c {
                if d > c {
                    assert(m[c] < m[d]);
                }
            } else {
                assert(holds(nodes, m[d], e.children[d]));
                assert(every(e.children[d], |x: Element| x.tag != tag));
                assert(is_member(nodes, i, m[d]));
                assert(nodes[m[d]].tag.len() > 0);
                let z = every_under(nodes, m[d], e.children[d], |x: Element| x.tag != tag, y);
            }
        }
    }
    first_below(nodes, i, tag, 0, x);
}

// ── Collecting ──

/// What is collected of the first `n` places of a list.
pub open spec fn gathered<T>(m: Seq<int>, f: spec_fn(int) -> Option<T>, n: int) -> Seq<T>
    decreases n,
{
    if n <= 0 {
        Seq::empty()
    } else {
        match f(m[n - 1]) {
            Some(x) => gathered(m, f, n - 1).push(x),
            None => gathered(m, f, n - 1),
        }
    }
}

/// Where something is collected of each place, it is that of each place.
pub proof fn all_gathered<T>(m: Seq<int>, f: spec_fn(int) -> Option<T>, n: int)
    requires
        0 <= n <= m.len(),
        forall|c: int| 0 <= c < n ==> f(#[trigger] m[c]) is Some,
    ensures
        gathered(m, f, n).len() == n,
        forall|c: int| 0 <= c < n ==> #[trigger] gathered(m, f, n)[c] == f(m[c])->0,
    decreases n,
{
    if n > 0 {
        all_gathered(m, f, n - 1);
        assert(f(m[n - 1]) is Some);
        assert forall|c: int| 0 <= c < n implies #[trigger] gathered(m, f, n)[c] == f(m[c])->0 by {
            if c < n - 1 {
                assert(gathered(m, f, n)[c] == gathered(m, f, n - 1)[c]);
            }
        }
    }
}

/// Places of which nothing is collected do not count at the end.
pub proof fn rest_is_not_gathered<T>(m: Seq<int>, f: spec_fn(int) -> Option<T>, n: int, k: int)
    requires
        0 <= k <= n <= m.len(),
        forall|c: int| k <= c < n ==> f(#[trigger] m[c]) is None,
    ensures
        gathered(m, f, n) == gathered(m, f, k),
    decreases n - k,
{
    if n > k {
        assert(f(m[n - 1]) is None);
        rest_is_not_gathered(m, f, n - 1, k);
    }
}

/// What is collected depends on the first places only.
pub proof fn gathered_prefix<T>(a: Seq<int>, b: Seq<int>, f: spec_fn(int) -> Option<T>, n: int)
    requires
        n <= a.len(),
        n <= b.len(),
        forall|c: int| 0 <= c < n ==> a[c] == b[c],
    ensures
        gathered(a, f, n) == gathered(b, f, n),
    decreases n,
{
    if n > 0 {
        gathered_prefix(a, b, f, n - 1);
    }
}

/// Collecting from the elements below a node among `n` nodes goes on from those among one node less.
pub proof fn gathered_on<T>(nodes: Seq<NodeView>, i: int, f: spec_fn(int) -> Option<T>, n: int)
    requires
        0 < n <= nodes.len(),
    ensures
        gathered(members_in(nodes, i, n), f, members_in(nodes, i, n).len() as int) == (if is_member(nodes, i, n - 1)
            && f(n - 1) is Some {
            gathered(members_in(nodes, i, n - 1), f, members_in(nodes, i, n - 1).len() as int).push(f(n - 1)->0)
        } else {
            gathered(members_in(nodes, i, n - 1), f, members_in(nodes, i, n - 1).len() as int)
        }),
{
    let a = members_in(nodes, i, n - 1);
    let b = members_in(nodes, i, n);
    if is_member(nodes, i, n - 1) {
        gathered_prefix(a, b, f, a.len() as int);
        assert(b[b.len() - 1] == n - 1);
    }
}

} // verus!

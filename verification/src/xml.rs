//! XML documents as lists of nodes.

use vstd::prelude::*;
use crate::element;
use crate::dae_text::NAMESPACE;
use crate::element::Element;
use crate::text::same_text;

verus! {

/// An attribute of an element.
#[derive(Clone, Debug)]
pub struct XmlAttribute {
    pub namespace: Option<String>,
    pub name: String,
    pub value: String,
}

/// A node of a document.  Nodes that are no elements have an empty tag.
#[derive(Clone, Debug)]
pub struct XmlNode {
    /// Name of the element without its namespace.
    pub tag: String,
    /// Place of the parent in the list of nodes.
    pub parent: Option<usize>,
    pub attributes: Vec<XmlAttribute>,
    /// For an element, the text it begins with.
    pub text: Option<String>,
}

/// Mathematical value of an [`XmlAttribute`].
#[verifier::ext_equal]
pub struct AttributeView {
    pub namespace: Option<Seq<char>>,
    pub name: Seq<char>,
    pub value: Seq<char>,
}

/// Mathematical value of an [`XmlNode`].
#[verifier::ext_equal]
pub struct NodeView {
    pub tag: Seq<char>,
    pub parent: Option<usize>,
    pub attributes: Seq<AttributeView>,
    pub text: Option<Seq<char>>,
}

impl View for XmlAttribute {
    type V = AttributeView;

    open spec fn view(&self) -> AttributeView {
        AttributeView {
            namespace: crate::mesh::text_view(self.namespace),
            name: self.name@,
            value: self.value@,
        }
    }
}

impl View for XmlNode {
    type V = NodeView;

    open spec fn view(&self) -> NodeView {
        NodeView {
            tag: self.tag@,
            parent: self.parent,
            attributes: self.attributes@.map_values(|a: XmlAttribute| a@),
            text: crate::mesh::text_view(self.text),
        }
    }
}

/// Values of a list of nodes.
pub open spec fn nodes_view(v: Seq<XmlNode>) -> Seq<NodeView> {
    v.map_values(|n: XmlNode| n@)
}

/// The nodes of a document in document order, or what is wrong with its text.
pub uninterp spec fn xml_document(text: Seq<char>) -> Result<Seq<NodeView>, Seq<char>>;

/// `roxmltree::Document::parse` reads a document; its nodes are listed in document
/// order, the document itself first, each with the place of its parent in that list.
/// What it makes of a text is called [`xml_document`].
///
/// A declaration, one element in the namespace of Collada and an end of line, as
/// [`element::document_text`] puts them together, are read as that element: names stay as they
/// are, attributes have no namespace, and values and texts of legal characters that are written
/// as [`element::escaped`] says are read as what was escaped; an empty text is none.  There are
/// fewer nodes and attributes than characters, so that the limit of the parser on both is not
/// reached.
#[verifier::external_body]
pub(crate) fn parse_xml(text: &str) -> (r: Result<Vec<XmlNode>, String>)
    ensures
        match r {
            Ok(nodes) => xml_document(text@) == Ok::<Seq<NodeView>, Seq<char>>(nodes_view(nodes@)),
            Err(e) => xml_document(text@) == Err::<Seq<NodeView>, Seq<char>>(e@),
        },
        forall|e: Element|
            text@ == #[trigger] element::document_text(NAMESPACE@, e) && text@.len() < u32::MAX && element::is_plain(e)
                && e.gaps.len() > 0 && e.text is None ==> r is Ok && element::is_document(nodes_view(r->Ok_0@), e),
{
    let doc = roxmltree::Document::parse(text).map_err(|e| e.to_string())?;
    Ok(doc.descendants().map(|n| XmlNode {
        tag: n.tag_name().name().to_string(),
        parent: n.parent().map(|p| p.id().get_usize()),
        attributes: n.attributes().map(|a| XmlAttribute {
            namespace: a.namespace().map(|s| s.to_string()),
            name: a.name().to_string(),
            value: a.value().to_string(),
        }).collect(),
        text: n.text().map(|t| t.to_string()),
    }).collect())
}

/// Value of the first attribute from the `i`-th on that has the name and no namespace.
pub open spec fn attribute_from(a: Seq<AttributeView>, name: Seq<char>, i: int) -> Option<Seq<char>>
    decreases a.len() - i,
{
    if i >= a.len() {
        None
    } else if a[i].namespace is None && a[i].name == name {
        Some(a[i].value)
    } else {
        attribute_from(a, name, i + 1)
    }
}

impl NodeView {
    /// Value of an attribute.
    pub open spec fn attribute(self, name: Seq<char>) -> Option<Seq<char>> {
        attribute_from(self.attributes, name, 0)
    }

    /// Value of an attribute; empty where it is absent.
    pub open spec fn attribute_or_empty(self, name: Seq<char>) -> Seq<char> {
        match self.attribute(name) {
            Some(v) => v,
            None => Seq::empty(),
        }
    }

    /// The text; empty where there is none.
    pub open spec fn text_or_empty(self) -> Seq<char> {
        match self.text {
            Some(t) => t,
            None => Seq::empty(),
        }
    }
}

/// An empty text.
pub fn empty_text() -> (r: String)
    ensures
        r@ == Seq::<char>::empty(),
{
    let r = String::new();
    assert(r@ =~= Seq::<char>::empty());
    r
}

impl XmlNode {
    /// Value of an attribute.
    pub fn attribute(&self, name: &str) -> (r: Option<String>)
        ensures
            crate::mesh::text_view(r) == self@.attribute(name@),
    {
        for i in 0..self.attributes.len()
            invariant
                self@.attribute(name@) == attribute_from(self@.attributes, name@, i as int),
        {
            let a = &self.attributes[i];
            assert(self@.attributes[i as int] == a@);
            if a.namespace.is_none() && same_text(a.name.as_str(), name) {
                return Some(a.value.clone());
            }
        }
        None
    }

    /// Value of an attribute; empty where it is absent.
    pub fn attribute_or_empty(&self, name: &str) -> (r: String)
        ensures
            r@ == self@.attribute_or_empty(name@),
    {
        match self.attribute(name) {
            Some(v) => v,
            None => empty_text(),
        }
    }

    /// Tells whether the node is an element of the given name.
    pub fn is(&self, tag: &str) -> (r: bool)
        ensures
            r == (self@.tag == tag@),
    {
        same_text(self.tag.as_str(), tag)
    }
}

/// Whether node `j` is a child of node `i`.
pub open spec fn is_child(nodes: Seq<NodeView>, i: int, j: int) -> bool {
    nodes[j].parent is Some && nodes[j].parent->0 == i
}

/// Whether node `j` is node `i` or below it.
pub open spec fn is_under(nodes: Seq<NodeView>, i: int, j: int) -> bool
    decreases j,
{
    ||| j == i
    ||| match nodes[j].parent {
        Some(p) => p < j && is_under(nodes, i, p as int),
        None => false,
    }
}

/// First child of node `i`, from node `j` on, that is an element of the given name.
pub open spec fn child_from(nodes: Seq<NodeView>, i: int, tag: Seq<char>, j: int) -> Option<int>
    decreases nodes.len() - j,
{
    if j >= nodes.len() {
        None
    } else if is_child(nodes, i, j) && nodes[j].tag == tag {
        Some(j)
    } else {
        child_from(nodes, i, tag, j + 1)
    }
}

/// First child of a node that is an element of the given name.
pub open spec fn child(nodes: Seq<NodeView>, i: int, tag: Seq<char>) -> Option<int> {
    child_from(nodes, i, tag, 0)
}

/// First node below `i`, from node `j` on, that is an element of the given name.
pub open spec fn below_from(nodes: Seq<NodeView>, i: int, tag: Seq<char>, j: int) -> Option<int>
    decreases nodes.len() - j,
{
    if j >= nodes.len() {
        None
    } else if is_under(nodes, i, j) && nodes[j].tag == tag {
        Some(j)
    } else {
        below_from(nodes, i, tag, j + 1)
    }
}

/// First node below a node (itself included) that is an element of the given name.
pub open spec fn below(nodes: Seq<NodeView>, i: int, tag: Seq<char>) -> Option<int> {
    below_from(nodes, i, tag, 0)
}

/// Tells whether node `j` is node `i` or below it.
pub fn test_under(nodes: &Vec<XmlNode>, i: usize, j: usize) -> (r: bool)
    requires
        j < nodes@.len(),
    ensures
        r == is_under(nodes_view(nodes@), i as int, j as int),
{
    let mut x: usize = j;
    loop
        invariant
            j < nodes@.len(),
            x < nodes@.len(),
            is_under(nodes_view(nodes@), i as int, j as int) == is_under(
                nodes_view(nodes@),
                i as int,
                x as int,
            ),
        decreases x,
    {
        if x == i {
            return true;
        }
        assert(nodes_view(nodes@)[x as int] == nodes@[x as int]@);
        match nodes[x].parent {
            Some(p) => {
                if p < x {
                    x = p;
                } else {
                    return false;
                }
            },
            None => {
                return false;
            },
        }
    }
}

/// First child of a node that is an element of the given name.
pub fn find_child(nodes: &Vec<XmlNode>, i: usize, tag: &str) -> (r: Option<usize>)
    ensures
        match r {
            Some(j) => j < nodes@.len() && child(nodes_view(nodes@), i as int, tag@) == Some(j as int),
            None => child(nodes_view(nodes@), i as int, tag@) is None,
        },
{
    for j in 0..nodes.len()
        invariant
            child(nodes_view(nodes@), i as int, tag@) == child_from(
                nodes_view(nodes@),
                i as int,
                tag@,
                j as int,
            ),
    {
        assert(nodes_view(nodes@)[j as int] == nodes@[j as int]@);
        if let Some(p) = nodes[j].parent {
            if p == i && nodes[j].is(tag) {
                return Some(j);
            }
        }
    }
    None
}

/// First node below a node (itself included) that is an element of the given name.
pub fn find_below(nodes: &Vec<XmlNode>, i: usize, tag: &str) -> (r: Option<usize>)
    ensures
        match r {
            Some(j) => j < nodes@.len() && below(nodes_view(nodes@), i as int, tag@) == Some(j as int),
            None => below(nodes_view(nodes@), i as int, tag@) is None,
        },
{
    for j in 0..nodes.len()
        invariant
            below(nodes_view(nodes@), i as int, tag@) == below_from(
                nodes_view(nodes@),
                i as int,
                tag@,
                j as int,
            ),
    {
        assert(nodes_view(nodes@)[j as int] == nodes@[j as int]@);
        if nodes[j].is(tag) && test_under(nodes, i, j) {
            return Some(j);
        }
    }
    None
}

} // verus!

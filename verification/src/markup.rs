//! Writing elements as text.

use vstd::prelude::*;
use crate::dae_tree;
use crate::element;
use crate::text;
use crate::dae_tree::Pairs;
use crate::element::Element;
use crate::text::decimal;

verus! {

/// Names and values of a list of attributes.
pub open spec fn pairs(a: Seq<(&str, String)>) -> Pairs {
    a.map_values(|x: (&str, String)| (x.0@, x.1@))
}

/// The texts of elements.
pub open spec fn printed_all(e: Seq<Element>) -> Seq<Seq<char>> {
    e.map_values(|x: Element| element::printed(x))
}

/// Writes a character in the value of an attribute or in a text; `closing` tells whether it stands
/// behind two closing brackets.
fn escape_char(r: &mut String, Ghost(before): Ghost<Seq<char>>, closing: bool, c: char, in_value: bool)
    requires
        closing == element::ends_in_brackets(before),
    ensures
        final(r)@ == old(r)@ + element::escaped_char(before, c, in_value),
{
    if c == '&' {
        r.append("&amp;");
    } else if c == '<' {
        r.append("&lt;");
    } else if c == '>' && !in_value && closing {
        r.append("&gt;");
    } else if c == '"' && in_value {
        r.append("&quot;");
    } else if c == '\r' {
        r.append("&#13;");
    } else if c == '\n' && in_value {
        r.append("&#10;");
    } else if c == '\t' && in_value {
        r.append("&#9;");
    } else {
        let ghost old_text = r@;
        r.push(c);
        assert(r@ =~= old_text + seq![c]);
    }
}

/// Writes the value of an attribute or a text.
pub fn escape(s: &str, in_value: bool) -> (r: String)
    ensures
        r@ == element::escaped(s@, in_value),
{
    let mut r = String::new();
    let mut bracket = false;
    let mut closing = false;
    assert(r@ =~= element::escaped(s@.take(0), in_value));
    for c in it: s.chars()
        invariant
            r@ == element::escaped(s@.take(it.index() as int), in_value),
            bracket == (it.index() > 0 && s@[it.index() - 1] == ']'),
            closing == element::ends_in_brackets(s@.take(it.index() as int)),
            it.seq() == s@,
    {
        let ghost i = it.index() as int;
        escape_char(&mut r, Ghost(s@.take(i)), closing, c, in_value);
        closing = bracket && c == ']';
        bracket = c == ']';
        assert(s@.take(i + 1).drop_last() =~= s@.take(i));
        assert(s@.take(i + 1).last() == c);
    }
    assert(s@.take(s@.len() as int) =~= s@);
    r
}

/// Replaces the characters that may not stand in a document.
pub fn clean(s: &str) -> (r: String)
    ensures
        r@ == element::cleaned(s@),
{
    let mut r = String::new();
    assert(r@ =~= element::cleaned(s@.take(0)));
    for c in it: s.chars()
        invariant
            r@ == element::cleaned(s@.take(it.index() as int)),
            it.seq() == s@,
    {
        let ghost i = it.index() as int;
        let legal = (c >= ' ' && c != '\u{FFFE}' && c != '\u{FFFF}') || c == '\t' || c == '\n' || c == '\r';
        let kept = if legal { c } else { '\u{FFFD}' };
        r.push(kept);
        assert(element::cleaned(s@.take(i + 1)) =~= element::cleaned(s@.take(i)).push(kept));
    }
    assert(s@.take(s@.len() as int) =~= s@);
    r
}

/// Writes attributes.
pub fn attributes_text(a: &Vec<(&str, String)>) -> (r: String)
    ensures
        r@ == element::attributes_text(pairs(a@), a@.len() as int),
{
    let mut r = String::new();
    assert(r@ =~= Seq::<char>::empty());
    for i in 0..a.len()
        invariant
            r@ == element::attributes_text(pairs(a@), i as int),
    {
        r.append(" ");
        r.append(a[i].0);
        r.append("=\"");
        r.append(escape(a[i].1.as_str(), true).as_str());
        r.append("\"");
    }
    r
}

/// Writes an element around a text.
pub fn wrap(tag: &str, attributes: &str, inner: &str) -> (r: String)
    ensures
        r@ == element::wrapped(tag@, attributes@, inner@),
{
    let mut r = "<".to_owned();
    r.append(tag);
    r.append(attributes);
    r.append(">");
    r.append(inner);
    r.append("</");
    r.append(tag);
    r.append(">");
    r
}

/// Writes an element with attributes and a text.
pub fn full_leaf_text(tag: &str, attributes: &Vec<(&str, String)>, content: &str) -> (r: String)
    ensures
        r@ == element::printed(dae_tree::full_leaf(tag@, pairs(attributes@), content@)),
{
    let a = attributes_text(attributes);
    wrap(tag, a.as_str(), escape(content, false).as_str())
}

/// Writes an element with a text.
pub fn leaf_text(tag: &str, content: &str) -> (r: String)
    ensures
        r@ == element::printed(dae_tree::leaf(tag@, content@)),
{
    let none: Vec<(&str, String)> = Vec::new();
    assert(pairs(none@) =~= Seq::empty());
    full_leaf_text(tag, &none, content)
}

/// Writes an element with nothing in it.
pub fn stub_text(tag: &str, attributes: &Vec<(&str, String)>) -> (r: String)
    ensures
        r@ == element::printed(dae_tree::stub(tag@, pairs(attributes@))),
{
    let a = attributes_text(attributes);
    let mut r = "<".to_owned();
    r.append(tag);
    r.append(a.as_str());
    r.append("/>");
    r
}

/// Writes the end of a line and the indentation of the next.
pub fn line_text(depth: usize) -> (r: String)
    requires
        depth <= 1000,
    ensures
        r@ == dae_tree::line(depth as nat),
{
    let mut r = "\n".to_owned();
    proof {
        reveal_strlit("\n");
        reveal_strlit("  ");
        assert(r@ =~= dae_tree::line(0));
    }
    for i in 0..depth
        invariant
            depth <= 1000,
            r@ == dae_tree::line(i as nat),
            "  "@.len() == 2,
            "  "@[0] == ' ',
            "  "@[1] == ' ',
    {
        r.append("  ");
        assert(r@ =~= dae_tree::line((i + 1) as nat));
    }
    r
}

/// How the elements in another are laid out.
#[derive(Clone, Copy)]
pub enum Layout {
    /// Each on a line of its own, the outer one at the given depth.
    Indented(usize),
    /// All on a line of their own, the outer one at the given depth.
    Boxed(usize),
    /// All on the same line.
    Inline,
}

impl Layout {
    /// The element with the given parts.
    pub open spec fn element(self, tag: Seq<char>, attributes: Pairs, children: Seq<Element>) -> Element {
        match self {
            Layout::Indented(depth) => dae_tree::indented(tag, attributes, children, depth as nat),
            Layout::Boxed(depth) => dae_tree::boxed(tag, attributes, children, depth as nat),
            Layout::Inline => dae_tree::inline(tag, attributes, children),
        }
    }

    pub open spec fn is_flat(self) -> bool {
        match self {
            Layout::Indented(depth) => depth < 1000,
            Layout::Boxed(depth) => depth < 1000,
            Layout::Inline => true,
        }
    }
}

/// Writes what an element holds.
pub fn inner_text(
    layout: Layout,
    children: &Vec<String>,
    Ghost(tag): Ghost<Seq<char>>,
    Ghost(attributes): Ghost<Pairs>,
    Ghost(elements): Ghost<Seq<Element>>,
) -> (r: String)
    requires
        layout.is_flat(),
        text::texts(children@) == printed_all(elements),
    ensures
        r@ == element::inner_text(layout.element(tag, attributes, elements), elements.len()),
{
    let n: usize = children.len();
    let ghost e = layout.element(tag, attributes, elements);
    assert(text::texts(children@).len() == elements.len());
    let (open, between, close): (String, String, String) = match layout {
        Layout::Indented(depth) => (line_text(depth + 1), line_text(depth + 1), line_text(depth)),
        Layout::Boxed(depth) => (line_text(depth + 1), String::new(), line_text(depth)),
        Layout::Inline => (String::new(), String::new(), String::new()),
    };
    proof {
        if layout is Boxed || layout is Inline {
            assert(between@ =~= Seq::<char>::empty());
        }
        if layout is Inline {
            assert(open@ =~= Seq::<char>::empty());
            assert(close@ =~= Seq::<char>::empty());
        }
    }
    if n == 0 {
        // The gap before the first element is the one behind the last.
        return match layout {
            Layout::Boxed(depth) => open,
            _ => close,
        };
    }
    let mut r = open;
    for i in 0..n
        invariant
            n == children@.len(),
            n == elements.len(),
            n > 0,
            text::texts(children@) == printed_all(elements),
            e == layout.element(tag, attributes, elements),
            e.children == elements,
            e.gaps.len() == n + 1,
            forall|g: int| 0 < g < n ==> #[trigger] e.gaps[g] == between@,
            e.gaps[n as int] == close@,
            r@ == element::inner_text(e, i as nat),
    {
        assert(text::texts(children@)[i as int] == children@[i as int]@);
        assert(printed_all(elements)[i as int] == element::printed(elements[i as int]));
        r.append(children[i].as_str());
        if i + 1 < n {
            r.append(between.as_str());
        } else {
            r.append(close.as_str());
        }
        assert(r@ == element::inner_text(e, (i + 1) as nat));
    }
    r
}

/// Writes an element with other elements.
pub fn element_text(
    tag: &str,
    attributes: &Vec<(&str, String)>,
    layout: Layout,
    children: &Vec<String>,
    Ghost(elements): Ghost<Seq<Element>>,
) -> (r: String)
    requires
        layout.is_flat(),
        text::texts(children@) == printed_all(elements),
    ensures
        r@ == element::printed(layout.element(tag@, pairs(attributes@), elements)),
{
    let a = attributes_text(attributes);
    let inner = inner_text(layout, children, Ghost(tag@), Ghost(pairs(attributes@)), Ghost(elements));
    wrap(tag, a.as_str(), inner.as_str())
}

/// Writes a name made of a word and a number.
pub fn numbered_text(word: &str, n: usize) -> (r: String)
    ensures
        r@ == dae_tree::numbered(word@, n as int),
{
    let mut r = word.to_owned();
    r.append(decimal(n).as_str());
    r
}

/// Writes a reference to an element.
pub fn link_text(id: &str) -> (r: String)
    ensures
        r@ == dae_tree::link(id@),
{
    let mut r = "#".to_owned();
    r.append(id);
    r
}

/// Puts one text behind another.
pub fn joined_text(a: &str, b: &str) -> (r: String)
    ensures
        r@ == a@ + b@,
{
    let mut r = a.to_owned();
    r.append(b);
    r
}

/// A list without attributes.
pub fn no_attributes<'a>() -> (r: Vec<(&'a str, String)>)
    ensures
        pairs(r@) == Pairs::empty(),
{
    let r: Vec<(&'a str, String)> = Vec::new();
    assert(pairs(r@) =~= Pairs::empty());
    r
}

/// A list of one attribute.
pub fn one_attribute<'a>(name: &'a str, value: String) -> (r: Vec<(&'a str, String)>)
    ensures
        pairs(r@) == seq![(name@, value@)],
{
    let mut r: Vec<(&'a str, String)> = Vec::new();
    let ghost v = value@;
    r.push((name, value));
    assert(pairs(r@) =~= seq![(name@, v)]);
    r
}

/// Adds an attribute.
pub fn with_attribute<'a>(a: Vec<(&'a str, String)>, name: &'a str, value: String) -> (r: Vec<(&'a str, String)>)
    ensures
        pairs(r@) == pairs(a@).push((name@, value@)),
{
    let mut r = a;
    let ghost v = value@;
    r.push((name, value));
    assert(pairs(r@) =~= pairs(a@).push((name@, v)));
    r
}

/// A list of one text.
pub fn one_text(s: String) -> (r: Vec<String>)
    ensures
        text::texts(r@) == seq![s@],
{
    let mut r: Vec<String> = Vec::new();
    let ghost v = s@;
    r.push(s);
    assert(text::texts(r@) =~= seq![v]);
    r
}

/// Adds a text.
pub fn with_text(a: Vec<String>, s: String) -> (r: Vec<String>)
    ensures
        text::texts(r@) == text::texts(a@).push(s@),
{
    let mut r = a;
    let ghost v = s@;
    r.push(s);
    assert(text::texts(r@) =~= text::texts(a@).push(v));
    r
}

/// A list of no texts.
pub fn no_texts() -> (r: Vec<String>)
    ensures
        text::texts(r@) == Seq::<Seq<char>>::empty(),
{
    let r: Vec<String> = Vec::new();
    assert(text::texts(r@) =~= Seq::<Seq<char>>::empty());
    r
}

} // verus!

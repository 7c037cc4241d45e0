//! The XML tree that the ingestor reads, held as plain values.

use vstd::prelude::*;
use crate::text::chars_of;
use vstd::utf8::encode_utf8;

verus! {

/// An attribute of an element: its local name and its value.
#[derive(Clone, Debug, PartialEq, Eq)]
pub struct XmlAttribute {
    pub name: String,
    pub value: String,
}

/// An element: its tag, where it starts in the document, its attributes in
/// document order and its child nodes in document order.
#[derive(Debug, PartialEq, Eq)]
pub struct XmlElement {
    /// The local part of the tag name.
    pub name: String,
    /// The namespace URI of the tag, if it has one.
    pub namespace: Option<String>,
    /// The byte offset of the element's start in the document's text.
    pub offset: usize,
    pub attributes: Vec<XmlAttribute>,
    pub children: Vec<XmlNode>,
}

/// A child node of an element.
#[derive(Debug, PartialEq, Eq)]
pub enum XmlNode {
    Element(XmlElement),
    Text(String),
    Comment(String),
    ProcessingInstruction,
}

/// The text is not well-formed XML; `message` is the XML parser's account.
#[derive(Clone, Debug, PartialEq, Eq)]
pub struct XmlSyntaxError {
    pub message: String,
}

/// roxmltree's `Node`, which the conversion below reads and nothing else
/// looks into.
#[verifier::external_type_specification]
#[verifier::external_body]
pub struct ExXmlNode<'a, 'input: 'a>(roxmltree::Node<'a, 'input>);

/// How many levels of elements below the root the tree holds: the
/// messages, their `parts` elements and the parts themselves. An element at
/// the last level is held without its children.
pub const XML_DEPTH: usize = 3;

/// The root element of the XML document `text` as roxmltree reads it, with
/// its descendants down to `XML_DEPTH` levels below it, or `None` where
/// roxmltree rejects the text.
pub uninterp spec fn xml_root_of(text: Seq<char>) -> Option<XmlElement>;

/// Relies on roxmltree's `Document::parse` and `Document::root_element`:
/// whether the text is accepted and the tree read from it depend on the
/// text alone.
#[verifier::external_body]
pub(crate) fn parse_xml(text: &str) -> (r: Result<XmlElement, XmlSyntaxError>)
    ensures
        match r {
            Ok(root) => xml_root_of(text@) == Some(root),
            Err(_) => xml_root_of(text@) is None,
        },
{
    match roxmltree::Document::parse(text) {
        Ok(document) => Ok(element_of(document.root_element(), XML_DEPTH)),
        Err(e) => Err(XmlSyntaxError { message: e.to_string() }),
    }
}

/// Relies on roxmltree's `Node` accessors: copies an element node, with
/// its tag, start offset, attributes and, for `levels` more levels, its
/// children, into plain values.
#[verifier::external_body]
fn element_of(node: roxmltree::Node, levels: usize) -> (r: XmlElement) {
    let tag = node.tag_name();
    XmlElement {
        name: tag.name().to_string(),
        namespace: tag.namespace().map(String::from),
        offset: node.range().start,
        attributes: node.attributes().map(
            |a| XmlAttribute { name: a.name().to_string(), value: a.value().to_string() },
        ).collect(),
        children: match levels {
            0 => Vec::new(),
            _ => node.children().map(|c| node_of(c, levels - 1)).collect(),
        },
    }
}

/// Relies on roxmltree's `Node::node_type` and `Node::text`: copies a
/// child node into plain values, one variant for each kind of node.
#[verifier::external_body]
fn node_of(node: roxmltree::Node, levels: usize) -> (r: XmlNode) {
    match node.node_type() {
        roxmltree::NodeType::Element => XmlNode::Element(element_of(node, levels)),
        roxmltree::NodeType::Text => XmlNode::Text(node.text().unwrap_or_default().to_string()),
        roxmltree::NodeType::Comment => XmlNode::Comment(node.text().unwrap_or_default().to_string()),
        roxmltree::NodeType::PI => XmlNode::ProcessingInstruction,
        roxmltree::NodeType::Root => XmlNode::ProcessingInstruction,
    }
}

/// A line and a column of a text, both counted from 1.
#[derive(Clone, Copy, Debug, PartialEq, Eq, Structural)]
pub struct TextPosition {
    pub line: usize,
    pub column: usize,
}

/// A byte that starts a character in UTF-8.
pub open spec fn starts_char(b: u8) -> bool {
    !(0x80 <= b && b < 0xC0)
}

/// The line of the position after `bytes`: one more than its line feeds.
pub open spec fn line_after(bytes: Seq<u8>) -> int
    decreases bytes.len(),
{
    if bytes.len() == 0 {
        1
    } else {
        line_after(bytes.drop_last()) + if bytes.last() == 10 {
            1int
        } else {
            0
        }
    }
}

/// The column of the position after `bytes`: one more than the characters
/// after its last line feed.
pub open spec fn column_after(bytes: Seq<u8>) -> int
    decreases bytes.len(),
{
    if bytes.len() == 0 {
        1
    } else if bytes.last() == 10 {
        1
    } else {
        column_after(bytes.drop_last()) + if starts_char(bytes.last()) {
            1int
        } else {
            0
        }
    }
}

/// Where byte `offset` of `text` stands, as roxmltree's
/// `Document::text_pos_at` counts it. Offsets past the end count as the
/// end; so does the last byte a `usize` can count, which no text reaches.
pub open spec fn position_at(text: Seq<char>, offset: int) -> TextPosition {
    let bytes = encode_utf8(text);
    let end = if offset < bytes.len() {
        offset
    } else {
        bytes.len() as int
    };
    let end = if end < usize::MAX {
        end
    } else {
        usize::MAX - 1
    };
    TextPosition {
        line: line_after(bytes.subrange(0, end)) as usize,
        column: column_after(bytes.subrange(0, end)) as usize,
    }
}

proof fn lemma_position_bounds(bytes: Seq<u8>)
    ensures
        1 <= line_after(bytes) <= bytes.len() + 1,
        1 <= column_after(bytes) <= bytes.len() + 1,
    decreases bytes.len(),
{
    if bytes.len() > 0 {
        lemma_position_bounds(bytes.drop_last());
    }
}

/// Where byte `offset` of `text` stands; computed by one scan of the text
/// before it, which is why elements keep only their offset.
pub fn text_position(text: &str, offset: usize) -> (r: TextPosition)
    ensures
        r == position_at(text@, offset as int),
{
    let bytes = text.as_bytes();
    let mut end = if offset < bytes.len() {
        offset
    } else {
        bytes.len()
    };
    if end == usize::MAX {
        end = usize::MAX - 1;
    }
    let mut line: usize = 1;
    let mut column: usize = 1;
    let mut k: usize = 0;
    while k < end
        invariant
            end <= bytes@.len(),
            end < usize::MAX,
            k <= end,
            line == line_after(bytes@.subrange(0, k as int)),
            column == column_after(bytes@.subrange(0, k as int)),
        decreases end - k,
    {
        let ghost prefix = bytes@.subrange(0, k + 1);
        assert(prefix.drop_last() =~= bytes@.subrange(0, k as int));
        proof {
            lemma_position_bounds(bytes@.subrange(0, k as int));
        }
        let b = bytes[k];
        if b == 10 {
            line = line + 1;
            column = 1;
        } else if !(0x80 <= b && b < 0xC0) {
            column = column + 1;
        }
        k = k + 1;
    }
    proof {
        lemma_position_bounds(bytes@.subrange(0, k as int));
    }
    TextPosition { line, column }
}

/// Whether two strings hold the same characters.
pub fn same_text(a: &str, b: &str) -> (r: bool)
    ensures
        r == (a@ == b@),
{
    let x = chars_of(a);
    let y = chars_of(b);
    if x.len() != y.len() {
        return false;
    }
    let mut i: usize = 0;
    while i < x.len()
        invariant
            x@ == a@,
            y@ == b@,
            x.len() == y.len(),
            i <= x.len(),
            forall|k: int| 0 <= k < i ==> x@[k] == y@[k],
        decreases x.len() - i,
    {
        if x[i] != y[i] {
            return false;
        }
        i = i + 1;
    }
    assert(x@ =~= y@);
    true
}

/// The value of the first attribute of `attrs` with the local name `name`.
pub open spec fn find_attribute(attrs: Seq<XmlAttribute>, name: Seq<char>) -> Option<Seq<char>>
    decreases attrs.len(),
{
    if attrs.len() == 0 {
        None
    } else if attrs[0].name@ == name {
        Some(attrs[0].value@)
    } else {
        find_attribute(attrs.drop_first(), name)
    }
}

/// The value of the attribute `name` of `e`, as roxmltree's
/// `Node::attribute` looks it up by local name.
pub open spec fn attribute(e: XmlElement, name: Seq<char>) -> Option<Seq<char>> {
    find_attribute(e.attributes@, name)
}

impl XmlElement {
    /// The value of the attribute `name`, if the element has one.
    pub fn attribute(&self, name: &str) -> (r: Option<&String>)
        ensures
            match r {
                Some(v) => attribute(*self, name@) == Some(v@),
                None => attribute(*self, name@) is None,
            },
    {
        let mut i: usize = 0;
        assert(self.attributes@.subrange(0, self.attributes.len() as int) =~= self.attributes@);
        while i < self.attributes.len()
            invariant
                i <= self.attributes.len(),
                attribute(*self, name@) == find_attribute(
                    self.attributes@.subrange(i as int, self.attributes.len() as int),
                    name@,
                ),
            decreases self.attributes.len() - i,
        {
            let ghost rest = self.attributes@.subrange(i as int, self.attributes.len() as int);
            assert(rest.drop_first() =~= self.attributes@.subrange(
                i + 1,
                self.attributes.len() as int,
            ));
            if same_text(self.attributes[i].name.as_str(), name) {
                return Some(&self.attributes[i].value);
            }
            i = i + 1;
        }
        None
    }
}

} // verus!

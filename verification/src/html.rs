//! Trusted boundary to the `select` HTML parser. Each query is a pure
//! function of the markup text, so its result is given a name that the
//! extractor's contracts are stated over; the verified logic never looks
//! inside the markup itself.
//!
//! The parser stores text lengths in 32 bits (tendril asserts a byte
//! length of at most `u32::MAX` when the document is built), so every
//! query requires the markup to fit in that limit; a larger input would
//! abort instead of returning.

use vstd::prelude::*;
use vstd::string::StringSliceAdditionalSpecFns;

verus! {

/// For each element of `html` carrying the class `class`, in document
/// order: the element's combined text and, when its parent element has an
/// `href` attribute, that attribute's value.
pub uninterp spec fn class_entries(html: Seq<char>, class: Seq<char>) -> Seq<
    (Seq<char>, Option<Seq<char>>),
>;

/// For each element of `html` whose attribute `name` equals `value`, in
/// document order: the texts of its child nodes, in order.
pub uninterp spec fn attr_children_texts(
    html: Seq<char>,
    name: Seq<char>,
    value: Seq<char>,
) -> Seq<Seq<Seq<char>>>;

/// For each element of `html` whose attribute `name` equals `value`, in
/// document order: the element's combined text.
pub uninterp spec fn attr_texts(html: Seq<char>, name: Seq<char>, value: Seq<char>) -> Seq<
    Seq<char>,
>;

/// Relies on `select`: `Document::from` parses the markup, `find` with a
/// `Class` predicate yields the matching elements in document order, and
/// `Node::text` / `Node::parent` / `Node::attr` read each element; the
/// result depends on the arguments alone. The markup must fit the
/// parser's 32-bit text length.
#[verifier::external_body]
pub fn entries_by_class(html: &str, class: &str) -> (r: Vec<(String, Option<String>)>)
    requires
        html.spec_bytes().len() <= u32::MAX,
    ensures
        r.deep_view() == class_entries(html@, class@),
{
    let doc = select::document::Document::from(html);
    let mut out: Vec<(String, Option<String>)> = Vec::new();
    for node in doc.find(select::predicate::Class(class)) {
        let href = match node.parent() {
            Some(p) => p.attr("href").map(|a| a.to_owned()),
            None => None,
        };
        out.push((node.text(), href));
    }
    out
}

/// Relies on `select`: `find` with an `Attr` predicate yields the elements
/// whose attribute `name` equals `value`, in document order, and
/// `Node::children` / `Node::text` read each child's text; the result
/// depends on the arguments alone. The markup must fit the parser's
/// 32-bit text length.
#[verifier::external_body]
pub fn children_texts_by_attr(html: &str, name: &str, value: &str) -> (r: Vec<Vec<String>>)
    requires
        html.spec_bytes().len() <= u32::MAX,
    ensures
        r.deep_view() == attr_children_texts(html@, name@, value@),
{
    let doc = select::document::Document::from(html);
    let mut out: Vec<Vec<String>> = Vec::new();
    for node in doc.find(select::predicate::Attr(name, value)) {
        let mut kids: Vec<String> = Vec::new();
        for child in node.children() {
            kids.push(child.text());
        }
        out.push(kids);
    }
    out
}

/// Relies on `select`: `find` with an `Attr` predicate yields the elements
/// whose attribute `name` equals `value`, in document order, and
/// `Node::text` reads each one; the result depends on the arguments
/// alone. The markup must fit the parser's 32-bit text length.
#[verifier::external_body]
pub fn texts_by_attr(html: &str, name: &str, value: &str) -> (r: Vec<String>)
    requires
        html.spec_bytes().len() <= u32::MAX,
    ensures
        r.deep_view() == attr_texts(html@, name@, value@),
{
    let doc = select::document::Document::from(html);
    let mut out: Vec<String> = Vec::new();
    for node in doc.find(select::predicate::Attr(name, value)) {
        out.push(node.text());
    }
    out
}

} // verus!

//! Tag classification: parse a located snippet as exactly one markup element
//! and map its name and attributes to the closed set of tag variants.

use vstd::prelude::*;

verus! {

/// The pieces of a parsed single-element snippet that classification reads:
/// the element's local name and its two path-bearing attributes.
pub struct ParsedElement {
    pub name: String,
    pub name_attr: Option<String>,
    pub include_path_attr: Option<String>,
}

/// Whether parsing the snippet yields one well-formed element.
pub uninterp spec fn xml_parses(s: Seq<char>) -> bool;

/// The local name of the root element of a well-formed snippet.
pub uninterp spec fn xml_root_name(s: Seq<char>) -> Seq<char>;

/// The value of the root element's attribute with the given name, if present.
pub uninterp spec fn xml_attr(s: Seq<char>, attr: Seq<char>) -> Option<Seq<char>>;

pub open spec fn opt_str_view(o: Option<String>) -> Option<Seq<char>> {
    match o {
        Some(s) => Some(s@),
        None => None,
    }
}

/// Relies on roxmltree: `Document::parse` succeeds exactly on well-formed
/// documents (which always hold a root element), `root_element` returns that
/// element, `tag_name().name()` its local name, and `attribute(..)` the value
/// of its attribute with that local name. All are functions of the text alone.
#[verifier::external_body]
fn parse_single_element(snippet: &str) -> (r: Option<ParsedElement>)
    ensures
        r is Some <==> xml_parses(snippet@),
        r matches Some(el) ==> el.name@ == xml_root_name(snippet@) && opt_str_view(el.name_attr)
            == xml_attr(snippet@, "name"@) && opt_str_view(el.include_path_attr) == xml_attr(
            snippet@,
            "includePath"@,
        ),
{
    match roxmltree::Document::parse(snippet) {
        Ok(doc) => {
            let el = doc.root_element();
            Some(ParsedElement {
                name: el.tag_name().name().to_string(),
                name_attr: el.attribute("name").map(|v| v.to_string()),
                include_path_attr: el.attribute("includePath").map(|v| v.to_string()),
            })
        },
        Err(_) => None,
    }
}

/// A classified tag: the closed set of references a tag can carry.
pub enum Tag {
    /// An `Include` element, with the relative path of its `name` attribute.
    Include(String),
    /// A `PlatformContent` element, with the relative path of its
    /// `includePath` attribute.
    PlatformContent(String),
    /// Any other element: it carries no resolvable reference.
    Other,
}

/// Specification-level image of `Tag`.
pub enum TagModel {
    Include(Seq<char>),
    PlatformContent(Seq<char>),
    Other,
}

impl View for Tag {
    type V = TagModel;

    open spec fn view(&self) -> TagModel {
        match self {
            Tag::Include(p) => TagModel::Include(p@),
            Tag::PlatformContent(p) => TagModel::PlatformContent(p@),
            Tag::Other => TagModel::Other,
        }
    }
}

pub open spec fn or_empty(o: Option<Seq<char>>) -> Seq<char> {
    match o {
        Some(s) => s,
        None => Seq::empty(),
    }
}

/// The tag an element maps to: `Include` and `PlatformContent` take their
/// path attribute (absent attributes default to the empty path); every other
/// element name is `Other`.
pub open spec fn tag_of_element(
    name: Seq<char>,
    name_attr: Option<Seq<char>>,
    include_path_attr: Option<Seq<char>>,
) -> TagModel {
    if name == "Include"@ {
        TagModel::Include(or_empty(name_attr))
    } else if name == "PlatformContent"@ {
        TagModel::PlatformContent(or_empty(include_path_attr))
    } else {
        TagModel::Other
    }
}

/// The classification of a snippet: an error when it is not one well-formed
/// element, the element's tag otherwise.
pub open spec fn classify_spec(s: Seq<char>) -> Result<TagModel, ()> {
    if xml_parses(s) {
        Ok(tag_of_element(xml_root_name(s), xml_attr(s, "name"@), xml_attr(s, "includePath"@)))
    } else {
        Err(())
    }
}

pub open spec fn tag_result_view(r: Result<Tag, ()>) -> Result<TagModel, ()> {
    match r {
        Ok(t) => Ok(t@),
        Err(e) => Err(e),
    }
}

/// Map a parsed element to its tag.
pub fn tag_of(el: ParsedElement) -> (t: Tag)
    ensures
        t@ == tag_of_element(
            el.name@,
            opt_str_view(el.name_attr),
            opt_str_view(el.include_path_attr),
        ),
{
    if el.name == "Include".to_owned() {
        Tag::Include(
            match el.name_attr {
                Some(p) => p,
                None => String::new(),
            },
        )
    } else if el.name == "PlatformContent".to_owned() {
        Tag::PlatformContent(
            match el.include_path_attr {
                Some(p) => p,
                None => String::new(),
            },
        )
    } else {
        Tag::Other
    }
}

/// Parse a raw snippet as exactly one markup element and classify it; fails
/// when the snippet is not a single well-formed element.
pub fn classify(snippet: &str) -> (r: Result<Tag, ()>)
    ensures
        tag_result_view(r) == classify_spec(snippet@),
{
    match parse_single_element(snippet) {
        Some(el) => Ok(tag_of(el)),
        None => Err(()),
    }
}

} // verus!

//! The definition responder: orchestrates store lookup, tag location,
//! classification and path resolution into a single query outcome, with a
//! terminal but non-fatal error at each failure point.

use crate::locate::{find_enclosing_tag, located, lossy_of, snippet_at};
use crate::resolve::{docs_root_spec, get_docs_root_path, get_target_path, has_docs_root,
    target_path_spec};
use crate::store::DocumentStore;
use crate::tag::{classify, tag_of_element, xml_attr, xml_parses, xml_root_name, Tag, TagModel};
use vstd::prelude::*;

verus! {

/// Why a query produced no definition. Every failure is recovered to this
/// uniform outcome; none is a protocol-level fault.
#[derive(Debug)]
pub enum QueryError {
    /// No document with the given identifier is open.
    UnknownDocument,
    /// The cursor is outside any tag, or between two tags.
    NoEnclosingTag,
    /// The extracted snippet is not a single well-formed element.
    MalformedTag,
    /// The enclosing tag carries no resolvable reference.
    UnresolvableTagKind,
}

pub open spec fn query_view(r: Result<String, QueryError>) -> Result<Seq<char>, QueryError> {
    match r {
        Ok(s) => Ok(s@),
        Err(e) => Err(e),
    }
}

/// The classified tag of the snippet enclosing the cursor.
pub open spec fn tag_at(lines: Seq<Seq<u8>>, line: int, character: int) -> TagModel {
    let snip = lossy_of(snippet_at(lines, line, character));
    tag_of_element(xml_root_name(snip), xml_attr(snip, "name"@), xml_attr(snip, "includePath"@))
}

/// Whether a query runs the full pipeline through to path resolution: the
/// document is known, the cursor lies on a character, an enclosing tag is
/// located, it parses, and it is a resolvable kind.
pub open spec fn reaches_resolution(
    docs: Map<Seq<char>, Seq<Seq<u8>>>,
    uri: Seq<char>,
    line: int,
    character: int,
) -> bool {
    &&& docs.contains_key(uri)
    &&& 0 <= line < docs[uri].len()
    &&& 0 <= character < docs[uri][line].len()
    &&& located(docs[uri], line, character) is Some
    &&& xml_parses(lossy_of(snippet_at(docs[uri], line, character)))
    &&& !(tag_at(docs[uri], line, character) is Other)
}

/// The outcome of a definition query, stage by stage.
pub open spec fn goto_definition_spec(
    docs: Map<Seq<char>, Seq<Seq<u8>>>,
    uri: Seq<char>,
    line: int,
    character: int,
) -> Result<Seq<char>, QueryError> {
    if !docs.contains_key(uri) {
        Err(QueryError::UnknownDocument)
    } else {
        let lines = docs[uri];
        if !(0 <= line < lines.len() && 0 <= character < lines[line].len()) {
            Err(QueryError::NoEnclosingTag)
        } else if located(lines, line, character) is None {
            Err(QueryError::NoEnclosingTag)
        } else if !xml_parses(lossy_of(snippet_at(lines, line, character))) {
            Err(QueryError::MalformedTag)
        } else if tag_at(lines, line, character) is Other {
            Err(QueryError::UnresolvableTagKind)
        } else {
            Ok(target_path_spec(docs_root_spec(uri), tag_at(lines, line, character)))
        }
    }
}

/// Answer a definition query: look the document up, locate the tag enclosing
/// the cursor, classify it, and resolve its target path under the docs root
/// derived from the document identifier. A query that runs through to
/// resolution needs the root marker in the identifier (elsewhere the outcome
/// never reads it).
pub fn goto_definition(store: &DocumentStore, uri: &String, line: usize, character: usize) -> (r:
    Result<String, QueryError>)
    requires
        store.wf(),
        reaches_resolution(store@, uri@, line as int, character as int) ==> has_docs_root(uri@),
    ensures
        query_view(r) == goto_definition_spec(store@, uri@, line as int, character as int),
{
    let doc = match store.get(uri) {
        Some(d) => d,
        None => {
            return Err(QueryError::UnknownDocument);
        },
    };
    if line >= doc.len() {
        return Err(QueryError::NoEnclosingTag);
    }
    if character >= doc[line].len() {
        return Err(QueryError::NoEnclosingTag);
    }
    let snippet = match find_enclosing_tag(doc, line, character) {
        Ok(s) => s,
        Err(_) => {
            return Err(QueryError::NoEnclosingTag);
        },
    };
    let tag = match classify(snippet.as_str()) {
        Ok(t) => t,
        Err(_) => {
            return Err(QueryError::MalformedTag);
        },
    };
    if let Tag::Other = tag {
        return Err(QueryError::UnresolvableTagKind);
    }
    let root = get_docs_root_path(uri.as_str());
    let target = get_target_path(root.as_str(), &tag);
    Ok(target)
}

/// Idempotence of queries: against an unchanged store, any two outcomes that
/// meet `goto_definition`'s contract for the same query are the same.
pub proof fn lemma_query_idempotent(
    docs: Map<Seq<char>, Seq<Seq<u8>>>,
    uri: Seq<char>,
    line: int,
    character: int,
    r1: Result<Seq<char>, QueryError>,
    r2: Result<Seq<char>, QueryError>,
)
    requires
        r1 == goto_definition_spec(docs, uri, line, character),
        r2 == goto_definition_spec(docs, uri, line, character),
    ensures
        r1 == r2,
{
}

} // verus!

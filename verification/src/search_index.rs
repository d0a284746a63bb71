//! The search index of a built project: a JSON array with one object per
//! page, holding the page's link, its title and its source text.
//!
//! The index is written by `serde_json`, as an array of such objects:
//! compact, with the keys of each object in sorted order, and each string
//! quoted and escaped as `crate::json` says.

use vstd::prelude::*;
use serde_json::Value;
use crate::json::json_quoted;

verus! {

/// One page of the search index.
pub struct SearchEntry {
    /// The page's link, relative to the project's folder.
    pub path: String,
    /// The page's title.
    pub title: String,
    /// The page's source text.
    pub content: String,
}

impl View for SearchEntry {
    type V = (Seq<char>, Seq<char>, Seq<char>);

    open spec fn view(&self) -> (Seq<char>, Seq<char>, Seq<char>) {
        (self.path@, self.title@, self.content@)
    }
}

/// The JSON object of one page, with its keys in sorted order.
pub open spec fn entry_json(e: (Seq<char>, Seq<char>, Seq<char>)) -> Seq<char> {
    "{\"content\":"@ + json_quoted(e.2) + ",\"path\":"@ + json_quoted(e.0) + ",\"title\":"@
        + json_quoted(e.1) + "}"@
}

/// The objects of the pages, separated by commas.
pub open spec fn entries_json(es: Seq<(Seq<char>, Seq<char>, Seq<char>)>) -> Seq<char>
    decreases es.len(),
{
    if es.len() == 0 {
        seq![]
    } else if es.len() == 1 {
        entry_json(es[0])
    } else {
        entries_json(es.drop_last()) + ","@ + entry_json(es.last())
    }
}

/// The search index of these pages.
pub open spec fn search_index_text(es: Seq<(Seq<char>, Seq<char>, Seq<char>)>) -> Seq<char> {
    "["@ + entries_json(es) + "]"@
}

/// The pages as plain values.
pub open spec fn entry_views(entries: Seq<SearchEntry>) -> Seq<(Seq<char>, Seq<char>, Seq<char>)> {
    entries.map_values(|e: SearchEntry| e@)
}

/// The pages as a JSON array of objects, written by `serde_json::to_string`.
///
/// Each page becomes a `serde_json::Value::Object` with the string values
/// `path`, `title` and `content`. Without the `preserve_order` feature (no
/// crate here turns it on) an object's map is a `BTreeMap`, so its keys are
/// written in sorted order. The compact formatter writes an array as `[`,
/// the items separated by `,`, and `]`, an object as `{`, each key and value
/// joined by `:` and separated by `,`, and `}`; keys and strings are quoted
/// and escaped as `json_quoted` says. Serialising these values cannot fail
/// and writes into a `Vec<u8>`, which cannot fail either.
#[verifier::external_body]
fn write_search_index(entries: &Vec<SearchEntry>) -> (r: String)
    ensures
        r@ == search_index_text(entry_views(entries@)),
{
    let values: Vec<Value> = entries.iter().map(|e| {
        let mut object = serde_json::Map::new();
        object.insert("path".to_string(), Value::String(e.path.clone()));
        object.insert("title".to_string(), Value::String(e.title.clone()));
        object.insert("content".to_string(), Value::String(e.content.clone()));
        Value::Object(object)
    }).collect();
    match serde_json::to_string(&values) {
        Ok(text) => text,
        Err(_) => String::new(),
    }
}

/// The search index of these pages: a JSON array with, for each page in
/// order, the object of its content, link and title.
pub fn search_index_json(entries: &Vec<SearchEntry>) -> (r: String)
    ensures
        r@ == search_index_text(entry_views(entries@)),
{
    write_search_index(entries)
}

} // verus!

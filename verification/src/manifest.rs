//! What the library reads of a TOML document, and the one edit it makes.
//!
//! Parsing and format-preserving editing are done by `toml_edit`; an entry is
//! looked up by its key path and carried here as plain values.
use toml_edit::{DocumentMut, Value};
use vstd::prelude::*;
use self::TomlEntry::{Array, Missing, Other, TableKeys, Text};
use crate::pyproject::toml_string_literal;

verus! {

/// One element of a TOML array: its string value when it is a string, and its
/// text as written (with the whitespace before and after it).
#[derive(Clone, Debug)]
pub struct ArrayItem {
    pub text: Option<String>,
    pub repr: String,
}

impl View for ArrayItem {
    type V = (Option<Seq<char>>, Seq<char>);

    open spec fn view(&self) -> (Option<Seq<char>>, Seq<char>) {
        (
            match self.text {
                Some(t) => Some(t@),
                None => None,
            },
            self.repr@,
        )
    }
}

impl DeepView for ArrayItem {
    type V = (Option<Seq<char>>, Seq<char>);

    open spec fn deep_view(&self) -> (Option<Seq<char>>, Seq<char>) {
        self@
    }
}

/// What stands at a key path of a TOML document.
#[derive(Clone, Debug)]
pub enum TomlEntry {
    /// Nothing: a key is absent, or a step of the path is not a table.
    Missing,
    /// A table or inline table, with its keys in document order.
    TableKeys(Vec<String>),
    /// An array.
    Array(Vec<ArrayItem>),
    /// A string.
    Text(String),
    /// Any other value.
    Other,
}

/// The model of a [`TomlEntry`].
pub enum EntryModel {
    Missing,
    TableKeys(Seq<Seq<char>>),
    Array(Seq<(Option<Seq<char>>, Seq<char>)>),
    Text(Seq<char>),
    Other,
}

impl View for TomlEntry {
    type V = EntryModel;

    open spec fn view(&self) -> EntryModel {
        match self {
            Missing => EntryModel::Missing,
            TableKeys(keys) => EntryModel::TableKeys(keys.deep_view()),
            Array(items) => EntryModel::Array(items.deep_view()),
            Text(s) => EntryModel::Text(s@),
            Other => EntryModel::Other,
        }
    }
}

impl DeepView for TomlEntry {
    type V = EntryModel;

    open spec fn deep_view(&self) -> EntryModel {
        self@
    }
}

/// What `toml_edit` finds at `path` in `content`, following `Item::get` key by
/// key from the root; `None` when `content` is not a TOML document.
pub uninterp spec fn toml_entry(content: Seq<char>, path: Seq<Seq<char>>) -> Option<EntryModel>;

/// The document text after `toml_edit` replaced element `index` of the array
/// at `path` by the value written `literal`, keeping the element's surrounding
/// whitespace and comments; `None` when one of these steps fails.
pub uninterp spec fn toml_replaced(content: Seq<char>, path: Seq<Seq<char>>, index: nat, literal: Seq<char>) -> Option<Seq<char>>;

/// Element `index` of the array at `path`: its string value (if it is a
/// string) and its text as written; `None` when there is no such element.
pub open spec fn item_at(content: Seq<char>, path: Seq<Seq<char>>, index: int) -> Option<(Option<Seq<char>>, Seq<char>)> {
    match toml_entry(content, path) {
        Some(EntryModel::Array(items)) => if 0 <= index < items.len() {
            Some(items[index])
        } else {
            None
        },
        _ => None,
    }
}

/// Looks up what stands at `path` in the TOML document `content`.
///
/// Trusted: parses with `FromStr for toml_edit::DocumentMut`, follows
/// `Item::get` for each key, and copies the entry into plain values: the keys
/// of `Item::as_table_like` (via `TableLike::iter`), the elements of
/// `Item::as_array` (via `Value::as_str` and `Display for Value`), or
/// `Item::as_str`.
#[verifier::external_body]
pub(crate) fn toml_lookup(content: &str, path: &Vec<String>) -> (r: Option<TomlEntry>)
    ensures
        r.deep_view() == toml_entry(content@, path.deep_view()),
{
    let doc = content.parse::<DocumentMut>().ok()?;
    let mut item = Some(doc.as_item());
    for key in path {
        item = item.and_then(|i| i.get(key));
    }
    let Some(item) = item else { return Some(Missing) };
    Some(if let Some(t) = item.as_table_like() {
        TableKeys(t.iter().map(|e| e.0.to_string()).collect())
    } else if let Some(a) = item.as_array() {
        Array(a.iter().map(|v| ArrayItem { text: v.as_str().map(ToString::to_string), repr: v.to_string() }).collect())
    } else if let Some(s) = item.as_str() {
        Text(s.to_string())
    } else {
        Other
    })
}

/// Replaces element `index` of the array at `path` by the value written
/// `literal`, and returns the whole document's new text.
///
/// Trusted: parses with `FromStr for toml_edit::DocumentMut`, follows
/// `Item::get_mut` for each key, `Item::as_array_mut` and `Array::get_mut`,
/// parses `literal` with `FromStr for toml_edit::Value`, gives it the old
/// element's `Decor`, assigns it, and renders with `Display for DocumentMut`.
/// Beyond naming the result, the contract claims that the new text, read back
/// the way [`toml_lookup`] reads it, holds an array at `path` with an element
/// at `index`, and that this element is the string `v` whenever `literal` is
/// the TOML string that `toml_string_literal` writes for `v` (a basic string
/// with backslashes and double quotes escaped, or a literal string). Only that
/// one element changes: the array keeps its length, its other elements read
/// back as before (value and text as written), and so does every other key
/// path of the document.
#[verifier::external_body]
pub(crate) fn toml_replace_item(content: &str, path: &Vec<String>, index: usize, literal: &str) -> (r: Option<String>)
    ensures
        r.deep_view() == toml_replaced(content@, path.deep_view(), index as nat, literal@),
        r matches Some(updated) ==> toml_entry(updated@, path.deep_view()) matches Some(EntryModel::Array(items))
            && (index as int) < items.len() && forall|v: Seq<char>, q: char|
            literal@ == #[trigger] toml_string_literal(v, q) ==> items[index as int].0 == Some(v),
        r matches Some(updated) ==> toml_entry(content@, path.deep_view()) matches Some(EntryModel::Array(before))
            && toml_entry(updated@, path.deep_view()) matches Some(EntryModel::Array(after))
            && after.len() == before.len() && forall|j: int|
            0 <= j < after.len() && j != index ==> #[trigger] after[j] == before[j],
        r matches Some(updated) ==> forall|p: Seq<Seq<char>>|
            p != path.deep_view() ==> #[trigger] toml_entry(updated@, p) == toml_entry(content@, p),
{
    let mut doc = content.parse::<DocumentMut>().ok()?;
    let mut item = Some(doc.as_item_mut());
    for key in path {
        item = item.and_then(|i| i.get_mut(key));
    }
    let slot = item.and_then(|i| i.as_array_mut()).and_then(|a| a.get_mut(index))?;
    let mut value = literal.parse::<Value>().ok()?;
    *value.decor_mut() = slot.decor().clone();
    *slot = value;
    Some(doc.to_string())
}

} // verus!

//! Reading and editing the text of a manifest. The text is TOML; it is
//! parsed, looked into, changed and written out again by `toml_edit`, so
//! that what an edit does not touch stays as it was written.

use vstd::prelude::*;

verus! {

/// What stands in a manifest under a path of keys.
#[derive(Debug, Clone, PartialEq, Eq)]
pub enum Entry {
    /// Nothing stands there.
    Missing,
    /// A string.
    Text(String),
    /// A table, written with a header or inline.
    Table,
    /// Any other value.
    Other,
}

/// An entry as plain values.
pub enum EntryView {
    Missing,
    Text(Seq<char>),
    Table,
    Other,
}

impl View for Entry {
    type V = EntryView;

    open spec fn view(&self) -> EntryView {
        match *self {
            Entry::Missing => EntryView::Missing,
            Entry::Text(s) => EntryView::Text(s@),
            Entry::Table => EntryView::Table,
            Entry::Other => EntryView::Other,
        }
    }
}

/// A path of keys as plain values.
pub open spec fn key_texts(path: Seq<String>) -> Seq<Seq<char>> {
    Seq::new(path.len(), |i: int| path[i]@)
}

/// The error of `toml_edit` for a text that is not well-formed TOML. The
/// library hands it on unread.
#[verifier::external_type_specification]
#[verifier::external_body]
pub struct ExTomlError(toml_edit::TomlError);

/// What stands under `path` in the manifest `toml`, or nothing where
/// `toml` is not well-formed TOML.
pub uninterp spec fn toml_entry(toml: Seq<char>, path: Seq<Seq<char>>) -> Option<EntryView>;

/// The manifest `toml` with the entry under `path` replaced by the string
/// `value`, or nothing where `toml` is not well-formed TOML or has no
/// entry under `path`.
pub uninterp spec fn toml_with_text(toml: Seq<char>, path: Seq<Seq<char>>, value: Seq<char>) -> Option<
    Seq<char>,
>;

/// Parses `toml` as a `toml_edit::Document` and walks down `path` with
/// `Item::get`. The result says which kind of item stands there; a parse
/// error is handed on. Nothing is claimed beyond the result being the one
/// that `toml_edit` gives for this text and path.
#[verifier::external_body]
pub(crate) fn lookup(toml: &str, path: &Vec<String>) -> (r: Result<Entry, toml_edit::TomlError>)
    ensures
        match r {
            Ok(e) => toml_entry(toml@, key_texts(path@)) == Some(e@),
            Err(_) => toml_entry(toml@, key_texts(path@)) is None,
        },
{
    let doc = toml.parse::<toml_edit::Document>()?;
    let mut item = Some(doc.as_item());
    for key in path {
        item = item.and_then(|i| i.get(key.as_str()));
    }
    Ok(match item {
        None | Some(toml_edit::Item::None) => Entry::Missing,
        Some(toml_edit::Item::Value(toml_edit::Value::String(s))) => Entry::Text(s.value().clone()),
        Some(toml_edit::Item::Table(_)) => Entry::Table,
        Some(toml_edit::Item::Value(toml_edit::Value::InlineTable(_))) => Entry::Table,
        Some(_) => Entry::Other,
    })
}

/// Parses `toml` as a `toml_edit::Document`, walks down `path` through
/// tables with `TableLike::get_mut`, which creates nothing, puts the
/// string `value` in place of the item found, with the white space and
/// comments that stood around the old value, and writes the document out
/// with `to_string`. The result is `None` where the text does not parse or
/// the path leads nowhere. `path` is not empty: the root of a document
/// cannot become a string.
#[verifier::external_body]
pub(crate) fn with_text(toml: &str, path: &Vec<String>, value: &str) -> (r: Option<String>)
    requires
        path@.len() > 0,
    ensures
        match r {
            Some(out) => toml_with_text(toml@, key_texts(path@), value@) == Some(out@),
            None => toml_with_text(toml@, key_texts(path@), value@) is None,
        },
{
    let mut doc = toml.parse::<toml_edit::Document>().ok()?;
    let mut item = doc.as_item_mut();
    for key in path {
        item = item.as_table_like_mut()?.get_mut(key.as_str())?;
    }
    let decor = item.as_value().map(|old| old.decor().clone());
    let mut fresh = toml_edit::Value::from(value);
    if let Some(decor) = decor {
        *fresh.decor_mut() = decor;
    }
    *item = toml_edit::Item::Value(fresh);
    Some(doc.to_string())
}

} // verus!

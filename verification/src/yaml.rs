//! Reading frontmatter fields through the YAML parser.
use vstd::prelude::*;
use yaml_rust2::{Yaml, YamlLoader};

verus! {

/// The value of one frontmatter field as the indexing logic reads it: a
/// string scalar, a sequence (each item a string or not), or anything else
/// (including an absent key).
pub enum FieldValue {
    Text(String),
    List(Vec<Option<String>>),
    Other,
}

/// The mathematical form of a [`FieldValue`].
pub enum FieldView {
    Text(Seq<char>),
    List(Seq<Option<Seq<char>>>),
    Other,
}

/// The view of an optional owned string.
pub open spec fn opt_string_view(o: Option<String>) -> Option<Seq<char>> {
    match o {
        Some(s) => Some(s@),
        None => None,
    }
}

impl View for FieldValue {
    type V = FieldView;

    open spec fn view(&self) -> FieldView {
        match self {
            FieldValue::Text(s) => FieldView::Text(s@),
            FieldValue::List(items) => FieldView::List(
                items@.map_values(|o: Option<String>| opt_string_view(o)),
            ),
            FieldValue::Other => FieldView::Other,
        }
    }
}

/// What `yaml_rust2` yields for `key` in the first document of `text`:
/// `None` when the text is not valid YAML; otherwise the value that indexing
/// the first document by `key` gives (`Other` when there is no document).
pub uninterp spec fn yaml_field_of(text: Seq<char>, key: Seq<char>) -> Option<FieldView>;

/// Calls `YamlLoader::load_from_str(text)` and indexes its first document
/// by `key` (`Yaml`'s `Index<&str>`), converting the value it finds.
///
/// Claims: the result is the named `yaml_field_of(text, key)`; and whether
/// loading fails does not depend on `key`, since the key is only used after
/// the text has been loaded.
#[verifier::external_body]
pub(crate) fn yaml_field(text: &str, key: &str) -> (r: Option<FieldValue>)
    ensures
        r matches Some(v) ==> yaml_field_of(text@, key@) == Some(v@),
        r is None ==> yaml_field_of(text@, key@) is None,
        r is None ==> forall|k: Seq<char>| (#[trigger] yaml_field_of(text@, k)) is None,
        r is Some ==> forall|k: Seq<char>| (#[trigger] yaml_field_of(text@, k)) is Some,
{
    let docs = match YamlLoader::load_from_str(text) {
        Ok(docs) => docs,
        Err(_) => return None,
    };
    Some(match docs.first().map(|doc| &doc[key]) {
        Some(Yaml::String(s)) => FieldValue::Text(s.clone()),
        Some(Yaml::Array(items)) => FieldValue::List(items.iter().map(Yaml::as_str).map(|o| o.map(str::to_owned)).collect()),
        _ => FieldValue::Other,
    })
}

} // verus!

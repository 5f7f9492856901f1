//! Lists in JSON documents.
use vstd::prelude::*;
use crate::text;

verus! {

/// The list under a key of a JSON document: each item as JSON text, and the text that it is, where
/// it is one; nothing where there is no such list. For what is no document, why not.
pub uninterp spec fn json_list(s: Seq<char>, key: Seq<char>) -> Result<
    Option<Seq<(Seq<char>, Option<Seq<char>>)>>,
    Seq<char>,
>;

/// The contents of items.
pub open spec fn items_view(v: Seq<(String, Option<String>)>) -> Seq<(Seq<char>, Option<Seq<char>>)> {
    v.map_values(|i: (String, Option<String>)| (i.0@, text::opt_text(i.1)))
}

/// `serde_json::from_str` into a `serde_json::Value`, whose list under a key is given item by item.
/// The result depends on the text and the key alone.
#[verifier::external_body]
pub(crate) fn read_list(s: &str, key: &str) -> (r: Result<
    Option<Vec<(String, Option<String>)>>,
    String,
>)
    ensures
        match r {
            Err(e) => json_list(s@, key@) == Err::<
                Option<Seq<(Seq<char>, Option<Seq<char>>)>>,
                Seq<char>,
            >(e@),
            Ok(None) => json_list(s@, key@) == Ok::<
                Option<Seq<(Seq<char>, Option<Seq<char>>)>>,
                Seq<char>,
            >(None),
            Ok(Some(v)) => json_list(s@, key@) == Ok::<
                Option<Seq<(Seq<char>, Option<Seq<char>>)>>,
                Seq<char>,
            >(Some(items_view(v@))),
        },
{
    let value: serde_json::Value = serde_json::from_str(s).map_err(|e| e.to_string())?;
    let items = value.get(key).and_then(serde_json::Value::as_array);
    Ok(items.map(|v| v.iter().map(|i| (i.to_string(), i.as_str().map(str::to_owned))).collect()))
}

/// The JSON document with nothing but a list of texts under a key.
pub uninterp spec fn list_document(key: Seq<char>, texts: Seq<Seq<char>>) -> Seq<char>;

/// Whether a JSON document has the list of texts under a key.
pub open spec fn holds_texts(s: Seq<char>, key: Seq<char>, texts: Seq<Seq<char>>) -> bool {
    match json_list(s, key) {
        Ok(Some(list)) => list.len() == texts.len() && forall|i: int|
            0 <= i < list.len() ==> (#[trigger] list[i]).1 == Some(texts[i]),
        _ => false,
    }
}

/// `serde_json::to_string_pretty` of an object with a list of texts under a key: the document
/// depends on the key and the texts alone, and the texts are read back from it.
#[verifier::external_body]
pub(crate) fn write_list(key: &str, texts: &Vec<String>) -> (r: Option<String>)
    ensures
        text::opt_text(r) == Some(list_document(key@, text::texts(texts@))),
        match r {
            Some(d) => holds_texts(d@, key@, text::texts(texts@)),
            None => false,
        },
{
    let list = serde_json::Value::from(texts.clone());
    let document = serde_json::Map::from_iter([(key.to_owned(), list)]);
    serde_json::to_string_pretty(&document).ok()
}

} // verus!

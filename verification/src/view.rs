//! Documents: free-text bodies stored verbatim under their name in
//! the documents table. Unlike forms, a read for a name that holds
//! nothing is an error.

use crate::common::AppError;
use crate::json::{
    get_req_field, parse_json, parse_object, req_field, JsonValueV,
};
use crate::store::StoreWrite;
use crate::text::str_to_chars;
use vstd::prelude::*;
use vstd::string::StringExecFns;

verus! {

/// One document: its name and its body.
#[derive(Debug)]
pub struct ViewData {
    pub name: String,
    pub document: String,
}

/// The mathematical image of a document.
pub struct ViewDataV {
    pub name: Seq<char>,
    pub document: Seq<char>,
}

impl View for ViewData {
    type V = ViewDataV;

    open spec fn view(&self) -> ViewDataV {
        ViewDataV { name: self.name@, document: self.document@ }
    }
}

/// The document a parsed object denotes.
pub open spec fn view_of_members(ms: Seq<(Seq<char>, JsonValueV)>) -> Option<ViewDataV> {
    let name = req_field(ms, "name"@);
    let document = req_field(ms, "document"@);
    if name is Some && document is Some {
        Some(ViewDataV { name: name->Some_0, document: document->Some_0 })
    } else {
        None
    }
}

/// What a text parses to as a document.
pub open spec fn parse_view(s: Seq<char>) -> Option<ViewDataV> {
    match parse_object(s) {
        None => None,
        Some(ms) => view_of_members(ms),
    }
}

/// Reads a document body from an upsert request.
pub fn parse_viewdata(s: &str) -> (r: Result<ViewData, AppError>)
    ensures
        r matches Ok(v) ==> parse_view(s@) == Some(v@),
        r is Err ==> parse_view(s@) is None,
        r matches Err(e) ==> e is Validation,
{
    let cs = str_to_chars(s);
    let ms = match parse_json(&cs) {
        None => {
            return Err(AppError::Validation(String::from_str("invalid request body")));
        },
        Some(ms) => ms,
    };
    let name = match get_req_field(&ms, "name") {
        None => {
            return Err(AppError::Validation(String::from_str("invalid document")));
        },
        Some(v) => v,
    };
    let document = match get_req_field(&ms, "document") {
        None => {
            return Err(AppError::Validation(String::from_str("invalid document")));
        },
        Some(v) => v,
    };
    Ok(ViewData { name, document })
}

/// The confirmation a document upsert answers with.
pub open spec fn document_saved_msg(name: Seq<char>) -> Seq<char> {
    "document "@ + name + " created/updated successfully"@
}

/// The refusal for a name that holds nothing.
pub open spec fn document_missing_msg(key: Seq<char>) -> Seq<char> {
    "no document found with key "@ + key
}

/// Upsert then read: a document body is stored verbatim under its
/// name, and reading the name back yields that body unchanged.
pub proof fn lemma_document_upsert_read(name: Seq<char>, body: Seq<char>, m: Map<Seq<char>, Seq<char>>)
    ensures
        m.insert(name, body)[name] == body,
{
}

impl ViewData {
    /// Turns a document upsert body into the write it asks for: the
    /// body is stored verbatim under the document's name.
    pub fn save_formdata(data: &str) -> (r: Result<StoreWrite, AppError>)
        ensures
            parse_view(data@) matches Some(v) ==> r matches Ok(w) && w.table@ == "documents"@
                && w.key@ == v.name && w.value@ == v.document && w.message@ == document_saved_msg(
                v.name,
            ),
            parse_view(data@) is None ==> r is Err,
            r matches Err(e) ==> e is Validation && parse_view(data@) is None,
    {
        let v = match parse_viewdata(data) {
            Err(e) => {
                return Err(e);
            },
            Ok(v) => v,
        };
        let mut message = String::new();
        message.append("document ");
        message.append(v.name.as_str());
        message.append(" created/updated successfully");
        let mut table = String::new();
        table.append("documents");
        Ok(StoreWrite { table, key: v.name, value: v.document, message })
    }

    /// Answers a document read: the stored body comes back verbatim;
    /// a name that holds nothing is refused, naming the key.
    pub fn get_formdata(key: &str, stored: Option<String>) -> (r: Result<String, AppError>)
        ensures
            crate::formdata::stored_view(stored) matches Some(v) ==> (r matches Ok(d) && d@ == v),
            crate::formdata::stored_view(stored) is None ==> (r matches Err(e) && e matches
                AppError::NotFound(m) && m@ == document_missing_msg(key@)),
    {
        match stored {
            None => {
                let mut message = String::new();
                message.append("no document found with key ");
                message.append(key);
                proof {
                    assert(message@ =~= document_missing_msg(key@));
                }
                Err(AppError::NotFound(message))
            },
            Some(v) => Ok(v),
        }
    }
}

} // verus!

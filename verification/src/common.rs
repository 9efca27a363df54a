//! The error type shared by every operation, and the read-only
//! settings snapshot that the handlers consult.

use crate::text::{lower_of, str_eq, to_lowercase_str};
use vstd::prelude::*;

verus! {

/// The kinds of failure an operation can report. Each carries the
/// human-readable message that the router writes into the response
/// body.
#[derive(Debug)]
pub enum AppError {
    /// A malformed body or path.
    Validation(String),
    /// A document read for a name that holds nothing.
    NotFound(String),
    /// An authentication attempt for an id that was never registered.
    NotRegistered(String),
    /// An authentication attempt with the wrong password.
    IncorrectCredentials,
    /// An open, transaction or commit failure surfaced by the store.
    Storage(String),
    /// A failed filesystem export.
    Io(String),
}

/// The message text an error renders to.
pub open spec fn error_message(e: AppError) -> Seq<char> {
    match e {
        AppError::Validation(m) => m@,
        AppError::NotFound(m) => m@,
        AppError::NotRegistered(m) => m@,
        AppError::IncorrectCredentials => "incorrect credentials"@,
        AppError::Storage(m) => m@,
        AppError::Io(m) => m@,
    }
}

/// The response status an error maps to: authentication failures are
/// 401, every other operation error is 500. Only an unmatched route
/// answers 404, and the router decides that before any operation
/// runs.
pub open spec fn error_status(e: AppError) -> u16 {
    match e {
        AppError::NotRegistered(_) => 401,
        AppError::IncorrectCredentials => 401,
        _ => 500,
    }
}

impl AppError {
    /// The human-readable message for this error.
    pub fn message(&self) -> (r: String)
        ensures
            r@ == error_message(*self),
    {
        match self {
            AppError::Validation(m) => m.clone(),
            AppError::NotFound(m) => m.clone(),
            AppError::NotRegistered(m) => m.clone(),
            AppError::IncorrectCredentials => {
                let mut s = String::new();
                s.append("incorrect credentials");
                s
            },
            AppError::Storage(m) => m.clone(),
            AppError::Io(m) => m.clone(),
        }
    }

    /// The response status code for this error.
    pub fn status(&self) -> (r: u16)
        ensures
            r == error_status(*self),
    {
        match self {
            AppError::NotRegistered(_) => 401,
            AppError::IncorrectCredentials => 401,
            AppError::NotFound(_) => 500,
            AppError::Validation(_) => 500,
            AppError::Storage(_) => 500,
            AppError::Io(_) => 500,
        }
    }
}

/// Builds a generic storage error; the message is kept in lower case,
/// as every surface of the console reports it that way.
pub fn get_error(msg: String) -> (r: AppError)
    ensures
        r matches AppError::Storage(m) && m@ == lower_of(msg@),
        error_message(r) == lower_of(msg@),
{
    let lowered = to_lowercase_str(msg.as_str());
    AppError::Storage(lowered)
}

/// The read-only configuration snapshot: written once at startup and
/// handed by reference to every handler.
pub struct Settings {
    pub db_path: String,
    pub deploy_dir: String,
    pub static_dir: String,
}

/// What `get_map_item` answers for each item name.
pub open spec fn map_item(s: Settings, item: Seq<char>) -> Option<Seq<char>> {
    if item == "db_path"@ {
        Some(s.db_path@)
    } else if item == "deploy_dir"@ {
        Some(s.deploy_dir@)
    } else if item == "static_dir"@ {
        Some(s.static_dir@)
    } else {
        None
    }
}

/// The message a missing item is reported with, before the error's
/// lower-casing.
pub open spec fn missing_item_msg(item: Seq<char>) -> Seq<char> {
    "[get_map_item] item "@ + item + " not set"@
}

/// Looks a named item up in the settings snapshot; an unknown name is
/// reported as a storage error naming the item, since it means the
/// snapshot was not populated for this deployment.
pub fn get_map_item(settings: &Settings, item: &str) -> (r: Result<String, AppError>)
    ensures
        map_item(*settings, item@) matches Some(v) ==> (r matches Ok(s) && s@ == v),
        map_item(*settings, item@) is None ==> (r matches Err(e) && e matches AppError::Storage(m)
            && m@ == lower_of(missing_item_msg(item@))),
{
    if str_eq(item, "db_path") {
        Ok(settings.db_path.clone())
    } else if str_eq(item, "deploy_dir") {
        Ok(settings.deploy_dir.clone())
    } else if str_eq(item, "static_dir") {
        Ok(settings.static_dir.clone())
    } else {
        let mut msg = String::new();
        msg.append("[get_map_item] item ");
        msg.append(item);
        msg.append(" not set");
        proof {
            assert(msg@ =~= missing_item_msg(item@));
        }
        Err(get_error(msg))
    }
}

} // verus!

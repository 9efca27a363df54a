//! The configuration snapshot: read once at startup from a JSON
//! document, validated here, and never mutated afterwards.

use crate::common::AppError;
use crate::json::{get_opt_field, get_req_field, opt_field, parse_json, parse_object, req_field,
    JsonValueV};
use crate::text::str_to_chars;
use vstd::prelude::*;
use vstd::string::StringExecFns;

verus! {

/// The process parameters.
pub struct Parameters {
    pub name: String,
    pub description: String,
    pub port: String,
    pub log_level: String,
    pub certs_dir: Option<String>,
    pub cert_mode: String,
    pub db_path: String,
    pub deploy_dir: String,
    pub static_dir: String,
}

/// The mathematical image of the parameters.
pub struct ParametersV {
    pub name: Seq<char>,
    pub description: Seq<char>,
    pub port: Seq<char>,
    pub log_level: Seq<char>,
    pub certs_dir: Option<Seq<char>>,
    pub cert_mode: Seq<char>,
    pub db_path: Seq<char>,
    pub deploy_dir: Seq<char>,
    pub static_dir: Seq<char>,
}

impl View for Parameters {
    type V = ParametersV;

    open spec fn view(&self) -> ParametersV {
        ParametersV {
            name: self.name@,
            description: self.description@,
            port: self.port@,
            log_level: self.log_level@,
            certs_dir: match self.certs_dir {
                Some(d) => Some(d@),
                None => None,
            },
            cert_mode: self.cert_mode@,
            db_path: self.db_path@,
            deploy_dir: self.deploy_dir@,
            static_dir: self.static_dir@,
        }
    }
}

/// The parameters a parsed object denotes: every field but the
/// certificate directory is required.
pub open spec fn params_of_members(ms: Seq<(Seq<char>, JsonValueV)>) -> Option<ParametersV> {
    let name = req_field(ms, "name"@);
    let description = req_field(ms, "description"@);
    let port = req_field(ms, "port"@);
    let log_level = req_field(ms, "log_level"@);
    let certs_dir = opt_field(ms, "certs_dir"@);
    let cert_mode = req_field(ms, "cert_mode"@);
    let db_path = req_field(ms, "db_path"@);
    let deploy_dir = req_field(ms, "deploy_dir"@);
    let static_dir = req_field(ms, "static_dir"@);
    if name is Some && description is Some && port is Some && log_level is Some && certs_dir
        is Some && cert_mode is Some && db_path is Some && deploy_dir is Some && static_dir
        is Some {
        Some(
            ParametersV {
                name: name->Some_0,
                description: description->Some_0,
                port: port->Some_0,
                log_level: log_level->Some_0,
                certs_dir: certs_dir->Some_0,
                cert_mode: cert_mode->Some_0,
                db_path: db_path->Some_0,
                deploy_dir: deploy_dir->Some_0,
                static_dir: static_dir->Some_0,
            },
        )
    } else {
        None
    }
}

/// What a text parses to as the parameters.
pub open spec fn parse_params(s: Seq<char>) -> Option<ParametersV> {
    match parse_object(s) {
        None => None,
        Some(ms) => params_of_members(ms),
    }
}

/// How a configuration source is read.
pub trait ConfigInterface {
    /// Reads the parameters out of a configuration document.
    fn read(&self, json_text: String) -> (r: Result<Parameters, AppError>)
        ensures
            r matches Ok(p) ==> parse_params(json_text@) == Some(p@),
            r is Err ==> parse_params(json_text@) is None,
    ;
}

/// The JSON configuration reader.
pub struct ImplConfigInterface {}

impl ConfigInterface for ImplConfigInterface {
    fn read(&self, json_text: String) -> (r: Result<Parameters, AppError>) {
        let cs = str_to_chars(json_text.as_str());
        let ms = match parse_json(&cs) {
            None => {
                return Err(AppError::Validation(String::from_str("invalid configuration")));
            },
            Some(ms) => ms,
        };
        let name = match get_req_field(&ms, "name") {
            None => {
                return Err(AppError::Validation(String::from_str("invalid configuration")));
            },
            Some(v) => v,
        };
        let description = match get_req_field(&ms, "description") {
            None => {
                return Err(AppError::Validation(String::from_str("invalid configuration")));
            },
            Some(v) => v,
        };
        let port = match get_req_field(&ms, "port") {
            None => {
                return Err(AppError::Validation(String::from_str("invalid configuration")));
            },
            Some(v) => v,
        };
        let log_level = match get_req_field(&ms, "log_level") {
            None => {
                return Err(AppError::Validation(String::from_str("invalid configuration")));
            },
            Some(v) => v,
        };
        let certs_dir = match get_opt_field(&ms, "certs_dir") {
            None => {
                return Err(AppError::Validation(String::from_str("invalid configuration")));
            },
            Some(v) => v,
        };
        let cert_mode = match get_req_field(&ms, "cert_mode") {
            None => {
                return Err(AppError::Validation(String::from_str("invalid configuration")));
            },
            Some(v) => v,
        };
        let db_path = match get_req_field(&ms, "db_path") {
            None => {
                return Err(AppError::Validation(String::from_str("invalid configuration")));
            },
            Some(v) => v,
        };
        let deploy_dir = match get_req_field(&ms, "deploy_dir") {
            None => {
                return Err(AppError::Validation(String::from_str("invalid configuration")));
            },
            Some(v) => v,
        };
        let static_dir = match get_req_field(&ms, "static_dir") {
            None => {
                return Err(AppError::Validation(String::from_str("invalid configuration")));
            },
            Some(v) => v,
        };
        Ok(
            Parameters {
                name,
                description,
                port,
                log_level,
                certs_dir,
                cert_mode,
                db_path,
                deploy_dir,
                static_dir,
            },
        )
    }
}

} // verus!

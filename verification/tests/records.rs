//! The record serialization contract: round trips, the parser's
//! grammar, and the stored forms.

use webconsole::formdata::{encode_formdata, parse_formdata, FormData};
use webconsole::login::{encode_userdata, parse_userdata, UserData};
use webconsole::view::parse_viewdata;

fn sample_form(key: Option<&str>) -> FormData {
    FormData {
        key: key.map(|k| k.to_string()),
        title: "Weekly report".to_string(),
        file: "report.md".to_string(),
        category: "projects".to_string(),
        prompt: "Summarize the week".to_string(),
        credentials: "token".to_string(),
        run_once: "on".to_string(),
        db: "formdata".to_string(),
    }
}

fn form_eq(a: &FormData, b: &FormData) -> bool {
    a.key == b.key && a.title == b.title && a.file == b.file && a.category == b.category
        && a.prompt == b.prompt && a.credentials == b.credentials && a.run_once == b.run_once
        && a.db == b.db
}

#[test]
fn form_encoding_is_exact() {
    let fd = sample_form(Some("20240105120000"));
    let s = encode_formdata(&fd);
    assert_eq!(
        s,
        "{\"key\":\"20240105120000\",\"title\":\"Weekly report\",\"file\":\"report.md\",\
         \"category\":\"projects\",\"prompt\":\"Summarize the week\",\"credentials\":\"token\",\
         \"run_once\":\"on\",\"db\":\"formdata\"}"
    );
}

#[test]
fn form_absent_key_encodes_as_null() {
    let fd = sample_form(None);
    let s = encode_formdata(&fd);
    assert!(s.starts_with("{\"key\":null,"));
}

#[test]
fn form_round_trip_plain() {
    let fd = sample_form(Some("20240105120000"));
    let back = parse_formdata(&encode_formdata(&fd)).unwrap();
    assert!(form_eq(&fd, &back));
}

#[test]
fn form_round_trip_absent_key() {
    let fd = sample_form(None);
    let back = parse_formdata(&encode_formdata(&fd)).unwrap();
    assert!(form_eq(&fd, &back));
}

#[test]
fn form_round_trip_special_characters() {
    let mut fd = sample_form(Some("k"));
    fd.title = "He said \"hi\" \\ there".to_string();
    fd.prompt = "line one\nline two\ttabbed\u{1}control".to_string();
    fd.file = "naïve – résumé 日本語.md".to_string();
    let back = parse_formdata(&encode_formdata(&fd)).unwrap();
    assert!(form_eq(&fd, &back));
}

#[test]
fn parser_accepts_whitespace_and_any_field_order() {
    let body = " { \"db\" : \"queue\" ,\n\t\"title\":\"t\", \"file\":\"f\", \"category\":\"c\",\
                 \"prompt\":\"p\", \"credentials\":\"\", \"run_once\":\"off\", \"key\":\"1\" } ";
    let fd = parse_formdata(body).unwrap();
    assert_eq!(fd.db, "queue");
    assert_eq!(fd.key.as_deref(), Some("1"));
    assert_eq!(fd.run_once, "off");
}

#[test]
fn parser_decodes_escapes() {
    let body = "{\"key\":null,\"title\":\"\\u0041\\u00e9\\ud83d\\ude00\",\"file\":\"a\\/b\",\
                \"category\":\"\\b\\f\\n\\r\\t\",\"prompt\":\"\\\"q\\\"\",\"credentials\":\"\",\
                \"run_once\":\"\",\"db\":\"\"}";
    let fd = parse_formdata(body).unwrap();
    assert_eq!(fd.title, "Aé😀");
    assert_eq!(fd.file, "a/b");
    assert_eq!(fd.category, "\u{8}\u{c}\n\r\t");
    assert_eq!(fd.prompt, "\"q\"");
}

#[test]
fn parser_rejects_bad_bodies() {
    // not an object
    assert!(parse_formdata("null").is_err());
    // trailing garbage
    assert!(parse_formdata("{\"title\":\"t\"} x").is_err());
    // missing required field
    assert!(parse_formdata("{\"key\":null,\"title\":\"t\"}").is_err());
    // a required field that is null
    let body = "{\"key\":null,\"title\":null,\"file\":\"\",\"category\":\"\",\"prompt\":\"\",\
                \"credentials\":\"\",\"run_once\":\"\",\"db\":\"\"}";
    assert!(parse_formdata(body).is_err());
    // a duplicated field
    let body = "{\"key\":\"1\",\"key\":\"2\",\"title\":\"\",\"file\":\"\",\"category\":\"\",\
                \"prompt\":\"\",\"credentials\":\"\",\"run_once\":\"\",\"db\":\"\"}";
    assert!(parse_formdata(body).is_err());
    // a raw control character inside a string
    assert!(parse_formdata("{\"title\":\"a\u{1}b\"}").is_err());
    // a lone low surrogate escape
    assert!(parse_formdata("{\"title\":\"\\udc00\"}").is_err());
}

#[test]
fn parser_ignores_unknown_fields() {
    let body = "{\"key\":null,\"title\":\"t\",\"file\":\"f\",\"category\":\"c\",\"prompt\":\"p\",\
                \"credentials\":\"\",\"run_once\":\"on\",\"db\":\"\",\"extra\":\"ignored\"}";
    let fd = parse_formdata(body).unwrap();
    assert_eq!(fd.title, "t");
}

#[test]
fn credential_round_trip() {
    let ud = UserData {
        password: "p@ss\"word\\".to_string(),
        session_id: "123456".to_string(),
    };
    let s = encode_userdata(&ud);
    assert_eq!(s, "{\"password\":\"p@ss\\\"word\\\\\",\"session_id\":\"123456\"}");
    let back = parse_userdata(&s).unwrap();
    assert_eq!(back.password, ud.password);
    assert_eq!(back.session_id, ud.session_id);
}

#[test]
fn document_body_parses() {
    let v = parse_viewdata("{\"name\":\"notes.md\",\"document\":\"# Title\\nBody\"}").unwrap();
    assert_eq!(v.name, "notes.md");
    assert_eq!(v.document, "# Title\nBody");
    assert!(parse_viewdata("{\"name\":\"x\"}").is_err());
}

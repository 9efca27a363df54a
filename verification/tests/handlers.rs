//! The domain operations: key assignment, soft and hard misses,
//! authentication, search, delete and deploy.

use webconsole::clock::{clock_now, format_stamp, Timestamp};
use webconsole::common::{get_error, get_map_item, AppError, Settings};
use webconsole::formdata::{parse_formdata, Form};
use webconsole::login::User;
use webconsole::view::ViewData;

fn noon(day: u32) -> Timestamp {
    Timestamp { year: 2024, month: 1, day, hour: 12, minute: 0, second: 0 }
}

#[test]
fn upsert_without_key_assigns_timestamp_key() {
    let body = "{\"key\":null,\"title\":\"t\",\"file\":\"f\",\"category\":\"c\",\"prompt\":\"p\",\
                \"credentials\":\"\",\"run_once\":\"on\",\"db\":\"\"}";
    let w = Form::save_formdata(body, &noon(5)).unwrap();
    assert_eq!(w.key, "20240105120000");
    assert_eq!(w.key.len(), 14);
    assert_eq!(w.table, "formdata");
    assert_eq!(w.message, "form data 20240105120000 created/updated successfully");
    // reading the stored value back yields the submitted fields under the new key
    let back = Form::get_formdata(Some(w.value.clone())).unwrap();
    assert_eq!(back.key.as_deref(), Some("20240105120000"));
    assert_eq!(back.title, "t");
    assert_eq!(back.prompt, "p");
}

#[test]
fn upsert_with_empty_key_assigns_timestamp_key() {
    let body = "{\"key\":\"\",\"title\":\"t\",\"file\":\"f\",\"category\":\"c\",\"prompt\":\"p\",\
                \"credentials\":\"\",\"run_once\":\"on\",\"db\":\"\"}";
    let w = Form::save_formdata(body, &noon(7)).unwrap();
    assert_eq!(w.key, "20240107120000");
}

#[test]
fn upsert_keeps_client_key_and_table() {
    let body = "{\"key\":\"20231231235959\",\"title\":\"t\",\"file\":\"f\",\"category\":\"c\",\
                \"prompt\":\"p\",\"credentials\":\"\",\"run_once\":\"on\",\"db\":\"queue\"}";
    let w = Form::save_formdata(body, &noon(5)).unwrap();
    assert_eq!(w.key, "20231231235959");
    assert_eq!(w.table, "queue");
    let back = parse_formdata(&w.value).unwrap();
    assert_eq!(back.db, "queue");
}

#[test]
fn upsert_rejects_bad_body() {
    let e = Form::save_formdata("not json", &noon(5)).unwrap_err();
    assert_eq!(e.status(), 500);
}

#[test]
fn clock_key_has_fourteen_digits() {
    let key = format_stamp(&clock_now());
    assert_eq!(key.len(), 14);
    assert!(key.chars().all(|c| c.is_ascii_digit()));
}

#[test]
fn stamp_format_is_zero_padded() {
    let t = Timestamp { year: 987, month: 3, day: 4, hour: 5, minute: 6, second: 7 };
    assert_eq!(format_stamp(&t), "09870304050607");
}

#[test]
fn form_read_miss_returns_default_record() {
    let fd = Form::get_formdata(None).unwrap();
    assert!(fd.key.is_none());
    assert_eq!(fd.title, "");
    assert_eq!(fd.file, "");
    assert_eq!(fd.category, "");
    assert_eq!(fd.prompt, "");
    assert_eq!(fd.credentials, "");
    assert_eq!(fd.run_once, "");
    assert_eq!(fd.db, "");
}

#[test]
fn document_read_miss_is_an_error() {
    let e = ViewData::get_formdata("guide.md", None).unwrap_err();
    match e {
        AppError::NotFound(m) => assert_eq!(m, "no document found with key guide.md"),
        _ => panic!("expected a not-found error"),
    }
    assert_eq!(ViewData::get_formdata("guide.md", None).unwrap_err().status(), 500);
}

#[test]
fn document_read_hit_returns_body_verbatim() {
    let body = "# Title\nSome *markdown*.".to_string();
    assert_eq!(ViewData::get_formdata("guide.md", Some(body.clone())).unwrap(), body);
}

#[test]
fn document_upsert_stores_body_under_name() {
    let w = ViewData::save_formdata("{\"name\":\"guide.md\",\"document\":\"# T\"}").unwrap();
    assert_eq!(w.table, "documents");
    assert_eq!(w.key, "guide.md");
    assert_eq!(w.value, "# T");
    assert_eq!(w.message, "document guide.md created/updated successfully");
}

#[test]
fn register_builds_credential_write() {
    let w = User::save_formdata("user=bob&password=secret").unwrap();
    assert_eq!(w.table, "login");
    assert_eq!(w.key, "bob");
    assert_eq!(w.value, "{\"password\":\"secret\",\"session_id\":\"123456\"}");
    assert_eq!(w.message, "user bob registered successfully");
}

#[test]
fn login_body_splits_at_last_equals() {
    let (user, password) = User::get_formdata("user=ann&password=a=b").unwrap();
    assert_eq!(user, "ann");
    assert_eq!(password, "b");
    assert!(User::get_formdata("no ampersand").is_err());
}

#[test]
fn authenticate_unregistered_id_is_refused() {
    let e = User::authenticate("bob", "pw", None).unwrap_err();
    match e {
        AppError::NotRegistered(m) => {
            assert_eq!(m, "no record found for user bob (have you registered ?)")
        },
        _ => panic!("expected a not-registered error"),
    }
    assert_eq!(User::authenticate("bob", "pw", None).unwrap_err().status(), 401);
}

#[test]
fn authenticate_wrong_password_is_refused() {
    let stored = "{\"password\":\"right\",\"session_id\":\"123456\"}".to_string();
    let e = User::authenticate("bob", "wrong", Some(stored)).unwrap_err();
    assert!(matches!(e, AppError::IncorrectCredentials));
    assert_eq!(e.status(), 401);
    assert_eq!(e.message(), "incorrect credentials");
}

#[test]
fn authenticate_exact_match_succeeds() {
    let stored = "{\"password\":\"right\",\"session_id\":\"123456\"}".to_string();
    let m = User::authenticate("bob", "right", Some(stored)).unwrap();
    assert_eq!(m, "login successful");
}

#[test]
fn search_plan_encodes_date_range() {
    let body = "{\"dbsearch\":\"kv-formdata-db\",\"from\":\"2024-01-01\",\"to\":\"2024-01-10\"}";
    let p = Form::search_formdata(body).unwrap();
    assert_eq!(p.table, "formdata");
    assert_eq!(p.start, "20240101000059");
    assert_eq!(p.end, "20240110235959");
}

#[test]
fn search_selector_resolves_tables() {
    let q = Form::search_formdata("{\"dbsearch\":\"kv-queue-db\",\"from\":\"\",\"to\":\"\"}")
        .unwrap();
    assert_eq!(q.table, "queue");
    let a = Form::search_formdata("{\"dbsearch\":\"kv-archive-db\",\"from\":\"\",\"to\":\"\"}")
        .unwrap();
    assert_eq!(a.table, "archive");
    let other = Form::search_formdata("{\"dbsearch\":\"anything\",\"from\":\"\",\"to\":\"\"}")
        .unwrap();
    assert_eq!(other.table, "formdata");
}

#[test]
fn search_returns_only_keys_in_range() {
    let in_key = "20240105120000";
    let out_key = "20240120120000";
    let record = |key: &str| {
        format!(
            "{{\"key\":\"{key}\",\"title\":\"t\",\"file\":\"f\",\"category\":\"c\",\
             \"prompt\":\"p\",\"credentials\":\"\",\"run_once\":\"on\",\"db\":\"formdata\"}}"
        )
    };
    let pairs = vec![
        (in_key.to_string(), record(in_key)),
        (out_key.to_string(), record(out_key)),
    ];
    let rs = Form::collect_results(&pairs, "20240101000059", "20240110235959").unwrap();
    assert_eq!(rs.len(), 1);
    assert_eq!(rs[0].0, in_key);
    assert_eq!(rs[0].1.key.as_deref(), Some(in_key));
}

#[test]
fn search_fails_on_a_corrupt_stored_value() {
    let pairs = vec![("20240105120000".to_string(), "not json".to_string())];
    assert!(Form::collect_results(&pairs, "20240101000059", "20240110235959").is_err());
}

#[test]
fn delete_targets_default_table() {
    let d = Form::delete_formdata("20240105120000");
    assert_eq!(d.table, "formdata");
    assert_eq!(d.key, "20240105120000");
    assert_eq!(d.message, "form data 20240105120000 deleted");
}

#[test]
fn deploy_paths_rename_markdown_to_json() {
    let p = Form::deploy("/srv/deploy", "programming", "foo.md");
    assert_eq!(p.dir, "/srv/deploy/programming");
    assert_eq!(p.path, "/srv/deploy/programming/foo.json");
    let q = Form::deploy("/srv/deploy", "stock", "notes.txt");
    assert_eq!(q.path, "/srv/deploy/stock/notes.txt");
}

#[test]
fn distinct_upserts_are_independent() {
    let body = |key: &str| {
        format!(
            "{{\"key\":\"{key}\",\"title\":\"{key}\",\"file\":\"f\",\"category\":\"c\",\
             \"prompt\":\"p\",\"credentials\":\"\",\"run_once\":\"on\",\"db\":\"\"}}"
        )
    };
    let w1 = Form::save_formdata(&body("20240105120000"), &noon(5)).unwrap();
    let w2 = Form::save_formdata(&body("20240106120000"), &noon(6)).unwrap();
    assert_ne!(w1.key, w2.key);
    // each value reads back as its own record, whatever the other wrote
    assert_eq!(
        Form::get_formdata(Some(w1.value)).unwrap().title,
        "20240105120000"
    );
    assert_eq!(
        Form::get_formdata(Some(w2.value)).unwrap().title,
        "20240106120000"
    );
}

#[test]
fn get_error_lowercases_its_message() {
    let e = get_error("Commit FAILED".to_string());
    assert_eq!(e.message(), "commit failed");
    assert_eq!(e.status(), 500);
    // the lower-casing is the full Unicode mapping, not an ASCII fold
    let u = get_error("GRÜSSE".to_string());
    assert_eq!(u.message(), "grüsse");
}

#[test]
fn store_path_names_the_table_unit() {
    assert_eq!(webconsole::store::store_path("/var/db", "formdata"), "/var/db/formdata.kv");
}

#[test]
fn every_error_kind_maps_to_its_status() {
    assert_eq!(AppError::Validation("bad".to_string()).status(), 500);
    assert_eq!(AppError::Storage("s".to_string()).status(), 500);
    assert_eq!(AppError::Io("io".to_string()).status(), 500);
    assert_eq!(AppError::NotFound("n".to_string()).status(), 500);
    assert_eq!(AppError::NotRegistered("n".to_string()).status(), 401);
    assert_eq!(AppError::IncorrectCredentials.status(), 401);
    assert_eq!(AppError::Io("disk full".to_string()).message(), "disk full");
}

#[test]
fn settings_lookup_answers_known_items() {
    let s = Settings {
        db_path: "/var/db".to_string(),
        deploy_dir: "/srv/deploy".to_string(),
        static_dir: "/srv/static".to_string(),
    };
    assert_eq!(get_map_item(&s, "db_path").unwrap(), "/var/db");
    assert_eq!(get_map_item(&s, "deploy_dir").unwrap(), "/srv/deploy");
    assert_eq!(get_map_item(&s, "static_dir").unwrap(), "/srv/static");
    match get_map_item(&s, "Missing").unwrap_err() {
        AppError::Storage(m) => assert_eq!(m, "[get_map_item] item missing not set"),
        _ => panic!("expected a storage error"),
    }
}

//! The route table, the console prefix, and the rendered fragments.

use webconsole::formdata::FormData;
use webconsole::render::{check_selected, render_form_html, render_results_html};
use webconsole::router::{route, Route};

#[test]
fn get_routes_match_exactly() {
    assert!(matches!(route("GET", "/index"), Route::Index));
    match route("GET", "/formdata/20240105120000") {
        Route::FormRead { key, table } => {
            assert_eq!(key, "20240105120000");
            assert_eq!(table, "formdata");
        },
        _ => panic!("expected a form read"),
    }
    match route("GET", "/formdata/20240105120000/queue") {
        Route::FormRead { key, table } => {
            assert_eq!(key, "20240105120000");
            assert_eq!(table, "queue");
        },
        _ => panic!("expected a form read"),
    }
    match route("GET", "/view/guide.md") {
        Route::DocRead { key } => assert_eq!(key, "guide.md"),
        _ => panic!("expected a document read"),
    }
}

#[test]
fn post_routes_match_exactly() {
    assert!(matches!(route("POST", "/login"), Route::Login));
    assert!(matches!(route("POST", "/register"), Route::Register));
    assert!(matches!(route("POST", "/formdata"), Route::FormUpsert));
    assert!(matches!(route("POST", "/search"), Route::Search));
    assert!(matches!(route("POST", "/view"), Route::DocUpsert));
    assert!(matches!(route("POST", "/deploy"), Route::Deploy));
}

#[test]
fn delete_route_carries_its_key() {
    match route("DELETE", "/formdata/20240105120000") {
        Route::FormDelete { key } => assert_eq!(key, "20240105120000"),
        _ => panic!("expected a form delete"),
    }
}

#[test]
fn console_prefix_is_dropped() {
    assert!(matches!(route("POST", "/webconsole/formdata"), Route::FormUpsert));
    match route("GET", "/webconsole/formdata/1/queue") {
        Route::FormRead { key, table } => {
            assert_eq!(key, "1");
            assert_eq!(table, "queue");
        },
        _ => panic!("expected a form read"),
    }
}

#[test]
fn unmatched_requests_are_not_found() {
    assert!(matches!(route("GET", "/"), Route::NotFound));
    assert!(matches!(route("GET", "/formdata"), Route::NotFound));
    assert!(matches!(route("PUT", "/formdata"), Route::NotFound));
    assert!(matches!(route("POST", "/index"), Route::NotFound));
    assert!(matches!(route("GET", "/other/formdata/1"), Route::NotFound));
    assert!(matches!(route("GET", ""), Route::NotFound));
}

#[test]
fn check_selected_marks_the_category() {
    let html = check_selected("stock".to_string());
    assert_eq!(
        html,
        "\n    <option id=\"generic\" name=\"generic\" >generic</option>\
         \n    <option id=\"stock\" name=\"stock\" selected>stock</option>\
         \n    <option id=\"projects\" name=\"projects\" >projects</option>\
         \n    <option id=\"programming\" name=\"programming\" >programming</option>\n    "
    );
    // an unknown category selects the first option
    let fallback = check_selected("unknown".to_string());
    assert!(fallback.contains("name=\"generic\" selected"));
    assert!(!fallback.contains("name=\"stock\" selected"));
}

#[test]
fn results_rows_render_in_order() {
    let fd = |title: &str| FormData {
        key: Some("k".to_string()),
        title: title.to_string(),
        file: "f".to_string(),
        category: "c".to_string(),
        prompt: "p".to_string(),
        credentials: "".to_string(),
        run_once: "on".to_string(),
        db: "formdata".to_string(),
    };
    let rows = vec![
        ("20240105120000".to_string(), fd("first")),
        ("20240106120000".to_string(), fd("second")),
    ];
    let html = render_results_html(&rows);
    let first = html.find("<td>first</td>").unwrap();
    let second = html.find("<td>second</td>").unwrap();
    assert!(first < second);
    assert!(html.contains("<td>20240105120000</td>"));
    assert!(html.contains("hx-post=\"/webconsole/delete/20240105120000\""));
    assert!(html.contains("hx-get=\"/webconsole/formdata/20240106120000/formdata\""));
    assert_eq!(render_results_html(&Vec::new()), "");
}

#[test]
fn form_html_fills_the_fields() {
    let fd = FormData {
        key: Some("20240105120000".to_string()),
        title: "My title".to_string(),
        file: "my.md".to_string(),
        category: "projects".to_string(),
        prompt: "Do things".to_string(),
        credentials: "cred".to_string(),
        run_once: "on".to_string(),
        db: "formdata".to_string(),
    };
    let html = render_form_html("20240105120000".to_string(), fd);
    assert!(html.contains("name=\"key\" value=\"20240105120000\""));
    assert!(html.contains("name=\"title\" value=\"My title\""));
    assert!(html.contains("name=\"projects\" selected"));
    assert!(html.contains("<textarea id=\"prompt\" name=\"prompt\" rows=\"8\" required>Do things</textarea>"));
    assert!(html.contains("style=\"accent-color: #444444;\" checked>"));
    let off = FormData { run_once: "off".to_string(), ..webconsole::formdata::default_formdata() };
    let html2 = render_form_html("".to_string(), off);
    assert!(html2.contains("style=\"accent-color: #444444;\" >"));
}

//! The HTML fragments the console answers with: a table of search
//! results, and the form pre-filled from a record. Pure string
//! assembly, specified character for character.

use crate::formdata::{FormData, FormDataV};
use crate::text::str_eq;
use vstd::prelude::*;

verus! {

/// The word written into an option that is selected.
pub open spec fn sel_mark(b: bool) -> Seq<char> {
    if b {
        "selected"@
    } else {
        Seq::empty()
    }
}

/// The category options, with the record's own category selected;
/// an unknown category selects the first.
pub open spec fn check_selected_spec(category: Seq<char>) -> Seq<char> {
    let stock = category == "stock"@;
    let projects = category == "projects"@;
    let programming = category == "programming"@;
    let generic = !stock && !projects && !programming;
    "\n    <option id=\"generic\" name=\"generic\" "@ + sel_mark(generic)
        + ">generic</option>\n    <option id=\"stock\" name=\"stock\" "@ + sel_mark(stock)
        + ">stock</option>\n    <option id=\"projects\" name=\"projects\" "@ + sel_mark(projects)
        + ">projects</option>\n    <option id=\"programming\" name=\"programming\" "@ + sel_mark(
        programming,
    ) + ">programming</option>\n    "@
}

/// Renders the category options.
pub fn check_selected(category: String) -> (r: String)
    ensures
        r@ == check_selected_spec(category@),
{
    let stock = str_eq(category.as_str(), "stock");
    let projects = str_eq(category.as_str(), "projects");
    let programming = str_eq(category.as_str(), "programming");
    let generic = !stock && !projects && !programming;
    let mut out = String::new();
    out.append("\n    <option id=\"generic\" name=\"generic\" ");
    if generic {
        out.append("selected");
    }
    out.append(">generic</option>\n    <option id=\"stock\" name=\"stock\" ");
    if stock {
        out.append("selected");
    }
    out.append(">stock</option>\n    <option id=\"projects\" name=\"projects\" ");
    if projects {
        out.append("selected");
    }
    out.append(">projects</option>\n    <option id=\"programming\" name=\"programming\" ");
    if programming {
        out.append("selected");
    }
    out.append(">programming</option>\n    ");
    proof {
        assert(out@ =~= check_selected_spec(category@));
    }
    out
}

/// One row of the results table.
pub open spec fn results_row_html(key: Seq<char>, fd: FormDataV) -> Seq<char> {
    "\n        <tr>\n            <td>"@ + key + "</td>\n            <td>"@ + fd.title
        + "</td>\n            <td>"@ + fd.category + "</td>\n            <td>"@ + fd.file
        + "</td>\n            <td>"@ + fd.prompt
        + "</td>\n            <td><i class=\"fa fa-trash-o\" hx-post=\"/webconsole/delete/"@ + key
        + "\" hx-trigger=\"click\"></i>&nbsp&nbsp;&nbsp;<i id=\"icon-formdata\" class=\"fa fa-edit\" hx-get=\"/webconsole/formdata/"@
        + key + "/"@ + fd.db + "\" hx-target=\"#inputForm\" hx-trigger=\"click\"></i></td>\n        </tr>"@
}

/// The rows for a list of results, in order.
pub open spec fn results_html(rs: Seq<(Seq<char>, FormDataV)>) -> Seq<char>
    decreases rs.len(),
{
    if rs.len() == 0 {
        Seq::empty()
    } else {
        results_row_html(rs[0].0, rs[0].1) + results_html(rs.skip(1))
    }
}

pub proof fn lemma_results_html_snoc(rs: Seq<(Seq<char>, FormDataV)>, p: (Seq<char>, FormDataV))
    ensures
        results_html(rs.push(p)) == results_html(rs) + results_row_html(p.0, p.1),
    decreases rs.len(),
{
    let t = rs.push(p);
    if rs.len() == 0 {
        assert(t[0] == p);
        assert(t.skip(1) =~= Seq::<(Seq<char>, FormDataV)>::empty());
        assert(results_html(t.skip(1)) == Seq::<char>::empty());
        assert(results_html(t) =~= results_html(rs) + results_row_html(p.0, p.1));
    } else {
        assert(t[0] == rs[0]);
        assert(t.skip(1) =~= rs.skip(1).push(p));
        lemma_results_html_snoc(rs.skip(1), p);
        assert(results_html(t) =~= results_html(rs) + results_row_html(p.0, p.1));
    }
}

/// Appends one row of the results table.
fn results_row_into(out: &mut String, key: &str, fd: &FormData)
    ensures
        final(out)@ == old(out)@ + results_row_html(key@, fd@),
{
    out.append("\n        <tr>\n            <td>");
    out.append(key);
    out.append("</td>\n            <td>");
    out.append(fd.title.as_str());
    out.append("</td>\n            <td>");
    out.append(fd.category.as_str());
    out.append("</td>\n            <td>");
    out.append(fd.file.as_str());
    out.append("</td>\n            <td>");
    out.append(fd.prompt.as_str());
    out.append("</td>\n            <td><i class=\"fa fa-trash-o\" hx-post=\"/webconsole/delete/");
    out.append(key);
    out.append(
        "\" hx-trigger=\"click\"></i>&nbsp&nbsp;&nbsp;<i id=\"icon-formdata\" class=\"fa fa-edit\" hx-get=\"/webconsole/formdata/",
    );
    out.append(key);
    out.append("/");
    out.append(fd.db.as_str());
    out.append("\" hx-target=\"#inputForm\" hx-trigger=\"click\"></i></td>\n        </tr>");
    proof {
        assert(final(out)@ =~= old(out)@ + results_row_html(key@, fd@));
    }
}

/// Renders the search results as table rows, in scan order.
pub fn render_results_html(rows: &Vec<(String, FormData)>) -> (r: String)
    ensures
        r@ == results_html(crate::formdata::results_view(rows@)),
{
    let ghost rv = crate::formdata::results_view(rows@);
    let mut out = String::new();
    let mut i: usize = 0;
    proof {
        assert(rv.take(0) =~= Seq::<(Seq<char>, FormDataV)>::empty());
        assert(out@ =~= results_html(rv.take(0)));
    }
    while i < rows.len()
        invariant
            i <= rows@.len(),
            rv == crate::formdata::results_view(rows@),
            rv.len() == rows@.len(),
            out@ == results_html(rv.take(i as int)),
        decreases rows@.len() - i,
    {
        proof {
            assert(rv[i as int] == (rows@[i as int].0@, rows@[i as int].1@));
        }
        results_row_into(&mut out, rows[i].0.as_str(), &rows[i].1);
        proof {
            assert(rv.take(i + 1 as int) =~= rv.take(i as int).push(rv[i as int]));
            lemma_results_html_snoc(rv.take(i as int), rv[i as int]);
        }
        i += 1;
    }
    proof {
        assert(rv.take(rv.len() as int) =~= rv);
    }
    out
}

/// The word written into the run-once checkbox when it is on.
pub open spec fn checked_mark(run_once: Seq<char>) -> Seq<char> {
    if run_once == "on"@ {
        "checked"@
    } else {
        Seq::empty()
    }
}

/// The pre-filled form for one record.
pub open spec fn form_html(key: Seq<char>, fd: FormDataV) -> Seq<char> {
    "\n            <h2>AI Form Details</h2>\n            <form id=\"formdata\" hx-post=\"/webconsole/formdata\" hx-ext=\"json-enc\">\n                <input type=\"hidden\" id=\"key\" name=\"key\" value=\""@
        + key + "\">\n                <input type=\"hidden\" id=\"credentials\" name=\"credentials\" value=\""@
        + fd.credentials + "\">\n                <input type=\"hidden\" id=\"db\" name=\"db\" value=\""@
        + fd.db + "\">\n                <div class=\"form-group\">\n                    <label for=\"title\">Title</label>\n                    <input type=\"text\" id=\"title\" name=\"title\" value=\""@
        + fd.title + "\" required>\n                </div>\n                <div class=\"form-group\">\n                    <label for=\"category\">Category</label>\n                    <select id=\"category\" name=\"category\">\n                        "@
        + check_selected_spec(fd.category)
        + "\n                    </select>\n                </div>\n                <div class=\"form-group\">\n                    <label for=\"file\">File</label>\n                    <input type=\"text\" id=\"file\" name=\"file\" value=\""@
        + fd.file + "\" required>\n                </div>\n                <div class=\"form-group\">\n                    <label for=\"prompt\">Prompt</label>\n                    <textarea id=\"prompt\" name=\"prompt\" rows=\"8\" required>"@
        + fd.prompt + "</textarea>\n                </div>\n                <div class=\"form-group\">\n                    <label for=\"run-once\">Run Once</label>\n                    <input type=\"checkbox\" id=\"run_once\" name=\"run_once\" style=\"accent-color: #444444;\" "@
        + checked_mark(fd.run_once)
        + ">\n                </div>\n                <button id=\"submit-formdata\" type=\"submit\">Submit</button>\n            </form>\n    "@
}

/// Renders the pre-filled form for a record.
pub fn render_form_html(key: String, fd: FormData) -> (r: String)
    ensures
        r@ == form_html(key@, fd@),
{
    let mut out = String::new();
    out.append(
        "\n            <h2>AI Form Details</h2>\n            <form id=\"formdata\" hx-post=\"/webconsole/formdata\" hx-ext=\"json-enc\">\n                <input type=\"hidden\" id=\"key\" name=\"key\" value=\"",
    );
    out.append(key.as_str());
    out.append(
        "\">\n                <input type=\"hidden\" id=\"credentials\" name=\"credentials\" value=\"",
    );
    out.append(fd.credentials.as_str());
    out.append("\">\n                <input type=\"hidden\" id=\"db\" name=\"db\" value=\"");
    out.append(fd.db.as_str());
    out.append(
        "\">\n                <div class=\"form-group\">\n                    <label for=\"title\">Title</label>\n                    <input type=\"text\" id=\"title\" name=\"title\" value=\"",
    );
    out.append(fd.title.as_str());
    out.append(
        "\" required>\n                </div>\n                <div class=\"form-group\">\n                    <label for=\"category\">Category</label>\n                    <select id=\"category\" name=\"category\">\n                        ",
    );
    let options = check_selected(fd.category.clone());
    out.append(options.as_str());
    out.append(
        "\n                    </select>\n                </div>\n                <div class=\"form-group\">\n                    <label for=\"file\">File</label>\n                    <input type=\"text\" id=\"file\" name=\"file\" value=\"",
    );
    out.append(fd.file.as_str());
    out.append(
        "\" required>\n                </div>\n                <div class=\"form-group\">\n                    <label for=\"prompt\">Prompt</label>\n                    <textarea id=\"prompt\" name=\"prompt\" rows=\"8\" required>",
    );
    out.append(fd.prompt.as_str());
    out.append(
        "</textarea>\n                </div>\n                <div class=\"form-group\">\n                    <label for=\"run-once\">Run Once</label>\n                    <input type=\"checkbox\" id=\"run_once\" name=\"run_once\" style=\"accent-color: #444444;\" ",
    );
    if str_eq(fd.run_once.as_str(), "on") {
        out.append("checked");
    }
    out.append(
        ">\n                </div>\n                <button id=\"submit-formdata\" type=\"submit\">Submit</button>\n            </form>\n    ",
    );
    proof {
        assert(out@ =~= form_html(key@, fd@));
    }
    out
}

} // verus!

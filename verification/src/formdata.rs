//! Form records: their serialization contract, the soft-miss read,
//! server-side key assignment, and the date-range search encoding.

use crate::clock::{format_stamp, stamp_chars, Timestamp};
use crate::common::AppError;
use crate::json::{
    enc_object, encode_object, get_opt_field, get_req_field, lemma_parse_enc_object,
    lemma_unique_lookup, member_views, opt_field, parse_json, parse_object, req_field, JsonMember,
    JsonValue, JsonValueV,
};
use crate::store::{StoreDelete, StoreWrite};
use crate::text::{lex_le, lex_le_exec, str_eq, str_to_chars};
use vstd::prelude::*;
use vstd::string::StringExecFns;

verus! {

/// One form record. The key is assigned by the server when the
/// client leaves it absent or empty; `db` names the table a record's
/// search should target.
#[derive(Debug)]
pub struct FormData {
    pub key: Option<String>,
    pub title: String,
    pub file: String,
    pub category: String,
    pub prompt: String,
    pub credentials: String,
    pub run_once: String,
    pub db: String,
}

/// The mathematical image of a form record.
pub struct FormDataV {
    pub key: Option<Seq<char>>,
    pub title: Seq<char>,
    pub file: Seq<char>,
    pub category: Seq<char>,
    pub prompt: Seq<char>,
    pub credentials: Seq<char>,
    pub run_once: Seq<char>,
    pub db: Seq<char>,
}

impl View for FormData {
    type V = FormDataV;

    open spec fn view(&self) -> FormDataV {
        FormDataV {
            key: match self.key {
                Some(k) => Some(k@),
                None => None,
            },
            title: self.title@,
            file: self.file@,
            category: self.category@,
            prompt: self.prompt@,
            credentials: self.credentials@,
            run_once: self.run_once@,
            db: self.db@,
        }
    }
}

/// A search request: which table to scan and the date range,
/// written `YYYY-MM-DD`.
#[derive(Debug)]
pub struct SearchData {
    pub dbsearch: String,
    pub from: String,
    pub to: String,
}

/// The mathematical image of a search request.
pub struct SearchDataV {
    pub dbsearch: Seq<char>,
    pub from: Seq<char>,
    pub to: Seq<char>,
}

impl View for SearchData {
    type V = SearchDataV;

    open spec fn view(&self) -> SearchDataV {
        SearchDataV { dbsearch: self.dbsearch@, from: self.from@, to: self.to@ }
    }
}

/// The handler for form records.
pub struct Form {}

// ------------------------------------------------------------------
// The serialization contract
// ------------------------------------------------------------------

/// An absent key is stored as `null`.
pub open spec fn key_value(k: Option<Seq<char>>) -> JsonValueV {
    match k {
        Some(t) => JsonValueV::Text(t),
        None => JsonValueV::Null,
    }
}

/// The members of an encoded form record, in storage order.
pub open spec fn form_members(fd: FormDataV) -> Seq<(Seq<char>, JsonValueV)> {
    seq![
        ("key"@, key_value(fd.key)),
        ("title"@, JsonValueV::Text(fd.title)),
        ("file"@, JsonValueV::Text(fd.file)),
        ("category"@, JsonValueV::Text(fd.category)),
        ("prompt"@, JsonValueV::Text(fd.prompt)),
        ("credentials"@, JsonValueV::Text(fd.credentials)),
        ("run_once"@, JsonValueV::Text(fd.run_once)),
        ("db"@, JsonValueV::Text(fd.db)),
    ]
}

/// The stored form of a record.
pub open spec fn enc_form(fd: FormDataV) -> Seq<char> {
    enc_object(form_members(fd))
}

/// The record a parsed object denotes: every field but the key is
/// required and must be a string; the key may be absent or `null`.
pub open spec fn form_of_members(ms: Seq<(Seq<char>, JsonValueV)>) -> Option<FormDataV> {
    let key = opt_field(ms, "key"@);
    let title = req_field(ms, "title"@);
    let file = req_field(ms, "file"@);
    let category = req_field(ms, "category"@);
    let prompt = req_field(ms, "prompt"@);
    let credentials = req_field(ms, "credentials"@);
    let run_once = req_field(ms, "run_once"@);
    let db = req_field(ms, "db"@);
    if key is Some && title is Some && file is Some && category is Some && prompt is Some
        && credentials is Some && run_once is Some && db is Some {
        Some(
            FormDataV {
                key: key->Some_0,
                title: title->Some_0,
                file: file->Some_0,
                category: category->Some_0,
                prompt: prompt->Some_0,
                credentials: credentials->Some_0,
                run_once: run_once->Some_0,
                db: db->Some_0,
            },
        )
    } else {
        None
    }
}

/// What a text parses to as a form record.
pub open spec fn parse_form(s: Seq<char>) -> Option<FormDataV> {
    match parse_object(s) {
        None => None,
        Some(ms) => form_of_members(ms),
    }
}

/// Writes a record in its stored form.
pub fn encode_formdata(fd: &FormData) -> (r: String)
    ensures
        r@ == enc_form(fd@),
{
    let mut ms: Vec<JsonMember> = Vec::new();
    let keyv = match &fd.key {
        Some(k) => JsonValue::Text(k.clone()),
        None => JsonValue::Null,
    };
    ms.push(JsonMember { name: String::from_str("key"), value: keyv });
    ms.push(JsonMember { name: String::from_str("title"), value: JsonValue::Text(fd.title.clone()) });
    ms.push(JsonMember { name: String::from_str("file"), value: JsonValue::Text(fd.file.clone()) });
    ms.push(
        JsonMember { name: String::from_str("category"), value: JsonValue::Text(fd.category.clone()) },
    );
    ms.push(JsonMember { name: String::from_str("prompt"), value: JsonValue::Text(fd.prompt.clone()) });
    ms.push(
        JsonMember {
            name: String::from_str("credentials"),
            value: JsonValue::Text(fd.credentials.clone()),
        },
    );
    ms.push(
        JsonMember { name: String::from_str("run_once"), value: JsonValue::Text(fd.run_once.clone()) },
    );
    ms.push(JsonMember { name: String::from_str("db"), value: JsonValue::Text(fd.db.clone()) });
    proof {
        assert(member_views(ms@) =~= form_members(fd@));
    }
    encode_object(&ms)
}

/// Reads a record from its stored or submitted form.
pub fn parse_formdata(s: &str) -> (r: Result<FormData, AppError>)
    ensures
        r matches Ok(fd) ==> parse_form(s@) == Some(fd@),
        r is Err ==> parse_form(s@) is None,
        r matches Err(e) ==> e is Validation,
{
    let cs = str_to_chars(s);
    let ms = match parse_json(&cs) {
        None => {
            return Err(AppError::Validation(String::from_str("invalid request body")));
        },
        Some(ms) => ms,
    };
    let key = match get_opt_field(&ms, "key") {
        None => {
            return Err(AppError::Validation(String::from_str("invalid form record")));
        },
        Some(k) => k,
    };
    let title = match get_req_field(&ms, "title") {
        None => {
            return Err(AppError::Validation(String::from_str("invalid form record")));
        },
        Some(v) => v,
    };
    let file = match get_req_field(&ms, "file") {
        None => {
            return Err(AppError::Validation(String::from_str("invalid form record")));
        },
        Some(v) => v,
    };
    let category = match get_req_field(&ms, "category") {
        None => {
            return Err(AppError::Validation(String::from_str("invalid form record")));
        },
        Some(v) => v,
    };
    let prompt = match get_req_field(&ms, "prompt") {
        None => {
            return Err(AppError::Validation(String::from_str("invalid form record")));
        },
        Some(v) => v,
    };
    let credentials = match get_req_field(&ms, "credentials") {
        None => {
            return Err(AppError::Validation(String::from_str("invalid form record")));
        },
        Some(v) => v,
    };
    let run_once = match get_req_field(&ms, "run_once") {
        None => {
            return Err(AppError::Validation(String::from_str("invalid form record")));
        },
        Some(v) => v,
    };
    let db = match get_req_field(&ms, "db") {
        None => {
            return Err(AppError::Validation(String::from_str("invalid form record")));
        },
        Some(v) => v,
    };
    Ok(FormData { key, title, file, category, prompt, credentials, run_once, db })
}

/// The stored form of a record reads back as the same record.
pub proof fn lemma_form_roundtrip(fd: FormDataV)
    ensures
        parse_form(enc_form(fd)) == Some(fd),
{
    let ms = form_members(fd);
    lemma_parse_enc_object(ms);
    reveal_strlit("key");
    reveal_strlit("title");
    reveal_strlit("file");
    reveal_strlit("category");
    reveal_strlit("prompt");
    reveal_strlit("credentials");
    reveal_strlit("run_once");
    reveal_strlit("db");
    assert(ms.len() == 8);
    assert(ms[0] == ("key"@, key_value(fd.key)));
    assert(ms[1] == ("title"@, JsonValueV::Text(fd.title)));
    assert(ms[2] == ("file"@, JsonValueV::Text(fd.file)));
    assert(ms[3] == ("category"@, JsonValueV::Text(fd.category)));
    assert(ms[4] == ("prompt"@, JsonValueV::Text(fd.prompt)));
    assert(ms[5] == ("credentials"@, JsonValueV::Text(fd.credentials)));
    assert(ms[6] == ("run_once"@, JsonValueV::Text(fd.run_once)));
    assert(ms[7] == ("db"@, JsonValueV::Text(fd.db)));
    assert("key"@.len() == 3 && "title"@.len() == 5 && "file"@.len() == 4 && "category"@.len() == 8
        && "prompt"@.len() == 6 && "credentials"@.len() == 11 && "run_once"@.len() == 8
        && "db"@.len() == 2);
    assert("category"@[0] == 'c' && "run_once"@[0] == 'r');
    assert("category"@ != "run_once"@);
    lemma_unique_lookup(ms, "key"@, 0, 0);
    lemma_unique_lookup(ms, "title"@, 0, 1);
    lemma_unique_lookup(ms, "file"@, 0, 2);
    lemma_unique_lookup(ms, "category"@, 0, 3);
    lemma_unique_lookup(ms, "prompt"@, 0, 4);
    lemma_unique_lookup(ms, "credentials"@, 0, 5);
    lemma_unique_lookup(ms, "run_once"@, 0, 6);
    lemma_unique_lookup(ms, "db"@, 0, 7);
    assert(opt_field(ms, "key"@) == Some(fd.key)) by {
        match fd.key {
            Some(t) => {},
            None => {},
        }
    }
    assert(req_field(ms, "title"@) == Some(fd.title));
    assert(req_field(ms, "file"@) == Some(fd.file));
    assert(req_field(ms, "category"@) == Some(fd.category));
    assert(req_field(ms, "prompt"@) == Some(fd.prompt));
    assert(req_field(ms, "credentials"@) == Some(fd.credentials));
    assert(req_field(ms, "run_once"@) == Some(fd.run_once));
    assert(req_field(ms, "db"@) == Some(fd.db));
    assert(form_of_members(ms) == Some(fd));
}

// ------------------------------------------------------------------
// Reads: the soft miss
// ------------------------------------------------------------------

/// The record a read answers for a key that holds nothing: no key
/// and every string field empty — success, not an error.
pub open spec fn default_form() -> FormDataV {
    FormDataV {
        key: None,
        title: Seq::empty(),
        file: Seq::empty(),
        category: Seq::empty(),
        prompt: Seq::empty(),
        credentials: Seq::empty(),
        run_once: Seq::empty(),
        db: Seq::empty(),
    }
}

/// Builds the soft-miss record.
pub fn default_formdata() -> (r: FormData)
    ensures
        r@ == default_form(),
{
    FormData {
        key: None,
        title: String::new(),
        file: String::new(),
        category: String::new(),
        prompt: String::new(),
        credentials: String::new(),
        run_once: String::new(),
        db: String::new(),
    }
}

// ------------------------------------------------------------------
// Upserts: key assignment and table resolution
// ------------------------------------------------------------------

/// The table an upsert or read resolves to: the record's own `db`
/// field, or the default table when it is empty.
pub open spec fn form_table(db: Seq<char>) -> Seq<char> {
    if db.len() == 0 {
        "formdata"@
    } else {
        db
    }
}

/// Resolves the target table of a record.
pub fn resolve_form_table(db: &String) -> (r: String)
    ensures
        r@ == form_table(db@),
{
    if db.as_str().is_empty() {
        String::from_str("formdata")
    } else {
        db.clone()
    }
}

/// The key an upsert stores under: the client's key when it carries
/// one, else the clock reading written as fourteen digits.
pub open spec fn resolved_key(k: Option<Seq<char>>, t: Timestamp) -> Seq<char> {
    match k {
        Some(s) => if s.len() == 0 {
            stamp_chars(t)
        } else {
            s
        },
        None => stamp_chars(t),
    }
}

/// The record as it is stored: the resolved key written back into it.
pub open spec fn stamped_form(fd: FormDataV, t: Timestamp) -> FormDataV {
    FormDataV { key: Some(resolved_key(fd.key, t)), ..fd }
}

/// The confirmation an upsert answers with.
pub open spec fn confirm_form_msg(key: Seq<char>) -> Seq<char> {
    "form data "@ + key + " created/updated successfully"@
}

/// The confirmation a delete answers with.
pub open spec fn delete_form_msg(key: Seq<char>) -> Seq<char> {
    "form data "@ + key + " deleted"@
}

// ------------------------------------------------------------------
// Search: table selection and range encoding
// ------------------------------------------------------------------

/// The table a search selector names; an unrecognized selector falls
/// back to the default table.
pub open spec fn search_table(sel: Seq<char>) -> Seq<char> {
    if sel == "kv-queue-db"@ {
        "queue"@
    } else if sel == "kv-archive-db"@ {
        "archive"@
    } else {
        "formdata"@
    }
}

/// Resolves a search selector.
pub fn resolve_search_table(sel: &str) -> (r: String)
    ensures
        r@ == search_table(sel@),
{
    if str_eq(sel, "kv-queue-db") {
        String::from_str("queue")
    } else if str_eq(sel, "kv-archive-db") {
        String::from_str("archive")
    } else {
        String::from_str("formdata")
    }
}

/// A date with its dashes removed, `20240105` for `2024-01-05`.
pub open spec fn strip_dashes(s: Seq<char>) -> Seq<char>
    decreases s.len(),
{
    if s.len() == 0 {
        Seq::empty()
    } else if s[0] == '-' {
        strip_dashes(s.skip(1))
    } else {
        seq![s[0]] + strip_dashes(s.skip(1))
    }
}

pub proof fn lemma_strip_dashes_snoc(s: Seq<char>, c: char)
    ensures
        strip_dashes(s.push(c)) == strip_dashes(s) + (if c == '-' {
            Seq::<char>::empty()
        } else {
            seq![c]
        }),
    decreases s.len(),
{
    let t = s.push(c);
    let tail = if c == '-' {
        Seq::<char>::empty()
    } else {
        seq![c]
    };
    if s.len() == 0 {
        assert(t[0] == c);
        assert(t.skip(1) =~= Seq::<char>::empty());
        assert(strip_dashes(t.skip(1)) == Seq::<char>::empty());
        assert(strip_dashes(t) =~= strip_dashes(s) + tail);
    } else {
        assert(t[0] == s[0]);
        assert(t.skip(1) =~= s.skip(1).push(c));
        lemma_strip_dashes_snoc(s.skip(1), c);
        assert(strip_dashes(t) =~= strip_dashes(s) + tail);
    }
}

/// Removes the dashes of a date.
pub fn strip_dashes_exec(s: &str) -> (r: String)
    ensures
        r@ == strip_dashes(s@),
{
    let n = s.unicode_len();
    let mut r = String::new();
    let mut i: usize = 0;
    proof {
        assert(s@.take(0) =~= Seq::<char>::empty());
    }
    while i < n
        invariant
            n == s@.len(),
            i <= n,
            r@ == strip_dashes(s@.take(i as int)),
        decreases n - i,
    {
        let c = s.get_char(i);
        if c != '-' {
            crate::text::push_char(&mut r, c);
        }
        proof {
            assert(s@.take(i + 1 as int) =~= s@.take(i as int).push(s@[i as int]));
            lemma_strip_dashes_snoc(s@.take(i as int), s@[i as int]);
            assert(r@ =~= strip_dashes(s@.take(i + 1 as int)));
        }
        i += 1;
    }
    proof {
        assert(s@.take(n as int) =~= s@);
    }
    r
}

/// The lower bound of a date-range scan.
pub open spec fn search_start_key(from: Seq<char>) -> Seq<char> {
    strip_dashes(from) + "000059"@
}

/// The upper bound of a date-range scan.
pub open spec fn search_end_key(to: Seq<char>) -> Seq<char> {
    strip_dashes(to) + "235959"@
}

/// A key lies in a search's range when it stands lexicographically
/// between the two bounds, both inclusive.
pub open spec fn in_search_range(k: Seq<char>, start: Seq<char>, end: Seq<char>) -> bool {
    lex_le(start, k) && lex_le(k, end)
}

/// The scan a search request asks of the store.
#[derive(Debug)]
pub struct SearchPlan {
    pub table: String,
    pub start: String,
    pub end: String,
}

/// The filesystem target of an export.
#[derive(Debug)]
pub struct DeployPlan {
    pub dir: String,
    pub path: String,
}

/// An exported file keeps its name, with a trailing `.md` rewritten
/// to `.json`.
pub open spec fn deploy_file_name(name: Seq<char>) -> Seq<char> {
    if name.len() >= 3 && name.skip(name.len() - 3) == ".md"@ {
        name.take(name.len() - 3) + ".json"@
    } else {
        name
    }
}

/// Where an export lands: the category directory under the deploy
/// root, holding the renamed file.
pub open spec fn deploy_target(deploy_dir: Seq<char>, category: Seq<char>, name: Seq<char>) -> Seq<
    char,
> {
    deploy_dir + "/"@ + category + "/"@ + deploy_file_name(name)
}

/// The members of a search request.
pub open spec fn search_of_members(ms: Seq<(Seq<char>, JsonValueV)>) -> Option<SearchDataV> {
    let dbsearch = req_field(ms, "dbsearch"@);
    let from = req_field(ms, "from"@);
    let to = req_field(ms, "to"@);
    if dbsearch is Some && from is Some && to is Some {
        Some(
            SearchDataV { dbsearch: dbsearch->Some_0, from: from->Some_0, to: to->Some_0 },
        )
    } else {
        None
    }
}

/// What a text parses to as a search request.
pub open spec fn parse_search(s: Seq<char>) -> Option<SearchDataV> {
    match parse_object(s) {
        None => None,
        Some(ms) => search_of_members(ms),
    }
}

/// Reads a search request.
pub fn parse_searchdata(s: &str) -> (r: Result<SearchData, AppError>)
    ensures
        r matches Ok(sd) ==> parse_search(s@) == Some(sd@),
        r is Err ==> parse_search(s@) is None,
        r matches Err(e) ==> e is Validation,
{
    let cs = str_to_chars(s);
    let ms = match parse_json(&cs) {
        None => {
            return Err(AppError::Validation(String::from_str("invalid request body")));
        },
        Some(ms) => ms,
    };
    let dbsearch = match get_req_field(&ms, "dbsearch") {
        None => {
            return Err(AppError::Validation(String::from_str("invalid search request")));
        },
        Some(v) => v,
    };
    let from = match get_req_field(&ms, "from") {
        None => {
            return Err(AppError::Validation(String::from_str("invalid search request")));
        },
        Some(v) => v,
    };
    let to = match get_req_field(&ms, "to") {
        None => {
            return Err(AppError::Validation(String::from_str("invalid search request")));
        },
        Some(v) => v,
    };
    Ok(SearchData { dbsearch, from, to })
}

/// The views of a scan's key/value pairs.
pub open spec fn pairs_view(ps: Seq<(String, String)>) -> Seq<(Seq<char>, Seq<char>)> {
    ps.map_values(|p: (String, String)| (p.0@, p.1@))
}

/// The views of collected search results.
pub open spec fn results_view(rs: Seq<(String, FormData)>) -> Seq<(Seq<char>, FormDataV)> {
    rs.map_values(|p: (String, FormData)| (p.0@, p.1@))
}

/// What a search answers, given the pairs a scan handed back: the
/// in-range pairs in scan order, each value read as a record; a
/// value that does not parse fails the search.
pub open spec fn collect_search(
    prs: Seq<(Seq<char>, Seq<char>)>,
    start: Seq<char>,
    end: Seq<char>,
) -> Option<Seq<(Seq<char>, FormDataV)>>
    decreases prs.len(),
{
    if prs.len() == 0 {
        Some(Seq::empty())
    } else {
        let k = prs[0].0;
        let v = prs[0].1;
        let rest = collect_search(prs.skip(1), start, end);
        if in_search_range(k, start, end) {
            match parse_form(v) {
                None => None,
                Some(fd) => match rest {
                    None => None,
                    Some(r) => Some(seq![(k, fd)] + r),
                },
            }
        } else {
            rest
        }
    }
}

/// What a read answers, given what the store held under the key: a
/// stored value reads back as its record, an absent one as the
/// soft-miss default; only a stored value that does not parse fails.
pub open spec fn form_read_result(stored: Option<Seq<char>>) -> Option<FormDataV> {
    match stored {
        None => Some(default_form()),
        Some(v) => parse_form(v),
    }
}

/// The view of an optionally stored value.
pub open spec fn stored_view(stored: Option<String>) -> Option<Seq<char>> {
    match stored {
        None => None,
        Some(v) => Some(v@),
    }
}

/// What a search answers holds only keys inside the requested
/// range: a stored pair whose key falls outside the bounds never
/// reaches the results, whatever its value holds.
pub proof fn lemma_collect_search_in_range(
    prs: Seq<(Seq<char>, Seq<char>)>,
    start: Seq<char>,
    end: Seq<char>,
)
    ensures
        collect_search(prs, start, end) matches Some(rs) ==> forall|i: int|
            0 <= i < rs.len() ==> in_search_range(#[trigger] rs[i].0, start, end),
    decreases prs.len(),
{
    if prs.len() > 0 {
        lemma_collect_search_in_range(prs.skip(1), start, end);
        if collect_search(prs, start, end) is Some {
            let rs = collect_search(prs, start, end)->Some_0;
            let rest = collect_search(prs.skip(1), start, end);
            if in_search_range(prs[0].0, start, end) {
                assert(rs == seq![(prs[0].0, parse_form(prs[0].1)->Some_0)] + rest->Some_0);
                assert forall|i: int| 0 <= i < rs.len() implies in_search_range(
                    #[trigger] rs[i].0,
                    start,
                    end,
                ) by {
                    if i > 0 {
                        assert(rs[i] == rest->Some_0[i - 1]);
                    }
                }
            }
        }
    }
}

impl Form {
    /// Answers a read: a stored value is read back as its record, an
    /// absent one as the soft-miss default.
    pub fn get_formdata(stored: Option<String>) -> (r: Result<FormData, AppError>)
        ensures
            form_read_result(stored_view(stored)) matches Some(fd) ==> r matches Ok(rfd) && rfd@
                == fd,
            form_read_result(stored_view(stored)) is None ==> r is Err,
            r matches Err(e) ==> e is Validation,
    {
        match stored {
            None => Ok(default_formdata()),
            Some(v) => parse_formdata(v.as_str()),
        }
    }

    /// Turns an upsert body into the write it asks for: the key is
    /// the client's or a fresh timestamp, the stored value carries
    /// that key, and the write goes to the record's table.
    pub fn save_formdata(data: &str, t: &Timestamp) -> (r: Result<StoreWrite, AppError>)
        ensures
            parse_form(data@) matches Some(fd) ==> r matches Ok(w) && w.table@ == form_table(fd.db)
                && w.key@ == resolved_key(fd.key, *t) && w.value@ == enc_form(stamped_form(fd, *t))
                && w.message@ == confirm_form_msg(resolved_key(fd.key, *t)),
            parse_form(data@) is None ==> r is Err,
            r matches Err(e) ==> e is Validation && parse_form(data@) is None,
    {
        let fd = match parse_formdata(data) {
            Err(e) => {
                return Err(e);
            },
            Ok(fd) => fd,
        };
        let key: String = match &fd.key {
            None => format_stamp(t),
            Some(k) => if k.as_str().is_empty() {
                format_stamp(t)
            } else {
                k.clone()
            },
        };
        let table = resolve_form_table(&fd.db);
        let stamped = FormData {
            key: Some(key.clone()),
            title: fd.title,
            file: fd.file,
            category: fd.category,
            prompt: fd.prompt,
            credentials: fd.credentials,
            run_once: fd.run_once,
            db: fd.db,
        };
        proof {
            assert(stamped@ == stamped_form(parse_form(data@)->Some_0, *t));
        }
        let value = encode_formdata(&stamped);
        let mut message = String::new();
        message.append("form data ");
        message.append(key.as_str());
        message.append(" created/updated successfully");
        Ok(StoreWrite { table, key, value, message })
    }

    /// Turns a search body into the scan it asks for.
    pub fn search_formdata(data: &str) -> (r: Result<SearchPlan, AppError>)
        ensures
            parse_search(data@) matches Some(sd) ==> r matches Ok(p) && p.table@ == search_table(
                sd.dbsearch,
            ) && p.start@ == search_start_key(sd.from) && p.end@ == search_end_key(sd.to),
            parse_search(data@) is None ==> r is Err,
            r matches Err(e) ==> e is Validation && parse_search(data@) is None,
    {
        let sd = match parse_searchdata(data) {
            Err(e) => {
                return Err(e);
            },
            Ok(sd) => sd,
        };
        let table = resolve_search_table(sd.dbsearch.as_str());
        let mut start = strip_dashes_exec(sd.from.as_str());
        start.append("000059");
        let mut end = strip_dashes_exec(sd.to.as_str());
        end.append("235959");
        Ok(SearchPlan { table, start, end })
    }

    /// Collects a scan's pairs into search results, keeping exactly
    /// the in-range keys in scan order.
    pub fn collect_results(pairs: &Vec<(String, String)>, start: &str, end: &str) -> (r: Result<
        Vec<(String, FormData)>,
        AppError,
    >)
        ensures
            r matches Ok(v) ==> collect_search(pairs_view(pairs@), start@, end@) == Some(
                results_view(v@),
            ),
            r is Err ==> collect_search(pairs_view(pairs@), start@, end@) is None,
            r matches Err(e) ==> e is Validation,
    {
        let ghost pv = pairs_view(pairs@);
        let ghost s0 = start@;
        let ghost e0 = end@;
        let start_cs = str_to_chars(start);
        let end_cs = str_to_chars(end);
        let mut acc: Vec<(String, FormData)> = Vec::new();
        let mut i: usize = 0;
        proof {
            assert(pv.skip(0) =~= pv);
            assert(results_view(acc@) =~= Seq::<(Seq<char>, FormDataV)>::empty());
        }
        while i < pairs.len()
            invariant
                i <= pairs@.len(),
                pv == pairs_view(pairs@),
                pv.len() == pairs@.len(),
                s0 == start@ && e0 == end@,
                start_cs@ == s0 && end_cs@ == e0,
                collect_search(pv.skip(i as int), s0, e0) matches Some(tl) ==> collect_search(
                    pv,
                    s0,
                    e0,
                ) == Some(results_view(acc@) + tl),
                collect_search(pv.skip(i as int), s0, e0) is None ==> collect_search(pv, s0, e0)
                    is None,
            decreases pairs@.len() - i,
        {
            proof {
                assert(pv[i as int] == (pairs@[i as int].0@, pairs@[i as int].1@));
                assert(pv.skip(i as int)[0] == pv[i as int]);
                assert(pv.skip(i as int).skip(1) =~= pv.skip(i + 1 as int));
                assert(pv.skip(i as int).len() > 0);
            }
            let key_cs = str_to_chars(pairs[i].0.as_str());
            let in_range = lex_le_exec(&start_cs, &key_cs) && lex_le_exec(&key_cs, &end_cs);
            proof {
                assert(in_range == in_search_range(pv[i as int].0, s0, e0));
            }
            if in_range {
                let fd = match parse_formdata(pairs[i].1.as_str()) {
                    Err(e) => {
                        proof {
                            assert(collect_search(pv.skip(i as int), s0, e0) is None);
                        }
                        return Err(e);
                    },
                    Ok(fd) => fd,
                };
                let ghost before = acc@;
                acc.push((pairs[i].0.clone(), fd));
                proof {
                    assert(results_view(acc@) =~= results_view(before) + seq![
                        (pv[i as int].0, fd@),
                    ]);
                    assert(collect_search(pv.skip(i as int), s0, e0) matches Some(tl) ==> tl
                        =~= seq![(pv[i as int].0, fd@)] + collect_search(
                        pv.skip(i + 1 as int),
                        s0,
                        e0,
                    )->Some_0);
                }
            }
            i += 1;
        }
        proof {
            assert(pv.skip(pv.len() as int) =~= Seq::<(Seq<char>, Seq<char>)>::empty());
            assert(collect_search(pv.skip(pv.len() as int), s0, e0) == Some(
                Seq::<(Seq<char>, FormDataV)>::empty(),
            ));
            assert(results_view(acc@) + Seq::<(Seq<char>, FormDataV)>::empty() =~= results_view(
                acc@,
            ));
        }
        Ok(acc)
    }

    /// Builds the filesystem target of an export: the category
    /// directory under the deploy root, and the file inside it with
    /// its `.md` suffix turned into `.json`. The caller writes the
    /// bytes verbatim to that path, creating the directory first.
    pub fn deploy(deploy_dir: &str, category: &str, file_name: &str) -> (r: DeployPlan)
        ensures
            r.dir@ == deploy_dir@ + "/"@ + category@,
            r.path@ == deploy_target(deploy_dir@, category@, file_name@),
    {
        let mut dir = String::new();
        dir.append(deploy_dir);
        dir.append("/");
        dir.append(category);
        let n = file_name.unicode_len();
        let mut renamed = String::new();
        let md_suffix = n >= 3 && file_name.get_char(n - 3) == '.' && file_name.get_char(n - 2)
            == 'm' && file_name.get_char(n - 1) == 'd';
        if md_suffix {
            let cs = str_to_chars(file_name);
            let stem = crate::text::substring_chars(&cs, 0, n - 3);
            renamed.append(stem.as_str());
            renamed.append(".json");
            proof {
                reveal_strlit(".md");
                assert(file_name@.skip(n - 3 as int) =~= ".md"@);
                assert(cs@.subrange(0, n - 3 as int) =~= file_name@.take(n - 3 as int));
            }
        } else {
            renamed.append(file_name);
            proof {
                reveal_strlit(".md");
                if file_name@.len() >= 3 && file_name@.skip(file_name@.len() - 3) == ".md"@ {
                    assert(file_name@[file_name@.len() - 3] == file_name@.skip(
                        file_name@.len() - 3,
                    )[0]);
                    assert(file_name@[file_name@.len() - 2] == file_name@.skip(
                        file_name@.len() - 3,
                    )[1]);
                    assert(file_name@[file_name@.len() - 1] == file_name@.skip(
                        file_name@.len() - 3,
                    )[2]);
                    assert(false);
                }
            }
        }
        let mut path = String::new();
        path.append(dir.as_str());
        path.append("/");
        path.append(renamed.as_str());
        DeployPlan { dir, path }
    }

    /// Turns a delete request into the removal it asks for; removing
    /// an absent key is a no-op success.
    pub fn delete_formdata(key: &str) -> (r: StoreDelete)
        ensures
            r.table@ == "formdata"@,
            r.key@ == key@,
            r.message@ == delete_form_msg(key@),
    {
        let mut message = String::new();
        message.append("form data ");
        message.append(key);
        message.append(" deleted");
        let mut table = String::new();
        table.append("formdata");
        let mut k = String::new();
        k.append(key);
        StoreDelete { table, key: k, message }
    }
}

/// An upsert that arrives without a key — absent or empty — is
/// assigned the clock's key: fourteen characters, all digits.
pub proof fn lemma_fresh_key_shape(k: Option<Seq<char>>, t: Timestamp)
    requires
        k is None || k->Some_0.len() == 0,
    ensures
        resolved_key(k, t) == stamp_chars(t),
        resolved_key(k, t).len() == 14,
        forall|i: int|
            0 <= i < 14 ==> crate::text::is_dec_digit(#[trigger] resolved_key(k, t)[i]),
{
    crate::clock::lemma_stamp_digits(t);
}

/// Upsert then read: after a record's stored form is written under
/// its resolved key, reading that key back yields the stamped
/// record — every field but the assigned key exactly as submitted.
pub proof fn lemma_form_upsert_read(fd: FormDataV, t: Timestamp, m: Map<Seq<char>, Seq<char>>)
    ensures
        ({
            let key = resolved_key(fd.key, t);
            let stored = m.insert(key, enc_form(stamped_form(fd, t)));
            &&& form_read_result(Some(stored[key])) == Some(stamped_form(fd, t))
            &&& stamped_form(fd, t).key == Some(key)
            &&& stamped_form(fd, t).title == fd.title
            &&& stamped_form(fd, t).file == fd.file
            &&& stamped_form(fd, t).category == fd.category
            &&& stamped_form(fd, t).prompt == fd.prompt
            &&& stamped_form(fd, t).credentials == fd.credentials
            &&& stamped_form(fd, t).run_once == fd.run_once
            &&& stamped_form(fd, t).db == fd.db
        }),
{
    lemma_form_roundtrip(stamped_form(fd, t));
}

} // verus!

//! Credentials: registration and authentication. A credential is
//! stored under its user id in the login table; the login body
//! arrives URL-encoded as `user=...&password=...`.

use crate::common::AppError;
use crate::json::{
    enc_object, encode_object, get_req_field, lemma_parse_enc_object, lemma_unique_lookup,
    member_views, parse_json, parse_object, req_field, JsonMember, JsonValue, JsonValueV,
};
use crate::store::StoreWrite;
use crate::text::{find_from, push_char, str_to_chars};
use vstd::prelude::*;
use vstd::string::StringExecFns;

verus! {

/// What the login table stores under a user id.
#[derive(Debug)]
pub struct UserData {
    pub password: String,
    pub session_id: String,
}

/// The mathematical image of a stored credential.
pub struct UserDataV {
    pub password: Seq<char>,
    pub session_id: Seq<char>,
}

impl View for UserData {
    type V = UserDataV;

    open spec fn view(&self) -> UserDataV {
        UserDataV { password: self.password@, session_id: self.session_id@ }
    }
}

/// The handler for registration and login.
pub struct User {}

// ------------------------------------------------------------------
// The serialization contract
// ------------------------------------------------------------------

/// The members of an encoded credential, in storage order.
pub open spec fn user_members(u: UserDataV) -> Seq<(Seq<char>, JsonValueV)> {
    seq![
        ("password"@, JsonValueV::Text(u.password)),
        ("session_id"@, JsonValueV::Text(u.session_id)),
    ]
}

/// The stored form of a credential.
pub open spec fn enc_user(u: UserDataV) -> Seq<char> {
    enc_object(user_members(u))
}

/// The credential a parsed object denotes.
pub open spec fn user_of_members(ms: Seq<(Seq<char>, JsonValueV)>) -> Option<UserDataV> {
    let password = req_field(ms, "password"@);
    let session_id = req_field(ms, "session_id"@);
    if password is Some && session_id is Some {
        Some(UserDataV { password: password->Some_0, session_id: session_id->Some_0 })
    } else {
        None
    }
}

/// What a text parses to as a credential.
pub open spec fn parse_user(s: Seq<char>) -> Option<UserDataV> {
    match parse_object(s) {
        None => None,
        Some(ms) => user_of_members(ms),
    }
}

/// Writes a credential in its stored form.
pub fn encode_userdata(u: &UserData) -> (r: String)
    ensures
        r@ == enc_user(u@),
{
    let mut ms: Vec<JsonMember> = Vec::new();
    ms.push(
        JsonMember { name: String::from_str("password"), value: JsonValue::Text(u.password.clone()) },
    );
    ms.push(
        JsonMember {
            name: String::from_str("session_id"),
            value: JsonValue::Text(u.session_id.clone()),
        },
    );
    proof {
        assert(member_views(ms@) =~= user_members(u@));
    }
    encode_object(&ms)
}

/// Reads a credential from its stored form.
pub fn parse_userdata(s: &str) -> (r: Result<UserData, AppError>)
    ensures
        r matches Ok(u) ==> parse_user(s@) == Some(u@),
        r is Err ==> parse_user(s@) is None,
        r matches Err(e) ==> e is Validation,
{
    let cs = str_to_chars(s);
    let ms = match parse_json(&cs) {
        None => {
            return Err(AppError::Validation(String::from_str("invalid stored credential")));
        },
        Some(ms) => ms,
    };
    let password = match get_req_field(&ms, "password") {
        None => {
            return Err(AppError::Validation(String::from_str("invalid stored credential")));
        },
        Some(v) => v,
    };
    let session_id = match get_req_field(&ms, "session_id") {
        None => {
            return Err(AppError::Validation(String::from_str("invalid stored credential")));
        },
        Some(v) => v,
    };
    Ok(UserData { password, session_id })
}

/// The stored form of a credential reads back as the same credential.
pub proof fn lemma_user_roundtrip(u: UserDataV)
    ensures
        parse_user(enc_user(u)) == Some(u),
{
    let ms = user_members(u);
    lemma_parse_enc_object(ms);
    reveal_strlit("password");
    reveal_strlit("session_id");
    assert(ms.len() == 2);
    assert(ms[0] == ("password"@, JsonValueV::Text(u.password)));
    assert(ms[1] == ("session_id"@, JsonValueV::Text(u.session_id)));
    assert("password"@.len() == 8 && "session_id"@.len() == 10);
    lemma_unique_lookup(ms, "password"@, 0, 0);
    lemma_unique_lookup(ms, "session_id"@, 0, 1);
    assert(req_field(ms, "password"@) == Some(u.password));
    assert(req_field(ms, "session_id"@) == Some(u.session_id));
    assert(user_of_members(ms) == Some(u));
}

/// Register then read: after a credential's stored form is written
/// under its id, reading the id back yields the same credential.
pub proof fn lemma_credential_upsert_read(u: UserDataV, id: Seq<char>, m: Map<Seq<char>, Seq<char>>)
    ensures
        parse_user(m.insert(id, enc_user(u))[id]) == Some(u),
{
    lemma_user_roundtrip(u);
}

// ------------------------------------------------------------------
// The login body
// ------------------------------------------------------------------

/// What stands after the last `=` of a fragment; the whole fragment
/// when it holds none.
pub open spec fn after_last_eq(s: Seq<char>) -> Seq<char>
    decreases s.len(),
{
    if s.len() == 0 {
        Seq::empty()
    } else if s.last() == '=' {
        Seq::empty()
    } else {
        after_last_eq(s.drop_last()).push(s.last())
    }
}

/// The user and password of a login body: the body splits at its
/// first `&`, and each side keeps what follows its last `=`.
pub open spec fn login_pair(s: Seq<char>) -> Option<(Seq<char>, Seq<char>)> {
    match find_from(s, '&', 0) {
        None => None,
        Some(p) => Some((after_last_eq(s.take(p)), after_last_eq(s.skip(p + 1)))),
    }
}

proof fn lemma_after_last_eq_none(s: Seq<char>)
    requires
        forall|j: int| 0 <= j < s.len() ==> s[j] != '=',
    ensures
        after_last_eq(s) == s,
    decreases s.len(),
{
    if s.len() == 0 {
        assert(after_last_eq(s) =~= s);
    } else {
        assert(s.last() != '=');
        lemma_after_last_eq_none(s.drop_last());
        assert(s.drop_last().push(s.last()) =~= s);
    }
}

proof fn lemma_after_last_eq_at(s: Seq<char>, p: int)
    requires
        0 <= p < s.len(),
        s[p] == '=',
        forall|j: int| p < j < s.len() ==> s[j] != '=',
    ensures
        after_last_eq(s) == s.skip(p + 1),
    decreases s.len(),
{
    if p == s.len() - 1 {
        assert(s.last() == '=');
        assert(after_last_eq(s) == Seq::<char>::empty());
        assert(s.skip(p + 1) =~= Seq::<char>::empty());
    } else {
        assert(s.last() != '=');
        lemma_after_last_eq_at(s.drop_last(), p);
        assert(after_last_eq(s) == s.drop_last().skip(p + 1).push(s.last()));
        assert(s.drop_last().skip(p + 1).push(s.last()) =~= s.skip(p + 1));
    }
}

/// Keeps what follows the last `=` of a fragment.
fn after_last_eq_exec(s: &Vec<char>, lo: usize, hi: usize) -> (r: String)
    requires
        lo <= hi <= s@.len(),
    ensures
        r@ == after_last_eq(s@.subrange(lo as int, hi as int)),
{
    let ghost frag = s@.subrange(lo as int, hi as int);
    // look for the last '=' in the fragment
    let mut p: usize = hi;
    let mut found = false;
    while p > lo && !found
        invariant
            lo <= p <= hi <= s@.len(),
            frag == s@.subrange(lo as int, hi as int),
            !found ==> forall|j: int| p - lo <= j < frag.len() ==> frag[j] != '=',
            found ==> lo <= p && p < hi && s@[p as int] == '=' && forall|j: int|
                p - lo < j < frag.len() ==> frag[j] != '=',
        decreases p - lo + (if found { 0int } else { 1int }),
    {
        if s[p - 1] == '=' {
            p = p - 1;
            found = true;
            proof {
                assert(frag[p - lo] == s@[p as int]);
            }
        } else {
            proof {
                assert(frag[p - 1 - lo] == s@[p - 1 as int]);
            }
            p = p - 1;
        }
    }
    let start: usize = if found {
        p + 1
    } else {
        lo
    };
    proof {
        if found {
            lemma_after_last_eq_at(frag, p - lo as int);
        } else {
            lemma_after_last_eq_none(frag);
        }
    }
    let mut r = String::new();
    let mut i = start;
    proof {
        assert(frag.skip(start - lo as int).take(0) =~= Seq::<char>::empty());
    }
    while i < hi
        invariant
            start <= i <= hi <= s@.len(),
            lo <= start,
            frag == s@.subrange(lo as int, hi as int),
            r@ == frag.skip(start - lo as int).take(i - start as int),
        decreases hi - i,
    {
        push_char(&mut r, s[i]);
        proof {
            assert(frag.skip(start - lo as int)[i - start as int] == frag[i - lo as int]);
            assert(frag[i - lo as int] == s@[i as int]);
            assert(r@ =~= frag.skip(start - lo as int).take(i + 1 - start as int));
        }
        i += 1;
    }
    proof {
        assert(frag.skip(start - lo as int).take(hi - start as int) =~= frag.skip(
            start - lo as int,
        ));
        if found {
            assert(frag.skip(start - lo as int) =~= frag.skip(p - lo as int + 1));
        } else {
            assert(frag.skip(0) =~= frag);
        }
    }
    r
}

/// Splits a login body into its user and password.
pub fn parse_login(data: &str) -> (r: Result<(String, String), AppError>)
    ensures
        login_pair(data@) matches Some(pr) ==> r matches Ok(q) && q.0@ == pr.0 && q.1@ == pr.1,
        login_pair(data@) is None ==> r is Err,
        r matches Err(e) ==> e is Validation,
{
    let cs = str_to_chars(data);
    // find the first '&'
    let mut i: usize = 0;
    proof {
        assert(find_from(cs@, '&', 0) == find_from(cs@, '&', 0int));
    }
    while i < cs.len() && cs[i] != '&'
        invariant
            i <= cs@.len(),
            find_from(cs@, '&', 0) == find_from(cs@, '&', i as int),
        decreases cs@.len() - i,
    {
        i += 1;
    }
    if i >= cs.len() {
        proof {
            assert(find_from(cs@, '&', i as int) is None);
        }
        return Err(AppError::Validation(String::from_str("could not parse parameters")));
    }
    proof {
        assert(find_from(cs@, '&', i as int) == Some(i as int));
    }
    let user = after_last_eq_exec(&cs, 0, i);
    let password = after_last_eq_exec(&cs, i + 1, cs.len());
    proof {
        assert(cs@.subrange(0, i as int) =~= cs@.take(i as int));
        assert(cs@.subrange(i + 1 as int, cs@.len() as int) =~= cs@.skip(i + 1 as int));
    }
    Ok((user, password))
}

// ------------------------------------------------------------------
// The operations
// ------------------------------------------------------------------

/// The confirmation a registration answers with.
pub open spec fn registered_msg(id: Seq<char>) -> Seq<char> {
    "user "@ + id + " registered successfully"@
}

/// The refusal for an id that was never registered.
pub open spec fn not_registered_msg(id: Seq<char>) -> Seq<char> {
    "no record found for user "@ + id + " (have you registered ?)"@
}

/// The placeholder session id a registration stores.
pub open spec fn placeholder_session() -> Seq<char> {
    "123456"@
}

impl User {
    /// Turns a registration body into the credential write it asks
    /// for. Re-registering an id silently replaces its password.
    pub fn save_formdata(data: &str) -> (r: Result<StoreWrite, AppError>)
        ensures
            login_pair(data@) matches Some(pr) ==> r matches Ok(w) && w.table@ == "login"@
                && w.key@ == pr.0 && w.value@ == enc_user(
                UserDataV { password: pr.1, session_id: placeholder_session() },
            ) && w.message@ == registered_msg(pr.0),
            login_pair(data@) is None ==> r is Err,
            r matches Err(e) ==> e is Validation && login_pair(data@) is None,
    {
        let (user, password) = match parse_login(data) {
            Err(e) => {
                return Err(e);
            },
            Ok(q) => q,
        };
        let ud = UserData { password, session_id: String::from_str("123456") };
        let value = encode_userdata(&ud);
        let mut message = String::new();
        message.append("user ");
        message.append(user.as_str());
        message.append(" registered successfully");
        let mut table = String::new();
        table.append("login");
        Ok(StoreWrite { table, key: user, value, message })
    }

    /// Splits a login body into the id to look up and the password
    /// to check.
    pub fn get_formdata(data: &str) -> (r: Result<(String, String), AppError>)
        ensures
            login_pair(data@) matches Some(pr) ==> r matches Ok(q) && q.0@ == pr.0 && q.1@ == pr.1,
            login_pair(data@) is None ==> r is Err,
            r matches Err(e) ==> e is Validation,
    {
        parse_login(data)
    }

    /// Decides a login, given what the login table held under the
    /// id: an id that holds nothing was never registered; a stored
    /// password that differs from the supplied one refuses the
    /// login; only an exact match succeeds.
    pub fn authenticate(id: &str, password: &str, stored: Option<String>) -> (r: Result<
        String,
        AppError,
    >)
        ensures
            crate::formdata::stored_view(stored) is None ==> (r matches Err(e) && e matches
                AppError::NotRegistered(m) && m@ == not_registered_msg(id@)),
            crate::formdata::stored_view(stored) matches Some(v) ==> (parse_user(v) is None ==> (r
                matches Err(e) && e is Validation)),
            crate::formdata::stored_view(stored) matches Some(v) ==> (parse_user(v) matches Some(u)
                ==> if u.password == password@ {
                r matches Ok(m) && m@ == "login successful"@
            } else {
                r matches Err(e) && e is IncorrectCredentials
            }),
    {
        let v = match stored {
            None => {
                let mut message = String::new();
                message.append("no record found for user ");
                message.append(id);
                message.append(" (have you registered ?)");
                return Err(AppError::NotRegistered(message));
            },
            Some(v) => v,
        };
        let ud = match parse_userdata(v.as_str()) {
            Err(e) => {
                return Err(e);
            },
            Ok(u) => u,
        };
        if crate::text::str_eq(ud.password.as_str(), password) {
            let mut message = String::new();
            message.append("login successful");
            Ok(message)
        } else {
            Err(AppError::IncorrectCredentials)
        }
    }
}

} // verus!

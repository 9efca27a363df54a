//! The request router: exactly one operation per method and path.
//! Paths match the route table exactly, after an optional leading
//! `webconsole` segment (the console's own pages address their
//! endpoints under that prefix) is dropped.

use crate::text::{find_from, lemma_find_from_shift, str_eq, str_to_chars, substring_chars};
use vstd::prelude::*;

verus! {

/// The segments of a path, split at every slash.
pub open spec fn split_slash(s: Seq<char>) -> Seq<Seq<char>>
    decreases s.len(),
{
    match find_from(s, '/', 0) {
        None => seq![s],
        Some(p) => if 0 <= p < s.len() {
            seq![s.take(p)] + split_slash(s.skip(p + 1))
        } else {
            seq![s]
        },
    }
}

/// The views of split segments.
pub open spec fn seg_views(segs: Seq<String>) -> Seq<Seq<char>> {
    segs.map_values(|x: String| x@)
}

/// Splits a path at every slash.
pub fn split_slash_exec(s: &Vec<char>) -> (r: Vec<String>)
    ensures
        seg_views(r@) == split_slash(s@),
{
    let mut segs: Vec<String> = Vec::new();
    let mut start: usize = 0;
    proof {
        assert(s@.skip(0) =~= s@);
        assert(seg_views(segs@) =~= Seq::<Seq<char>>::empty());
    }
    loop
        invariant
            start <= s@.len(),
            split_slash(s@) == seg_views(segs@) + split_slash(s@.skip(start as int)),
        decreases s@.len() - start,
    {
        let ghost pre = segs@;
        let mut j = start;
        while j < s.len() && s[j] != '/'
            invariant
                start <= j <= s@.len(),
                find_from(s@, '/', start as int) == find_from(s@, '/', j as int),
            decreases s@.len() - j,
        {
            j += 1;
        }
        proof {
            lemma_find_from_shift(s@, '/', start as int, 0);
        }
        if j < s.len() {
            proof {
                assert(find_from(s@, '/', j as int) == Some(j as int));
                assert(find_from(s@.skip(start as int), '/', 0) == Some(j - start as int));
            }
            let seg = substring_chars(s, start, j);
            segs.push(seg);
            proof {
                let tail = s@.skip(start as int);
                assert(tail.take(j - start as int) =~= s@.subrange(start as int, j as int));
                assert(tail.skip(j - start + 1 as int) =~= s@.skip(j + 1 as int));
                assert(split_slash(tail) == seq![s@.subrange(start as int, j as int)]
                    + split_slash(s@.skip(j + 1 as int)));
                assert(seg_views(segs@) =~= seg_views(pre) + seq![
                    s@.subrange(start as int, j as int),
                ]);
                assert(seg_views(segs@) + split_slash(s@.skip(j + 1 as int)) =~= seg_views(pre)
                    + split_slash(tail));
            }
            start = j + 1;
        } else {
            proof {
                assert(find_from(s@, '/', j as int) is None);
                assert(find_from(s@.skip(start as int), '/', 0) is None);
            }
            let seg = substring_chars(s, start, s.len());
            segs.push(seg);
            proof {
                let tail = s@.skip(start as int);
                assert(tail =~= s@.subrange(start as int, s@.len() as int));
                assert(split_slash(tail) == seq![tail]);
                assert(seg_views(segs@) =~= seg_views(pre) + seq![tail]);
                assert(seg_views(segs@) =~= seg_views(pre) + split_slash(tail));
            }
            return segs;
        }
    }
}

/// The operation a request is dispatched to, with its path
/// parameters.
pub enum Route {
    Index,
    FormRead { key: String, table: String },
    DocRead { key: String },
    Login,
    Register,
    FormUpsert,
    Search,
    DocUpsert,
    Deploy,
    FormDelete { key: String },
    NotFound,
}

/// The mathematical image of a route.
pub enum RouteV {
    Index,
    FormRead { key: Seq<char>, table: Seq<char> },
    DocRead { key: Seq<char> },
    Login,
    Register,
    FormUpsert,
    Search,
    DocUpsert,
    Deploy,
    FormDelete { key: Seq<char> },
    NotFound,
}

impl View for Route {
    type V = RouteV;

    open spec fn view(&self) -> RouteV {
        match self {
            Route::Index => RouteV::Index,
            Route::FormRead { key, table } => RouteV::FormRead { key: key@, table: table@ },
            Route::DocRead { key } => RouteV::DocRead { key: key@ },
            Route::Login => RouteV::Login,
            Route::Register => RouteV::Register,
            Route::FormUpsert => RouteV::FormUpsert,
            Route::Search => RouteV::Search,
            Route::DocUpsert => RouteV::DocUpsert,
            Route::Deploy => RouteV::Deploy,
            Route::FormDelete { key } => RouteV::FormDelete { key: key@ },
            Route::NotFound => RouteV::NotFound,
        }
    }
}

/// Drops a leading `webconsole` segment.
pub open spec fn strip_console_prefix(segs: Seq<Seq<char>>) -> Seq<Seq<char>> {
    if segs.len() >= 2 && segs[1] == "webconsole"@ {
        seq![segs[0]] + segs.skip(2)
    } else {
        segs
    }
}

/// The route table: which operation a method and path select.
pub open spec fn route_of(method: Seq<char>, path: Seq<char>) -> RouteV {
    let segs = strip_console_prefix(split_slash(path));
    if method == "GET"@ {
        if segs.len() == 2 && segs[0].len() == 0 && segs[1] == "index"@ {
            RouteV::Index
        } else if segs.len() == 3 && segs[0].len() == 0 && segs[1] == "formdata"@ {
            RouteV::FormRead { key: segs[2], table: "formdata"@ }
        } else if segs.len() == 4 && segs[0].len() == 0 && segs[1] == "formdata"@ {
            RouteV::FormRead { key: segs[2], table: segs[3] }
        } else if segs.len() == 3 && segs[0].len() == 0 && segs[1] == "view"@ {
            RouteV::DocRead { key: segs[2] }
        } else {
            RouteV::NotFound
        }
    } else if method == "POST"@ {
        if segs.len() == 2 && segs[0].len() == 0 && segs[1] == "login"@ {
            RouteV::Login
        } else if segs.len() == 2 && segs[0].len() == 0 && segs[1] == "register"@ {
            RouteV::Register
        } else if segs.len() == 2 && segs[0].len() == 0 && segs[1] == "formdata"@ {
            RouteV::FormUpsert
        } else if segs.len() == 2 && segs[0].len() == 0 && segs[1] == "search"@ {
            RouteV::Search
        } else if segs.len() == 2 && segs[0].len() == 0 && segs[1] == "view"@ {
            RouteV::DocUpsert
        } else if segs.len() == 2 && segs[0].len() == 0 && segs[1] == "deploy"@ {
            RouteV::Deploy
        } else {
            RouteV::NotFound
        }
    } else if method == "DELETE"@ {
        if segs.len() == 3 && segs[0].len() == 0 && segs[1] == "formdata"@ {
            RouteV::FormDelete { key: segs[2] }
        } else {
            RouteV::NotFound
        }
    } else {
        RouteV::NotFound
    }
}

/// Dispatches a method and path to their operation.
pub fn route(method: &str, path: &str) -> (r: Route)
    ensures
        r@ == route_of(method@, path@),
{
    let cs = str_to_chars(path);
    let mut segs = split_slash_exec(&cs);
    let ghost raw = seg_views(segs@);
    if segs.len() >= 2 && str_eq(segs[1].as_str(), "webconsole") {
        segs.remove(1);
        proof {
            assert(seg_views(segs@) =~= strip_console_prefix(raw));
        }
    } else {
        proof {
            if segs@.len() >= 2 {
                assert(raw[1] == segs@[1]@);
            }
            assert(seg_views(segs@) =~= strip_console_prefix(raw));
        }
    }
    let ghost sv = seg_views(segs@);
    proof {
        assert(forall|i: int| 0 <= i < segs@.len() ==> sv[i] == segs@[i]@);
    }
    if str_eq(method, "GET") {
        if segs.len() == 2 && segs[0].as_str().is_empty() && str_eq(segs[1].as_str(), "index") {
            Route::Index
        } else if segs.len() == 3 && segs[0].as_str().is_empty() && str_eq(
            segs[1].as_str(),
            "formdata",
        ) {
            Route::FormRead { key: segs[2].clone(), table: String::from_str("formdata") }
        } else if segs.len() == 4 && segs[0].as_str().is_empty() && str_eq(
            segs[1].as_str(),
            "formdata",
        ) {
            Route::FormRead { key: segs[2].clone(), table: segs[3].clone() }
        } else if segs.len() == 3 && segs[0].as_str().is_empty() && str_eq(
            segs[1].as_str(),
            "view",
        ) {
            Route::DocRead { key: segs[2].clone() }
        } else {
            Route::NotFound
        }
    } else if str_eq(method, "POST") {
        if segs.len() == 2 && segs[0].as_str().is_empty() && str_eq(segs[1].as_str(), "login") {
            Route::Login
        } else if segs.len() == 2 && segs[0].as_str().is_empty() && str_eq(
            segs[1].as_str(),
            "register",
        ) {
            Route::Register
        } else if segs.len() == 2 && segs[0].as_str().is_empty() && str_eq(
            segs[1].as_str(),
            "formdata",
        ) {
            Route::FormUpsert
        } else if segs.len() == 2 && segs[0].as_str().is_empty() && str_eq(
            segs[1].as_str(),
            "search",
        ) {
            Route::Search
        } else if segs.len() == 2 && segs[0].as_str().is_empty() && str_eq(
            segs[1].as_str(),
            "view",
        ) {
            Route::DocUpsert
        } else if segs.len() == 2 && segs[0].as_str().is_empty() && str_eq(
            segs[1].as_str(),
            "deploy",
        ) {
            Route::Deploy
        } else {
            Route::NotFound
        }
    } else if str_eq(method, "DELETE") {
        if segs.len() == 3 && segs[0].as_str().is_empty() && str_eq(segs[1].as_str(), "formdata") {
            Route::FormDelete { key: segs[2].clone() }
        } else {
            Route::NotFound
        }
    } else {
        Route::NotFound
    }
}

} // verus!

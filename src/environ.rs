use vstd::prelude::*;
use crate::headers::pairs_view;
use crate::response::opt_text;

verus! {

/// The request method of a pull-protocol environment: `REQUEST_METHOD`, or `GET` without it.
pub open spec fn environ_method(method: Option<Seq<char>>) -> Seq<char> {
    match method {
        Some(m) => m,
        None => "GET"@,
    }
}

/// The request target of a pull-protocol environment: `PATH_INFO` (`/` when it is absent or
/// empty), then `?` and `QUERY_STRING` when the query is present and not empty.
pub open spec fn environ_target(path: Option<Seq<char>>, query: Option<Seq<char>>) -> Seq<char> {
    let p = match path {
        Some(p) => if p.len() > 0 {
            p
        } else {
            "/"@
        },
        None => "/"@,
    };
    match query {
        Some(q) => if q.len() > 0 {
            p + "?"@ + q
        } else {
            p
        },
        None => p,
    }
}

/// The headers that the environment carries outside its `HTTP_` keys: `content-type` from
/// `CONTENT_TYPE`, then `content-length` from `CONTENT_LENGTH`, each only when present.
pub open spec fn environ_headers(
    content_type: Option<Seq<char>>,
    content_length: Option<Seq<char>>,
) -> Seq<(Seq<char>, Seq<char>)> {
    let t: Seq<(Seq<char>, Seq<char>)> = match content_type {
        Some(v) => seq![("content-type"@, v)],
        None => Seq::empty(),
    };
    match content_length {
        Some(v) => t.push(("content-length"@, v)),
        None => t,
    }
}

/// The method and target of the request that a pull-protocol environment describes.
pub fn environ_request(
    method: Option<String>,
    path: Option<String>,
    query: Option<String>,
) -> (r: (String, String))
    ensures
        r.0@ == environ_method(opt_text(method)),
        r.1@ == environ_target(opt_text(path), opt_text(query)),
{
    let m = match method {
        Some(m) => m,
        None => String::from_str("GET"),
    };
    let mut target = match path {
        Some(p) => if p.as_str().unicode_len() > 0 {
            p
        } else {
            String::from_str("/")
        },
        None => String::from_str("/"),
    };
    match query {
        Some(q) => if q.as_str().unicode_len() > 0 {
            target.append("?");
            target.append(q.as_str());
        },
        None => {},
    }
    (m, target)
}

/// The content headers of a pull-protocol environment, as header pairs.
pub fn environ_content_headers(
    content_type: Option<String>,
    content_length: Option<String>,
) -> (r: Vec<(String, String)>)
    ensures
        pairs_view(r@) == environ_headers(opt_text(content_type), opt_text(content_length)),
{
    let mut out: Vec<(String, String)> = Vec::new();
    match content_type {
        Some(v) => out.push((String::from_str("content-type"), v)),
        None => {},
    }
    match content_length {
        Some(v) => out.push((String::from_str("content-length"), v)),
        None => {},
    }
    proof {
        assert(pairs_view(out@) =~= environ_headers(
            opt_text(content_type),
            opt_text(content_length),
        ));
    }
    out
}

} // verus!

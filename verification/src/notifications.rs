//! The notification API: which operation a request asks for, and its
//! query parameters.
use vstd::prelude::*;
use crate::text::{parse_i64_chars, parse_i64_spec, str_chars, chars_eq, chars_eq_str, starts_with, starts_with_str, trim, trim_chars, split, split_chars, slice_chars, string_from_chars};
use crate::dto::{piece_kv, piece_kv_exec};

verus! {

/// The operations of the notification API.
#[derive(Debug, Clone, Copy, PartialEq, Eq, Structural)]
pub enum NotificationEndpoint {
    Preflight,
    List,
    ClientTrust,
    MarkAllRead,
    UnreadCount,
    UpdateStatus,
    NotFound,
}

/// An operation of the notification API, with the id a status update names.
pub struct NotificationRoute {
    pub endpoint: NotificationEndpoint,
    pub id: Option<String>,
}

/// The path below `/api/notifications` (empty when the path is elsewhere).
pub open spec fn notification_sub_path(path: Seq<char>) -> Seq<char> {
    if starts_with(path, "/api/notifications"@) {
        path.skip(18)
    } else {
        Seq::empty()
    }
}

/// The operation of a request, by path and method; the id of a status
/// update is what follows `/status/`.
pub open spec fn notification_route_spec(path: Seq<char>, method: Seq<char>) -> (NotificationEndpoint, Option<Seq<char>>) {
    let sub = notification_sub_path(path);
    if method == "OPTIONS"@ {
        (NotificationEndpoint::Preflight, None)
    } else if sub.len() == 0 || sub == "/"@ {
        (NotificationEndpoint::List, None)
    } else if sub == "/client-trust"@ {
        (NotificationEndpoint::ClientTrust, None)
    } else if sub == "/mark-all-read"@ {
        (NotificationEndpoint::MarkAllRead, None)
    } else if sub == "/unread-count"@ {
        (NotificationEndpoint::UnreadCount, None)
    } else if starts_with(sub, "/status/"@) {
        (NotificationEndpoint::UpdateStatus, Some(sub.skip(8)))
    } else {
        (NotificationEndpoint::NotFound, None)
    }
}

/// The view of a route.
pub open spec fn notification_route_view(r: NotificationRoute) -> (NotificationEndpoint, Option<Seq<char>>) {
    (r.endpoint, match r.id {
        Some(s) => Some(s@),
        None => None,
    })
}

/// The operation of a request below `/api/notifications`.
pub fn notification_route(path: &str, method: &str) -> (r: NotificationRoute)
    ensures
        notification_route_view(r) == notification_route_spec(path@, method@),
{
    let p = str_chars(path);
    let m = str_chars(method);
    proof {
        reveal_strlit("/api/notifications");
        reveal_strlit("/status/");
    }
    let sub: Vec<char> = if starts_with_str(&p, "/api/notifications") {
        slice_chars(&p, 18, p.len())
    } else {
        Vec::new()
    };
    proof {
        assert(sub@ =~= notification_sub_path(p@));
    }
    if chars_eq_str(&m, "OPTIONS") {
        NotificationRoute { endpoint: NotificationEndpoint::Preflight, id: None }
    } else if sub.len() == 0 || chars_eq_str(&sub, "/") {
        NotificationRoute { endpoint: NotificationEndpoint::List, id: None }
    } else if chars_eq_str(&sub, "/client-trust") {
        NotificationRoute { endpoint: NotificationEndpoint::ClientTrust, id: None }
    } else if chars_eq_str(&sub, "/mark-all-read") {
        NotificationRoute { endpoint: NotificationEndpoint::MarkAllRead, id: None }
    } else if chars_eq_str(&sub, "/unread-count") {
        NotificationRoute { endpoint: NotificationEndpoint::UnreadCount, id: None }
    } else if starts_with_str(&sub, "/status/") {
        let idv = slice_chars(&sub, 8, sub.len());
        proof {
            assert(idv@ =~= sub@.skip(8));
        }
        NotificationRoute { endpoint: NotificationEndpoint::UpdateStatus, id: Some(string_from_chars(&idv)) }
    } else {
        NotificationRoute { endpoint: NotificationEndpoint::NotFound, id: None }
    }
}

/// The value of the first query piece whose key, trimmed, is `key` (empty
/// when the piece has no `=`).
pub open spec fn text_param(pieces: Seq<Seq<char>>, key: Seq<char>) -> Option<Seq<char>>
    decreases pieces.len(),
{
    if pieces.len() == 0 {
        None
    } else if trim(piece_kv(pieces[0]).0) == key {
        Some(piece_kv(pieces[0]).1)
    } else {
        text_param(pieces.drop_first(), key)
    }
}

/// A query parameter of the notification API (`None` without a query).
pub fn parse_query_param(query: Option<&str>, key: &str) -> (r: Option<String>)
    ensures
        match query {
            Some(q) => match text_param(split(q@, '&'), key@) {
                Some(v) => (r matches Some(s) && s@ == v),
                None => r is None,
            },
            None => r is None,
        },
{
    let q = match query {
        Some(q) => q,
        None => { return None; },
    };
    let qc = str_chars(q);
    let kc = str_chars(key);
    let pieces = split_chars(&qc, '&');
    let ghost ps = split(q@, '&');
    proof {
        assert(ps.skip(0) =~= ps);
    }
    let mut i: usize = 0;
    while i < pieces.len()
        invariant
            i <= pieces@.len(),
            pieces@.len() == ps.len(),
            forall|k: int| 0 <= k < pieces@.len() ==> #[trigger] pieces@[k]@ == ps[k],
            text_param(ps, key@) == text_param(ps.skip(i as int), key@),
            ps == split(q@, '&'),
            kc@ == key@,
            query matches Some(x) && x@ == q@,
        decreases pieces@.len() - i,
    {
        proof {
            assert(ps.skip(i as int)[0] == ps[i as int]);
            assert(ps.skip(i as int).drop_first() =~= ps.skip(i + 1));
            assert(pieces@[i as int]@ == ps[i as int]);
        }
        let (k, v) = piece_kv_exec(&pieces[i]);
        let kt = trim_chars(&k);
        if chars_eq(&kt, &kc) {
            proof {
                assert(trim(piece_kv(ps.skip(i as int)[0]).0) == key@);
            }
            return Some(string_from_chars(&v));
        }
        i = i + 1;
    }
    proof {
        assert(ps.skip(i as int) =~= Seq::<Seq<char>>::empty());
    }
    None
}


/// The identifier of the notification whose status a request changes: the
/// path segment read as a signed decimal number; `None` answers with "Invalid
/// notification ID".
pub fn notification_id(id: &str) -> (r: Option<i64>)
    ensures
        match parse_i64_spec(id@) {
            Some(n) => r == Some(n as i64),
            None => r is None,
        },
{
    let c = str_chars(id);
    parse_i64_chars(&c)
}

} // verus!

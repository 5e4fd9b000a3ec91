//! Group rules synchronised from a remote account: safe directory names for
//! groups, and the virtual user that stands for a group.
use vstd::prelude::*;
use crate::text::{
    str_chars, chars_eq, chars_eq_str, string_from_chars, starts_with, starts_with_str, ends_with,
    ends_with_chars, slice_chars, split, split_chars, trim, trim_chars, strings_view, strings_contain,
    push_str, to_owned_string,
};
use crate::ws_handshake::{join, join_exec};
use crate::codec::{percent_decoded, url_decode};

verus! {

/// A character that may not stand in a directory name becomes `_`.
pub open spec fn dir_safe_char(c: char) -> char {
    if c == '/' || c == '\\' || c == '\0' || c == ':' {
        '_'
    } else {
        c
    }
}

/// A group name made safe as a directory name.
pub open spec fn dir_safe(name: Seq<char>) -> Seq<char> {
    name.map_values(|c: char| dir_safe_char(c))
}

/// Replaces `/`, `\`, NUL and `:` in a group name by `_`.
pub fn sanitize_group_dir_name(name: &str) -> (r: String)
    ensures
        r@ == dir_safe(name@),
{
    let c = str_chars(name);
    let mut out: Vec<char> = Vec::new();
    let mut i: usize = 0;
    while i < c.len()
        invariant
            i <= c@.len(),
            c@ == name@,
            out@ == dir_safe(c@.take(i as int)),
        decreases c@.len() - i,
    {
        let ch = c[i];
        out.push(if ch == '/' || ch == '\\' || ch == '\0' || ch == ':' { '_' } else { ch });
        proof {
            assert(dir_safe(c@.take(i + 1)) =~= dir_safe(c@.take(i as int)).push(dir_safe_char(ch)));
        }
        i = i + 1;
    }
    proof {
        assert(c@.take(i as int) =~= c@);
    }
    string_from_chars(&out)
}

/// A peer of the remote account.
#[derive(Debug, Clone)]
pub struct RemotePeer {
    pub user_id: String,
    pub channel: i32,
    pub group_id: Option<String>,
    pub editable: Option<bool>,
}

/// The channel number of the virtual users that stand for groups.
pub const GROUP_CHANNEL: i32 = 3;

/// A peer is the virtual user of group `gid`.
pub open spec fn is_group_user(p: RemotePeer, gid: Seq<char>) -> bool {
    p.channel == GROUP_CHANNEL && (p.group_id matches Some(g) && g@ == gid)
}

/// The virtual user of a group: the first peer on the group channel whose
/// group is `group_id`.
pub fn find_virtual_user_for_group<'a>(peers: &'a [RemotePeer], group_id: &str) -> (r: Option<&'a RemotePeer>)
    ensures
        match r {
            Some(p) => exists|i: int| 0 <= i < peers@.len() && peers@[i] == *p && is_group_user(*p, group_id@)
                && forall|j: int| 0 <= j < i ==> !is_group_user(#[trigger] peers@[j], group_id@),
            None => forall|j: int| 0 <= j < peers@.len() ==> !is_group_user(#[trigger] peers@[j], group_id@),
        },
{
    let g = str_chars(group_id);
    let mut i: usize = 0;
    while i < peers.len()
        invariant
            i <= peers@.len(),
            g@ == group_id@,
            forall|j: int| 0 <= j < i ==> !is_group_user(#[trigger] peers@[j], group_id@),
        decreases peers@.len() - i,
    {
        let p = &peers[i];
        if p.channel == GROUP_CHANNEL {
            match &p.group_id {
                Some(pg) => {
                    let pc = str_chars(pg.as_str());
                    if chars_eq(&pc, &g) {
                        proof {
                            assert(peers@[i as int] == *p && is_group_user(*p, group_id@));
                        }
                        return Some(p);
                    }
                },
                None => {},
            }
        }
        i = i + 1;
    }
    None
}

// ---------------------------------------------------------------------------
// The group rules API
// ---------------------------------------------------------------------------

/// The operations of the group rules API.
#[derive(Debug, Clone, Copy, PartialEq, Eq, Structural)]
pub enum GroupRulesAction {
    MissingGroup,
    List,
    Get,
    Create,
    Update,
    Delete,
    Enable,
    Disable,
    MethodNotAllowed,
}

/// An operation of the group rules API, with its group and rule.
pub struct GroupRulesRoute {
    pub action: GroupRulesAction,
    pub group_id: Option<String>,
    pub rule_name: Option<String>,
}

/// `s` without its leading slashes.
pub open spec fn drop_leading_slashes(s: Seq<char>) -> Seq<char>
    decreases s.len(),
{
    if s.len() > 0 && s[0] == '/' {
        drop_leading_slashes(s.drop_first())
    } else {
        s
    }
}

/// The non-empty pieces, in order.
pub open spec fn nonempty_parts(ps: Seq<Seq<char>>) -> Seq<Seq<char>>
    decreases ps.len(),
{
    if ps.len() == 0 {
        ps
    } else if ps.last().len() > 0 {
        nonempty_parts(ps.drop_last()).push(ps.last())
    } else {
        nonempty_parts(ps.drop_last())
    }
}

/// The path segments below `/api/group-rules`.
pub open spec fn group_rules_parts(path: Seq<char>) -> Seq<Seq<char>> {
    let sub = if starts_with(path, "/api/group-rules"@) { path.skip(16) } else { Seq::empty() };
    nonempty_parts(split(drop_leading_slashes(sub), '/'))
}

/// A segment, percent-decoded when it decodes.
pub open spec fn decoded_or_raw(seg: Seq<char>) -> Seq<char> {
    match percent_decoded(seg) {
        Some(d) => d,
        None => seg,
    }
}

/// An operation that names no rule.
pub open spec fn group_op(a: GroupRulesAction, g: Seq<char>) -> (GroupRulesAction, Option<Seq<char>>, Option<Seq<char>>) {
    (a, Some(g), None)
}

/// A refused method.
pub open spec fn not_allowed() -> (GroupRulesAction, Option<Seq<char>>, Option<Seq<char>>) {
    (GroupRulesAction::MethodNotAllowed, None, None)
}

/// The operation of a request below `/api/group-rules`: the first segment
/// is the group, the rest (joined, decoded) the rule; a rule ending in
/// `/enable` or `/disable` is switched with PUT.
pub open spec fn group_rules_route_spec(path: Seq<char>, method: Seq<char>) -> (GroupRulesAction, Option<Seq<char>>, Option<Seq<char>>) {
    let parts = group_rules_parts(path);
    if parts.len() == 0 {
        (GroupRulesAction::MissingGroup, None, None)
    } else {
        let g = parts[0];
        if parts.len() > 1 {
            let d = decoded_or_raw(join(parts.skip(1), "/"@));
            if ends_with(d, "/enable"@) {
                if method == "PUT"@ { (GroupRulesAction::Enable, Some(g), Some(d.take(d.len() - 7))) } else { not_allowed() }
            } else if ends_with(d, "/disable"@) {
                if method == "PUT"@ { (GroupRulesAction::Disable, Some(g), Some(d.take(d.len() - 8))) } else { not_allowed() }
            } else if method == "GET"@ {
                (GroupRulesAction::Get, Some(g), Some(d))
            } else if method == "POST"@ {
                group_op(GroupRulesAction::Create, g)
            } else if method == "PUT"@ {
                (GroupRulesAction::Update, Some(g), Some(d))
            } else if method == "DELETE"@ {
                (GroupRulesAction::Delete, Some(g), Some(d))
            } else {
                not_allowed()
            }
        } else if method == "GET"@ {
            group_op(GroupRulesAction::List, g)
        } else if method == "POST"@ {
            group_op(GroupRulesAction::Create, g)
        } else {
            not_allowed()
        }
    }
}

/// The view of a route.
pub open spec fn group_rules_route_view(r: GroupRulesRoute) -> (GroupRulesAction, Option<Seq<char>>, Option<Seq<char>>) {
    (
        r.action,
        match r.group_id {
            Some(g) => Some(g@),
            None => None,
        },
        match r.rule_name {
            Some(n) => Some(n@),
            None => None,
        },
    )
}

/// The views of a list of character vectors.
pub open spec fn chars_view(v: Seq<Vec<char>>) -> Seq<Seq<char>> {
    v.map_values(|p: Vec<char>| p@)
}

/// Drops leading slashes.
fn drop_leading_slashes_exec(v: &[char]) -> (r: Vec<char>)
    ensures
        r@ == drop_leading_slashes(v@),
{
    let mut i: usize = 0;
    proof {
        assert(v@.skip(0) =~= v@);
    }
    while i < v.len() && v[i] == '/'
        invariant
            i <= v@.len(),
            drop_leading_slashes(v@) == drop_leading_slashes(v@.skip(i as int)),
        decreases v@.len() - i,
    {
        proof {
            assert(v@.skip(i as int).drop_first() =~= v@.skip(i + 1));
        }
        i = i + 1;
    }
    let r = slice_chars(v, i, v.len());
    proof {
        assert(r@ =~= v@.skip(i as int));
    }
    r
}

/// Keeps the non-empty pieces.
fn nonempty_parts_exec(ps: Vec<Vec<char>>) -> (r: Vec<Vec<char>>)
    ensures
        chars_view(r@) == nonempty_parts(chars_view(ps@)),
{
    let ghost pv = chars_view(ps@);
    let n = ps.len();
    let mut rest = ps;
    let mut out: Vec<Vec<char>> = Vec::new();
    let mut k: usize = 0;
    proof {
        assert(pv.take(0) =~= Seq::<Seq<char>>::empty());
        assert(chars_view(out@) =~= Seq::<Seq<char>>::empty());
        assert(chars_view(rest@) =~= pv.skip(0));
    }
    while rest.len() > 0
        invariant
            k <= pv.len(),
            k + rest@.len() == pv.len(),
            pv.len() == n,
            chars_view(rest@) == pv.skip(k as int),
            chars_view(out@) == nonempty_parts(pv.take(k as int)),
        decreases rest@.len(),
    {
        let ghost before = rest@;
        let p = rest.remove(0);
        proof {
            assert(chars_view(before)[0] == p@);
            assert(pv[k as int] == p@);
            assert(pv.take(k + 1).drop_last() =~= pv.take(k as int));
            assert(pv.take(k + 1).last() == p@);
            assert forall|j: int| 0 <= j < rest@.len() implies #[trigger] chars_view(rest@)[j] == pv.skip(k + 1)[j] by {
                assert(rest@[j] == before[j + 1]);
                assert(chars_view(before)[j + 1] == pv.skip(k as int)[j + 1]);
            }
            assert(chars_view(rest@) =~= pv.skip(k + 1));
        }
        if p.len() > 0 {
            let ghost ob = out@;
            out.push(p);
            proof {
                assert(chars_view(out@) =~= chars_view(ob).push(pv[k as int]));
            }
        }
        k = k + 1;
    }
    proof {
        assert(pv.take(k as int) =~= pv);
    }
    out
}

/// A segment, percent-decoded when it decodes.
fn decoded_or_raw_exec(seg: &[char]) -> (r: Vec<char>)
    ensures
        r@ == decoded_or_raw(seg@),
{
    let s = string_from_chars(seg);
    match url_decode(s.as_str()) {
        Some(d) => str_chars(d.as_str()),
        None => str_chars(s.as_str()),
    }
}

/// The operation of a request below `/api/group-rules`.
pub fn group_rules_route(path: &str, method: &str) -> (r: GroupRulesRoute)
    ensures
        group_rules_route_view(r) == group_rules_route_spec(path@, method@),
{
    let p = str_chars(path);
    let m = str_chars(method);
    proof {
        reveal_strlit("/api/group-rules");
        reveal_strlit("/enable");
        reveal_strlit("/disable");
    }
    let sub: Vec<char> = if starts_with_str(&p, "/api/group-rules") {
        slice_chars(&p, 16, p.len())
    } else {
        Vec::new()
    };
    proof {
        assert(sub@ =~= (if starts_with(p@, "/api/group-rules"@) { p@.skip(16) } else { Seq::<char>::empty() }));
    }
    let trimmed = drop_leading_slashes_exec(&sub);
    let pieces = split_chars(&trimmed, '/');
    proof {
        assert(chars_view(pieces@) =~= split(trimmed@, '/'));
    }
    let parts = nonempty_parts_exec(pieces);
    let ghost pv = chars_view(parts@);
    proof {
        assert(pv == group_rules_parts(path@));
    }
    if parts.len() == 0 {
        return GroupRulesRoute { action: GroupRulesAction::MissingGroup, group_id: None, rule_name: None };
    }
    let g = string_from_chars(&parts[0]);
    proof {
        assert(g@ == pv[0]);
    }
    let get = chars_eq_str(&m, "GET");
    let post = chars_eq_str(&m, "POST");
    let put = chars_eq_str(&m, "PUT");
    let delete = chars_eq_str(&m, "DELETE");
    if parts.len() > 1 {
        let mut tail: Vec<Vec<char>> = Vec::new();
        let mut i: usize = 1;
        while i < parts.len()
            invariant
                1 <= i <= parts@.len(),
                pv == chars_view(parts@),
                chars_view(tail@) == pv.subrange(1, i as int),
            decreases parts@.len() - i,
        {
            let ghost tb = tail@;
            tail.push(slice_chars(&parts[i], 0, parts[i].len()));
            proof {
                assert(parts@[i as int]@.subrange(0, parts@[i as int]@.len() as int) =~= parts@[i as int]@);
                assert(pv[i as int] == parts@[i as int]@);
                assert(chars_view(tail@) =~= chars_view(tb).push(pv[i as int]));
                assert(pv.subrange(1, i + 1) =~= pv.subrange(1, i as int).push(pv[i as int]));
            }
            i = i + 1;
        }
        proof {
            assert(pv.subrange(1, pv.len() as int) =~= pv.skip(1));
        }
        let slash = str_chars("/");
        let joined = join_exec(&tail, &slash);
        let d = decoded_or_raw_exec(&joined);
        let enable = str_chars("/enable");
        let disable = str_chars("/disable");
        if ends_with_chars(&d, &enable) {
            if put {
                let name = slice_chars(&d, 0, d.len() - 7);
                proof {
                    assert(name@ =~= d@.take(d@.len() - 7));
                }
                return GroupRulesRoute { action: GroupRulesAction::Enable, group_id: Some(g), rule_name: Some(string_from_chars(&name)) };
            }
            return GroupRulesRoute { action: GroupRulesAction::MethodNotAllowed, group_id: None, rule_name: None };
        }
        if ends_with_chars(&d, &disable) {
            if put {
                let name = slice_chars(&d, 0, d.len() - 8);
                proof {
                    assert(name@ =~= d@.take(d@.len() - 8));
                }
                return GroupRulesRoute { action: GroupRulesAction::Disable, group_id: Some(g), rule_name: Some(string_from_chars(&name)) };
            }
            return GroupRulesRoute { action: GroupRulesAction::MethodNotAllowed, group_id: None, rule_name: None };
        }
        let name = string_from_chars(&d);
        if get {
            GroupRulesRoute { action: GroupRulesAction::Get, group_id: Some(g), rule_name: Some(name) }
        } else if post {
            GroupRulesRoute { action: GroupRulesAction::Create, group_id: Some(g), rule_name: None }
        } else if put {
            GroupRulesRoute { action: GroupRulesAction::Update, group_id: Some(g), rule_name: Some(name) }
        } else if delete {
            GroupRulesRoute { action: GroupRulesAction::Delete, group_id: Some(g), rule_name: Some(name) }
        } else {
            GroupRulesRoute { action: GroupRulesAction::MethodNotAllowed, group_id: None, rule_name: None }
        }
    } else if get {
        GroupRulesRoute { action: GroupRulesAction::List, group_id: Some(g), rule_name: None }
    } else if post {
        GroupRulesRoute { action: GroupRulesAction::Create, group_id: Some(g), rule_name: None }
    } else {
        GroupRulesRoute { action: GroupRulesAction::MethodNotAllowed, group_id: None, rule_name: None }
    }
}

/// A line that counts as a rule: not blank and not a `#` comment.
pub open spec fn counts_as_rule(line: Seq<char>) -> bool {
    let t = trim(line);
    t.len() > 0 && t[0] != '#'
}

/// The number of lines that count as rules.
pub open spec fn rule_line_count(lines: Seq<Seq<char>>) -> nat
    decreases lines.len(),
{
    if lines.len() == 0 {
        0
    } else {
        rule_line_count(lines.drop_last()) + if counts_as_rule(lines.last()) { 1nat } else { 0nat }
    }
}

/// The number of rules in a rule file: its lines (cut at `\n`) that are
/// neither blank nor comments.
pub fn count_rule_lines(content: &str) -> (n: usize)
    ensures
        n == rule_line_count(split(content@, '\n')),
{
    let c = str_chars(content);
    let lines = split_chars(&c, '\n');
    let ghost ls = split(content@, '\n');
    let mut n: usize = 0;
    let mut i: usize = 0;
    proof {
        assert(ls.take(0) =~= Seq::<Seq<char>>::empty());
    }
    while i < lines.len()
        invariant
            i <= lines@.len(),
            lines@.len() == ls.len(),
            ls == split(content@, '\n'),
            c@ == content@,
            forall|k: int| 0 <= k < lines@.len() ==> #[trigger] lines@[k]@ == ls[k],
            n == rule_line_count(ls.take(i as int)),
            n <= i,
        decreases lines@.len() - i,
    {
        proof {
            assert(ls.take(i + 1).drop_last() =~= ls.take(i as int));
            assert(ls.take(i + 1).last() == lines@[i as int]@);
        }
        let t = trim_chars(&lines[i]);
        if t.len() > 0 && t[0] != '#' {
            n = n + 1;
        }
        i = i + 1;
    }
    proof {
        assert(ls.take(i as int) =~= ls);
    }
    n
}

/// The local rules that the remote account no longer has, in order.
pub open spec fn stale_names(existing: Seq<Seq<char>>, remote: Seq<Seq<char>>) -> Seq<Seq<char>>
    decreases existing.len(),
{
    if existing.len() == 0 {
        existing
    } else if remote.contains(existing.last()) {
        stale_names(existing.drop_last(), remote)
    } else {
        stale_names(existing.drop_last(), remote).push(existing.last())
    }
}

/// The local rules to delete after syncing: those the remote account no
/// longer has.
pub fn stale_rule_names(existing: &Vec<String>, remote: &Vec<String>) -> (r: Vec<String>)
    ensures
        strings_view(r@) == stale_names(strings_view(existing@), strings_view(remote@)),
{
    let ghost ev = strings_view(existing@);
    let ghost rv = strings_view(remote@);
    let mut out: Vec<String> = Vec::new();
    let mut i: usize = 0;
    proof {
        assert(ev.take(0) =~= Seq::<Seq<char>>::empty());
        assert(strings_view(out@) =~= Seq::<Seq<char>>::empty());
    }
    while i < existing.len()
        invariant
            i <= existing@.len(),
            ev == strings_view(existing@),
            rv == strings_view(remote@),
            strings_view(out@) == stale_names(ev.take(i as int), rv),
        decreases existing@.len() - i,
    {
        proof {
            assert(ev.take(i + 1).drop_last() =~= ev.take(i as int));
            assert(ev.take(i + 1).last() == existing@[i as int]@);
        }
        if !strings_contain(remote, existing[i].as_str()) {
            let ghost ob = out@;
            out.push(existing[i].clone());
            proof {
                assert(strings_view(out@) =~= strings_view(ob).push(existing@[i as int]@));
            }
        }
        i = i + 1;
    }
    proof {
        assert(ev.take(i as int) =~= ev);
    }
    out
}

/// A refused change of group rules: HTTP status and message.
pub struct GroupRefusal {
    pub status: u16,
    pub message: &'static str,
}

/// Whether the group's rules may be changed: its virtual user is editable.
pub fn group_writable(virtual_user: Option<&RemotePeer>) -> (b: bool)
    ensures
        b == (virtual_user matches Some(p) && p.editable == Some(true)),
{
    match virtual_user {
        Some(p) => match p.editable {
            Some(e) => e,
            None => false,
        },
        None => false,
    }
}

/// Rules are created as the group's virtual user, which must exist (else
/// 400) and be editable (else 403); the user id to create them as.
pub fn group_write_check(virtual_user: Option<&RemotePeer>) -> (r: Result<String, GroupRefusal>)
    ensures
        match r {
            Ok(uid) => virtual_user matches Some(p) && p.editable == Some(true) && uid@ == p.user_id@,
            Err(e) => match virtual_user {
                None => e.status == 400 && e.message@ == "No virtual user found for this group"@,
                Some(p) => p.editable != Some(true) && e.status == 403 && e.message@ == "No write permission for this group"@,
            },
        },
{
    match virtual_user {
        None => Err(GroupRefusal { status: 400, message: "No virtual user found for this group" }),
        Some(p) => {
            if group_writable(Some(p)) {
                Ok(p.user_id.clone())
            } else {
                Err(GroupRefusal { status: 403, message: "No write permission for this group" })
            }
        },
    }
}

/// What switching a rule on or off is answered.
pub fn rule_toggle_message(rule_name: &str, enabled: bool) -> (m: String)
    ensures
        m@ == "Rule '"@ + rule_name@ + "' "@ + (if enabled { "enabled"@ } else { "disabled"@ }) + " successfully"@,
{
    let mut m = to_owned_string("Rule '");
    push_str(&mut m, rule_name);
    push_str(&mut m, "' ");
    push_str(&mut m, if enabled { "enabled" } else { "disabled" });
    push_str(&mut m, " successfully");
    m
}

} // verus!

//! The rules API: which operation a request asks for, the checks and
//! defaults of creating, updating and renaming a rule file, and the
//! warnings for scripts that rules name but that do not exist.
use vstd::prelude::*;
use crate::text::{str_chars, chars_eq_str, starts_with, starts_with_str, ends_with, ends_with_chars, slice_chars, string_from_chars, contains, contains_str, push_str, to_owned_string, strings_view, strings_contain};
use crate::codec::{percent_decoded, url_decode};
use crate::ws_handshake::{join, join_exec};

verus! {

/// The operations of the rules API.
#[derive(Debug, Clone, Copy, PartialEq, Eq, Structural)]
pub enum RulesAction {
    List,
    Create,
    Reorder,
    Validate,
    Get,
    Update,
    Delete,
    Enable,
    Disable,
    Rename,
    MethodNotAllowed,
    NotFound,
}

/// An operation of the rules API, with the rule it names.
pub struct RulesRoute {
    pub action: RulesAction,
    pub name: Option<String>,
}

/// A rule name from the path: percent-decoded, empty when it does not decode.
pub open spec fn decoded_name(seg: Seq<char>) -> Seq<char> {
    match percent_decoded(seg) {
        Some(d) => d,
        None => Seq::empty(),
    }
}

/// An operation on a named rule, for the one method that allows it.
pub open spec fn named(method: Seq<char>, allowed: Seq<char>, a: RulesAction, name: Seq<char>) -> (RulesAction, Option<Seq<char>>) {
    if method == allowed {
        (a, Some(name))
    } else {
        (RulesAction::MethodNotAllowed, None)
    }
}

/// An operation on no rule, for the one method that allows it.
pub open spec fn unnamed(method: Seq<char>, allowed: Seq<char>, a: RulesAction) -> (RulesAction, Option<Seq<char>>) {
    if method == allowed {
        (a, None)
    } else {
        (RulesAction::MethodNotAllowed, None)
    }
}

/// The operation of a request below `/api/rules`, by path and method.
pub open spec fn rules_route_spec(path: Seq<char>, method: Seq<char>) -> (RulesAction, Option<Seq<char>>) {
    if path == "/api/rules"@ || path == "/api/rules/"@ {
        if method == "GET"@ {
            (RulesAction::List, None)
        } else {
            unnamed(method, "POST"@, RulesAction::Create)
        }
    } else if path == "/api/rules/reorder"@ {
        unnamed(method, "PUT"@, RulesAction::Reorder)
    } else if path == "/api/rules/validate"@ {
        unnamed(method, "POST"@, RulesAction::Validate)
    } else if starts_with(path, "/api/rules/"@) {
        let n = decoded_name(path.skip(11));
        if ends_with(n, "/enable"@) {
            named(method, "PUT"@, RulesAction::Enable, n.take(n.len() - 7))
        } else if ends_with(n, "/disable"@) {
            named(method, "PUT"@, RulesAction::Disable, n.take(n.len() - 8))
        } else if ends_with(n, "/rename"@) {
            named(method, "PUT"@, RulesAction::Rename, n.take(n.len() - 7))
        } else if method == "GET"@ {
            (RulesAction::Get, Some(n))
        } else if method == "PUT"@ {
            (RulesAction::Update, Some(n))
        } else {
            named(method, "DELETE"@, RulesAction::Delete, n)
        }
    } else {
        (RulesAction::NotFound, None)
    }
}

/// The view of a route.
pub open spec fn rules_route_view(r: RulesRoute) -> (RulesAction, Option<Seq<char>>) {
    (r.action, match r.name {
        Some(n) => Some(n@),
        None => None,
    })
}

/// The route of an operation on a named rule.
fn named_route(m: &[char], allowed: &str, a: RulesAction, name: String) -> (r: RulesRoute)
    ensures
        rules_route_view(r) == named(m@, allowed@, a, name@),
{
    if chars_eq_str(m, allowed) {
        RulesRoute { action: a, name: Some(name) }
    } else {
        RulesRoute { action: RulesAction::MethodNotAllowed, name: None }
    }
}

/// The route of an operation on no rule.
fn unnamed_route(m: &[char], allowed: &str, a: RulesAction) -> (r: RulesRoute)
    ensures
        rules_route_view(r) == unnamed(m@, allowed@, a),
{
    if chars_eq_str(m, allowed) {
        RulesRoute { action: a, name: None }
    } else {
        RulesRoute { action: RulesAction::MethodNotAllowed, name: None }
    }
}

/// The name without the last `k` characters.
fn without_suffix(n: &[char], k: usize) -> (r: String)
    requires
        k <= n@.len(),
    ensures
        r@ == n@.take(n@.len() - k),
{
    let v = slice_chars(n, 0, n.len() - k);
    proof {
        assert(v@ =~= n@.take(n@.len() - k));
    }
    string_from_chars(&v)
}

/// The operation of a request below `/api/rules`.
pub fn rules_route(path: &str, method: &str) -> (r: RulesRoute)
    ensures
        rules_route_view(r) == rules_route_spec(path@, method@),
{
    let p = str_chars(path);
    let m = str_chars(method);
    proof {
        reveal_strlit("/api/rules/");
        reveal_strlit("/enable");
        reveal_strlit("/disable");
        reveal_strlit("/rename");
    }
    if chars_eq_str(&p, "/api/rules") || chars_eq_str(&p, "/api/rules/") {
        if chars_eq_str(&m, "GET") {
            RulesRoute { action: RulesAction::List, name: None }
        } else {
            unnamed_route(&m, "POST", RulesAction::Create)
        }
    } else if chars_eq_str(&p, "/api/rules/reorder") {
        unnamed_route(&m, "PUT", RulesAction::Reorder)
    } else if chars_eq_str(&p, "/api/rules/validate") {
        unnamed_route(&m, "POST", RulesAction::Validate)
    } else if starts_with_str(&p, "/api/rules/") {
        let seg = slice_chars(&p, 11, p.len());
        proof {
            assert(seg@ =~= p@.skip(11));
        }
        let seg_s = string_from_chars(&seg);
        let n: Vec<char> = match url_decode(seg_s.as_str()) {
            Some(d) => str_chars(d.as_str()),
            None => Vec::new(),
        };
        proof {
            assert(n@ =~= decoded_name(p@.skip(11)));
        }
        let enable = str_chars("/enable");
        let disable = str_chars("/disable");
        let rename = str_chars("/rename");
        if ends_with_chars(&n, &enable) {
            named_route(&m, "PUT", RulesAction::Enable, without_suffix(&n, 7))
        } else if ends_with_chars(&n, &disable) {
            named_route(&m, "PUT", RulesAction::Disable, without_suffix(&n, 8))
        } else if ends_with_chars(&n, &rename) {
            named_route(&m, "PUT", RulesAction::Rename, without_suffix(&n, 7))
        } else if chars_eq_str(&m, "GET") {
            RulesRoute { action: RulesAction::Get, name: Some(string_from_chars(&n)) }
        } else if chars_eq_str(&m, "PUT") {
            RulesRoute { action: RulesAction::Update, name: Some(string_from_chars(&n)) }
        } else {
            named_route(&m, "DELETE", RulesAction::Delete, string_from_chars(&n))
        }
    } else {
        RulesRoute { action: RulesAction::NotFound, name: None }
    }
}

// ---------------------------------------------------------------------------
// Creating, updating and renaming
// ---------------------------------------------------------------------------

/// A refused rule operation: HTTP status and message.
pub struct RuleRefusal {
    pub status: u16,
    pub message: String,
}

/// A new rule needs a name (else 400) that no rule has yet (else 409).
pub fn create_rule_check(name: &str, exists: bool) -> (r: Result<(), RuleRefusal>)
    ensures
        match r {
            Ok(_) => name@.len() > 0 && !exists,
            Err(e) => if name@.len() == 0 {
                e.status == 400 && e.message@ == "Rule name is required"@
            } else {
                exists && e.status == 409 && e.message@ == "Rule with this name already exists"@
            },
        },
{
    if name.is_empty() {
        return Err(RuleRefusal { status: 400, message: to_owned_string("Rule name is required") });
    }
    if exists {
        return Err(RuleRefusal { status: 409, message: to_owned_string("Rule with this name already exists") });
    }
    Ok(())
}

/// The smallest of the sort orders.
pub open spec fn min_order(orders: Seq<i32>) -> Option<i32>
    decreases orders.len(),
{
    if orders.len() == 0 {
        None
    } else {
        match min_order(orders.drop_last()) {
            Some(m) => Some(if orders.last() < m { orders.last() } else { m }),
            None => Some(orders.last()),
        }
    }
}

/// The sort order of a new rule: one before the first rule (so it comes
/// first; the subtraction wraps as release builds do), or 0 when there is
/// none.
pub open spec fn new_rule_order_spec(orders: Seq<i32>) -> i32 {
    match min_order(orders) {
        Some(m) => if m == i32::MIN { i32::MAX } else { (m - 1) as i32 },
        None => 0,
    }
}

/// The sort order of a new rule.
pub fn new_rule_sort_order(orders: &Vec<i32>) -> (o: i32)
    ensures
        o == new_rule_order_spec(orders@),
{
    let mut m: Option<i32> = None;
    let mut i: usize = 0;
    proof {
        assert(orders@.take(0) =~= Seq::<i32>::empty());
    }
    while i < orders.len()
        invariant
            i <= orders@.len(),
            m == min_order(orders@.take(i as int)),
        decreases orders@.len() - i,
    {
        proof {
            assert(orders@.take(i + 1).drop_last() =~= orders@.take(i as int));
        }
        let x = orders[i];
        m = match m {
            Some(cur) => Some(if x < cur { x } else { cur }),
            None => Some(x),
        };
        i = i + 1;
    }
    proof {
        assert(orders@.take(i as int) =~= orders@);
    }
    match m {
        Some(v) => v.wrapping_sub(1),
        None => 0,
    }
}

/// A new rule is enabled unless the request says otherwise.
pub fn new_rule_enabled(requested: Option<bool>) -> (b: bool)
    ensures
        b == (match requested {
            Some(x) => x,
            None => true,
        }),
{
    match requested {
        Some(x) => x,
        None => true,
    }
}

/// An update keeps what it does not give.
pub fn updated_rule_fields(content: Option<String>, enabled: Option<bool>, old_content: String, old_enabled: bool) -> (r: (String, bool))
    ensures
        r.0@ == (match content {
            Some(c) => c@,
            None => old_content@,
        }),
        r.1 == (match enabled {
            Some(e) => e,
            None => old_enabled,
        }),
{
    let c = match content {
        Some(c) => c,
        None => old_content,
    };
    let e = match enabled {
        Some(e) => e,
        None => old_enabled,
    };
    (c, e)
}

/// A rename needs a new name (else 400) that differs from the old one
/// (else 400).
pub fn rename_check(old_name: &str, new_name: &str) -> (r: Result<(), RuleRefusal>)
    ensures
        match r {
            Ok(_) => new_name@.len() > 0 && new_name@ != old_name@,
            Err(e) => e.status == 400 && if new_name@.len() == 0 {
                e.message@ == "New rule name is required"@
            } else {
                new_name@ == old_name@ && e.message@ == "New name is the same as the old name"@
            },
        },
{
    if new_name.is_empty() {
        return Err(RuleRefusal { status: 400, message: to_owned_string("New rule name is required") });
    }
    let a = str_chars(new_name);
    if chars_eq_str(&a, old_name) {
        return Err(RuleRefusal { status: 400, message: to_owned_string("New name is the same as the old name") });
    }
    Ok(())
}

/// The status of a failed rename, by the storage's error text: 409 for a
/// name that exists already, 404 for a rule that is gone, 500 otherwise.
pub fn rename_failure_status(error: &str) -> (s: u16)
    ensures
        s == (if contains(error@, "already exists"@) {
            409u16
        } else if contains(error@, "not found"@) {
            404u16
        } else {
            500u16
        }),
{
    let e = str_chars(error);
    if contains_str(&e, "already exists") {
        409
    } else if contains_str(&e, "not found") {
        404
    } else {
        500
    }
}

/// What a successful operation on a rule is answered; `verb` is what was
/// done (`created`, `updated`, `deleted`).
pub fn rule_done_message(name: &str, verb: &str) -> (m: String)
    ensures
        m@ == "Rule '"@ + name@ + "' "@ + verb@ + " successfully"@,
{
    let mut m = to_owned_string("Rule '");
    push_str(&mut m, name);
    push_str(&mut m, "' ");
    push_str(&mut m, verb);
    push_str(&mut m, " successfully");
    m
}

/// What a successful rename is answered.
pub fn rule_renamed_message(name: &str, new_name: &str) -> (m: String)
    ensures
        m@ == "Rule '"@ + name@ + "' renamed to '"@ + new_name@ + "' successfully"@,
{
    let mut m = to_owned_string("Rule '");
    push_str(&mut m, name);
    push_str(&mut m, "' renamed to '");
    push_str(&mut m, new_name);
    push_str(&mut m, "' successfully");
    m
}

/// What a missing rule is answered (with 404).
pub fn rule_not_found_message(name: &str) -> (m: String)
    ensures
        m@ == "Rule '"@ + name@ + "' not found"@,
{
    let mut m = to_owned_string("Rule '");
    push_str(&mut m, name);
    push_str(&mut m, "' not found");
    m
}

// ---------------------------------------------------------------------------
// Scripts that rules name
// ---------------------------------------------------------------------------

/// A script that a rule names, at a line of the rule text.
pub struct ScriptReference {
    pub name: String,
    pub script_type: String,
    pub line: usize,
}

/// A warning about a rule: where it is (line and columns), what it says,
/// its code, and what to do about it.
pub struct RuleWarning {
    pub line: usize,
    pub start_column: usize,
    pub end_column: usize,
    pub message: String,
    pub code: &'static str,
    pub suggestion: String,
}

/// The names of the available scripts, joined by `, `; `(none)` when there
/// are none.
pub open spec fn available_list(names: Seq<Seq<char>>) -> Seq<char> {
    if names.len() == 0 {
        "(none)"@
    } else {
        join(names, ", "@)
    }
}

/// The warning for a script that does not exist.
pub open spec fn missing_script_message(name: Seq<char>, ty: Seq<char>, available: Seq<Seq<char>>) -> Seq<char> {
    "Script '"@ + name + "' not found. Available "@ + ty + " scripts: "@ + available_list(available)
}

/// What to do about a script that does not exist.
pub open spec fn missing_script_suggestion(name: Seq<char>, ty: Seq<char>) -> Seq<char> {
    "Create a "@ + ty + " script named '"@ + name + "' in the scripts directory, or use an existing script."@
}

/// The scripts a reference is looked up among: the request scripts for a
/// `request` reference, the response scripts for any other.
pub open spec fn scripts_for(ty: Seq<char>, request: Seq<Seq<char>>, response: Seq<Seq<char>>) -> Seq<Seq<char>> {
    if ty == "request"@ {
        request
    } else {
        response
    }
}

/// The end column of a warning about a name of `n` bytes: `n + 15` (a
/// string is never long enough for this to pass `usize::MAX`; it would
/// stop there).
pub open spec fn end_column_of(n: usize) -> usize {
    if n <= usize::MAX - 15 {
        (n + 15) as usize
    } else {
        usize::MAX
    }
}

/// The warnings for the references whose script does not exist, in order
/// (as line, end column, message and suggestion; every warning starts at
/// column 1 and has code `W003`).
pub open spec fn script_warnings_spec(refs: Seq<(Seq<char>, Seq<char>, usize, usize)>, request: Seq<Seq<char>>, response: Seq<Seq<char>>) -> Seq<(usize, usize, Seq<char>, Seq<char>)>
    decreases refs.len(),
{
    if refs.len() == 0 {
        Seq::empty()
    } else {
        let prev = script_warnings_spec(refs.drop_last(), request, response);
        let (name, ty, line, name_bytes) = refs.last();
        let available = scripts_for(ty, request, response);
        if available.contains(name) {
            prev
        } else {
            prev.push((line, end_column_of(name_bytes), missing_script_message(name, ty, available), missing_script_suggestion(name, ty)))
        }
    }
}

/// The view of a reference: name, type, line, and the name's length in
/// bytes (as `str::len` gives it).
pub open spec fn reference_view(r: ScriptReference) -> (Seq<char>, Seq<char>, usize, usize) {
    (r.name@, r.script_type@, r.line, vstd::utf8::encode_utf8(r.name@).len() as usize)
}

/// The view of a warning.
pub open spec fn warning_view(w: RuleWarning) -> (usize, usize, Seq<char>, Seq<char>) {
    (w.line, w.end_column, w.message@, w.suggestion@)
}

/// The views of the references.
pub open spec fn references_view(rs: Seq<ScriptReference>) -> Seq<(Seq<char>, Seq<char>, usize, usize)> {
    rs.map_values(|r: ScriptReference| reference_view(r))
}

/// The views of the warnings.
pub open spec fn warnings_view(ws: Seq<RuleWarning>) -> Seq<(usize, usize, Seq<char>, Seq<char>)> {
    ws.map_values(|w: RuleWarning| warning_view(w))
}

/// The text listing the available scripts.
fn available_text(names: &Vec<String>) -> (r: String)
    ensures
        r@ == available_list(strings_view(names@)),
{
    if names.len() == 0 {
        return to_owned_string("(none)");
    }
    let mut parts: Vec<Vec<char>> = Vec::new();
    let mut i: usize = 0;
    while i < names.len()
        invariant
            i <= names@.len(),
            parts@.map_values(|p: Vec<char>| p@) == strings_view(names@).take(i as int),
        decreases names@.len() - i,
    {
        let ghost pb = parts@;
        parts.push(str_chars(names[i].as_str()));
        proof {
            assert(parts@.map_values(|p: Vec<char>| p@) =~= pb.map_values(|p: Vec<char>| p@).push(names@[i as int]@));
            assert(strings_view(names@).take(i + 1) =~= strings_view(names@).take(i as int).push(names@[i as int]@));
        }
        i = i + 1;
    }
    proof {
        assert(strings_view(names@).take(i as int) =~= strings_view(names@));
    }
    let sep = str_chars(", ");
    let joined = join_exec(&parts, &sep);
    string_from_chars(&joined)
}

/// The warnings for scripts that rules name but that are not among the
/// available request or response scripts.
pub fn script_reference_warnings(refs: &Vec<ScriptReference>, request_scripts: &Vec<String>, response_scripts: &Vec<String>) -> (ws: Vec<RuleWarning>)
    ensures
        warnings_view(ws@) == script_warnings_spec(references_view(refs@), strings_view(request_scripts@), strings_view(response_scripts@)),
        forall|i: int| 0 <= i < ws@.len() ==> (#[trigger] ws@[i]).start_column == 1 && ws@[i].code@ == "W003"@,
{
    let ghost rv = references_view(refs@);
    let ghost req = strings_view(request_scripts@);
    let ghost res = strings_view(response_scripts@);
    let mut out: Vec<RuleWarning> = Vec::new();
    let mut i: usize = 0;
    proof {
        assert(rv.take(0) =~= Seq::<(Seq<char>, Seq<char>, usize, usize)>::empty());
        assert(warnings_view(out@) =~= Seq::<(usize, usize, Seq<char>, Seq<char>)>::empty());
    }
    while i < refs.len()
        invariant
            i <= refs@.len(),
            rv == references_view(refs@),
            req == strings_view(request_scripts@),
            res == strings_view(response_scripts@),
            warnings_view(out@) == script_warnings_spec(rv.take(i as int), req, res),
            forall|k: int| 0 <= k < out@.len() ==> (#[trigger] out@[k]).start_column == 1 && out@[k].code@ == "W003"@,
        decreases refs@.len() - i,
    {
        proof {
            assert(rv.take(i + 1).drop_last() =~= rv.take(i as int));
            assert(rv.take(i + 1).last() == reference_view(refs@[i as int]));
        }
        let r = &refs[i];
        let ty = str_chars(r.script_type.as_str());
        let is_request = chars_eq_str(&ty, "request");
        let scripts = if is_request { request_scripts } else { response_scripts };
        if !strings_contain(scripts, r.name.as_str()) {
            let mut message = to_owned_string("Script '");
            push_str(&mut message, r.name.as_str());
            push_str(&mut message, "' not found. Available ");
            push_str(&mut message, r.script_type.as_str());
            push_str(&mut message, " scripts: ");
            let list = available_text(scripts);
            push_str(&mut message, list.as_str());
            let mut suggestion = to_owned_string("Create a ");
            push_str(&mut suggestion, r.script_type.as_str());
            push_str(&mut suggestion, " script named '");
            push_str(&mut suggestion, r.name.as_str());
            push_str(&mut suggestion, "' in the scripts directory, or use an existing script.");
            let name_len = r.name.as_str().len();
            let end_column = if name_len <= usize::MAX - 15 { name_len + 15 } else { usize::MAX };
            let ghost ob = out@;
            out.push(RuleWarning { line: r.line, start_column: 1, end_column, message, code: "W003", suggestion });
            proof {
                assert(warnings_view(out@) =~= warnings_view(ob).push(warning_view(out@.last())));
            }
        }
        i = i + 1;
    }
    proof {
        assert(rv.take(i as int) =~= rv);
    }
    out
}

} // verus!

//! The scripts API: which operation a request asks for, and the script
//! type and name a path names.
use vstd::prelude::*;
use crate::text::{
    str_chars, chars_eq_str, starts_with, starts_with_str, slice_chars, string_from_chars, index_of,
    index_of_exec, push_str, to_owned_string,
};

verus! {

/// The two kinds of scripts.
#[derive(Debug, Clone, Copy, PartialEq, Eq, Structural)]
pub enum ScriptKind {
    Request,
    Response,
}

/// A refused scripts request: HTTP status and message.
pub struct ScriptRefusal {
    pub status: u16,
    pub message: &'static str,
}

/// `s` without every leading copy of `prefix`.
pub open spec fn trim_prefix_repeated(s: Seq<char>, prefix: Seq<char>) -> Seq<char>
    decreases s.len(),
{
    if prefix.len() > 0 && starts_with(s, prefix) {
        trim_prefix_repeated(s.skip(prefix.len() as int), prefix)
    } else {
        s
    }
}

/// `s` without its leading slashes.
pub open spec fn trim_slashes(s: Seq<char>) -> Seq<char>
    decreases s.len(),
{
    if s.len() > 0 && s[0] == '/' {
        trim_slashes(s.drop_first())
    } else {
        s
    }
}

/// The script a path below `/api/scripts/` names: `<type>/<name>`; the
/// type is `request` or `response`, the name is what follows the first
/// slash (without further leading slashes) and may not be empty.
pub open spec fn script_path_spec(path: Seq<char>) -> Result<(ScriptKind, Seq<char>), Seq<char>> {
    let rest = trim_prefix_repeated(path, "/api/scripts/"@);
    match index_of(rest, '/') {
        None => Err("Invalid path: missing script name"@),
        Some(i) => {
            let ty = rest.take(i);
            let name = trim_slashes(rest.skip(i));
            if name.len() == 0 {
                Err("Invalid path: empty script name"@)
            } else if ty == "request"@ {
                Ok((ScriptKind::Request, name))
            } else if ty == "response"@ {
                Ok((ScriptKind::Response, name))
            } else {
                Err("Invalid script type"@)
            }
        },
    }
}

/// Removes every leading copy of `/api/scripts/`.
fn trim_scripts_prefix(v: &[char]) -> (r: Vec<char>)
    ensures
        r@ == trim_prefix_repeated(v@, "/api/scripts/"@),
{
    proof {
        reveal_strlit("/api/scripts/");
    }
    let mut i: usize = 0;
    proof {
        assert(v@.skip(0) =~= v@);
    }
    loop
        invariant
            i <= v@.len(),
            trim_prefix_repeated(v@, "/api/scripts/"@) == trim_prefix_repeated(v@.skip(i as int), "/api/scripts/"@),
        decreases v@.len() - i,
    {
        let rest = slice_chars(v, i, v.len());
        proof {
            assert(rest@ =~= v@.skip(i as int));
        }
        if !starts_with_str(&rest, "/api/scripts/") {
            return rest;
        }
        proof {
            reveal_strlit("/api/scripts/");
            assert("/api/scripts/"@.len() == 13);
            assert(v@.skip(i as int).skip(13) =~= v@.skip(i + 13));
        }
        i = i + 13;
    }
}

/// Removes leading slashes.
fn trim_slashes_exec(v: &[char]) -> (r: Vec<char>)
    ensures
        r@ == trim_slashes(v@),
{
    let mut i: usize = 0;
    proof {
        assert(v@.skip(0) =~= v@);
    }
    while i < v.len() && v[i] == '/'
        invariant
            i <= v@.len(),
            trim_slashes(v@) == trim_slashes(v@.skip(i as int)),
        decreases v@.len() - i,
    {
        proof {
            assert(v@.skip(i as int).drop_first() =~= v@.skip(i + 1));
        }
        i = i + 1;
    }
    let r = slice_chars(v, i, v.len());
    proof {
        assert(r@ =~= v@.skip(i as int));
    }
    r
}

/// The script type and name a path names, or 400 with the reason.
pub fn parse_script_path(path: &str) -> (r: Result<(ScriptKind, String), ScriptRefusal>)
    ensures
        match script_path_spec(path@) {
            Ok((k, n)) => (r matches Ok((k2, n2)) && k2 == k && n2@ == n),
            Err(m) => (r matches Err(e) && e.status == 400 && e.message@ == m),
        },
{
    let p = str_chars(path);
    let rest = trim_scripts_prefix(&p);
    let i = match index_of_exec(&rest, '/') {
        Some(i) => i,
        None => {
            return Err(ScriptRefusal { status: 400, message: "Invalid path: missing script name" });
        },
    };
    let ty = slice_chars(&rest, 0, i);
    let after = slice_chars(&rest, i, rest.len());
    proof {
        assert(ty@ =~= rest@.take(i as int));
        assert(after@ =~= rest@.skip(i as int));
    }
    let name = trim_slashes_exec(&after);
    if name.len() == 0 {
        return Err(ScriptRefusal { status: 400, message: "Invalid path: empty script name" });
    }
    if chars_eq_str(&ty, "request") {
        Ok((ScriptKind::Request, string_from_chars(&name)))
    } else if chars_eq_str(&ty, "response") {
        Ok((ScriptKind::Response, string_from_chars(&name)))
    } else {
        Err(ScriptRefusal { status: 400, message: "Invalid script type" })
    }
}

/// The operations of the scripts API.
#[derive(Debug, Clone, Copy, PartialEq, Eq, Structural)]
pub enum ScriptsAction {
    List,
    Get,
    Save,
    Delete,
    Test,
    NotFound,
    MethodNotAllowed,
}

/// The operation of a request below `/api/scripts` (before its path is
/// read for a script): GET lists at the root and loads below it, PUT saves,
/// DELETE deletes, POST runs a test at `/api/scripts/test`.
pub open spec fn scripts_action_spec(path: Seq<char>, method: Seq<char>) -> ScriptsAction {
    if method == "GET"@ {
        if path == "/api/scripts"@ || path == "/api/scripts/"@ {
            ScriptsAction::List
        } else {
            ScriptsAction::Get
        }
    } else if method == "PUT"@ {
        ScriptsAction::Save
    } else if method == "DELETE"@ {
        ScriptsAction::Delete
    } else if method == "POST"@ {
        if path == "/api/scripts/test"@ || path == "/api/scripts/test/"@ {
            ScriptsAction::Test
        } else {
            ScriptsAction::NotFound
        }
    } else {
        ScriptsAction::MethodNotAllowed
    }
}

/// The operation of a request below `/api/scripts`.
pub fn scripts_action(path: &str, method: &str) -> (a: ScriptsAction)
    ensures
        a == scripts_action_spec(path@, method@),
{
    let p = str_chars(path);
    let m = str_chars(method);
    if chars_eq_str(&m, "GET") {
        if chars_eq_str(&p, "/api/scripts") || chars_eq_str(&p, "/api/scripts/") {
            ScriptsAction::List
        } else {
            ScriptsAction::Get
        }
    } else if chars_eq_str(&m, "PUT") {
        ScriptsAction::Save
    } else if chars_eq_str(&m, "DELETE") {
        ScriptsAction::Delete
    } else if chars_eq_str(&m, "POST") {
        if chars_eq_str(&p, "/api/scripts/test") || chars_eq_str(&p, "/api/scripts/test/") {
            ScriptsAction::Test
        } else {
            ScriptsAction::NotFound
        }
    } else {
        ScriptsAction::MethodNotAllowed
    }
}

/// What deleting a script is answered.
pub fn script_deleted_message(name: &str) -> (m: String)
    ensures
        m@ == "Script "@ + name@ + " deleted"@,
{
    let mut m = to_owned_string("Script ");
    push_str(&mut m, name);
    push_str(&mut m, " deleted");
    m
}

} // verus!

//! The state kept while the chunks of a streamed chat completion are read,
//! how each chunk changes it, and the completion object built from it.
use vstd::prelude::*;
use crate::chat::{JsonValue, JsonNumber, Jv, JObj, jv, jv_seq, jv_entries, obj_get, obj_set, merge, names_view, str_of, delta_text, merge_json_object, get_entry, str_value, extract_delta_text_parts, set_entry, strip_dup, strip_duplicate_keys, lemma_jv_seq_len, lemma_jv_seq_ext};
use crate::text::{push_str, to_owned_string, u64_to_decimal, decimal};

verus! {

// ---------------------------------------------------------------------------
// Models
// ---------------------------------------------------------------------------

/// A function call as assembled so far.
pub struct FnModel {
    pub name: Option<Seq<char>>,
    pub arguments: Seq<char>,
    pub extra: JObj,
}

/// A tool call as assembled so far.
pub struct ToolModel {
    pub index: usize,
    pub id: Option<Seq<char>>,
    pub call_type: Option<Seq<char>>,
    pub extra: JObj,
    pub function: Option<FnModel>,
}

/// A choice as assembled so far.
pub struct ChoiceModel {
    pub index: usize,
    pub role: Option<Seq<char>>,
    pub content: Seq<char>,
    pub reasoning_content: Seq<char>,
    pub refusal: Seq<char>,
    pub finish_reason: Option<Jv>,
    pub extra: JObj,
    pub message_extra: JObj,
    pub function_call: Option<FnModel>,
    pub tool_calls: Seq<ToolModel>,
}

/// A function call that has seen nothing yet.
pub open spec fn no_fn() -> FnModel {
    FnModel { name: None, arguments: Seq::empty(), extra: Seq::empty() }
}

/// The function call, or a fresh one.
pub open spec fn fn_or_fresh(f: Option<FnModel>) -> FnModel {
    match f {
        Some(g) => g,
        None => no_fn(),
    }
}

/// The text under `k`, when it is a string.
pub open spec fn str_in(o: JObj, k: Seq<char>) -> Option<Seq<char>> {
    match obj_get(o, k) {
        Some(Jv::Str(t)) => Some(t),
        _ => None,
    }
}

/// `Some(t)` replaces, `None` keeps.
pub open spec fn or_keep(new: Option<Seq<char>>, old: Option<Seq<char>>) -> Option<Seq<char>> {
    match new {
        Some(t) => Some(t),
        None => old,
    }
}

/// The index under `index`, when it is a non-negative integer (as a `usize`).
pub open spec fn index_in(o: JObj) -> Option<usize> {
    match obj_get(o, "index"@) {
        Some(Jv::Num(_, Some(u))) => Some(u as usize),
        _ => None,
    }
}

/// Keys of a function call that are not kept as extra fields.
pub open spec fn fn_excluded() -> Seq<Seq<char>> {
    seq!["name"@, "arguments"@]
}

/// A function call after a chunk of it: the name is replaced, the arguments
/// are appended, and the other keys are merged.
pub open spec fn fn_after(f: FnModel, p: JObj) -> FnModel {
    FnModel {
        name: or_keep(str_in(p, "name"@), f.name),
        arguments: f.arguments + str_of(obj_get(p, "arguments"@)),
        extra: merge(f.extra, p, fn_excluded()),
    }
}

// ---------------------------------------------------------------------------
// Exec states
// ---------------------------------------------------------------------------

/// A function call being assembled.
pub struct ChatFunctionCallState {
    pub name: Option<String>,
    pub arguments: String,
    pub extra: Vec<(String, JsonValue)>,
}

/// The view of an optional string.
pub open spec fn ostr(o: Option<String>) -> Option<Seq<char>> {
    match o {
        Some(s) => Some(s@),
        None => None,
    }
}

impl View for ChatFunctionCallState {
    type V = FnModel;

    open spec fn view(&self) -> FnModel {
        FnModel { name: ostr(self.name), arguments: self.arguments@, extra: jv_entries(self.extra@) }
    }
}

/// The view of an optional function call.
pub open spec fn ofn(o: Option<ChatFunctionCallState>) -> Option<FnModel> {
    match o {
        Some(f) => Some(f@),
        None => None,
    }
}

impl ChatFunctionCallState {
    /// A function call that has seen nothing yet.
    pub fn fresh() -> (f: ChatFunctionCallState)
        ensures
            f@ == no_fn(),
    {
        let f = ChatFunctionCallState { name: None, arguments: String::new(), extra: Vec::new() };
        proof {
            assert(jv_entries(f.extra@) =~= Seq::<(Seq<char>, Jv)>::empty());
        }
        f
    }
}

/// The function call, or a fresh one.
fn fn_state_or_fresh(o: Option<ChatFunctionCallState>) -> (f: ChatFunctionCallState)
    ensures
        f@ == fn_or_fresh(ofn(o)),
{
    match o {
        Some(f) => f,
        None => ChatFunctionCallState::fresh(),
    }
}

/// The text under `k` of an exec object, when it is a string.
fn str_entry<'a>(o: &'a Vec<(String, JsonValue)>, k: &str) -> (r: Option<&'a str>)
    ensures
        match str_in(jv_entries(o@), k@) {
            Some(t) => (r matches Some(s) && s@ == t),
            None => r is None,
        },
{
    str_value(get_entry(o, k))
}

/// The names in `names`, as a list of string slices.
fn name_list2(a: &'static str, b: &'static str) -> (v: Vec<&'static str>)
    ensures
        names_view(v@) == seq![a@, b@],
{
    let v = vec![a, b];
    proof {
        assert(names_view(v@) =~= seq![a@, b@]);
    }
    v
}

/// Applies a chunk of a function call to its state.
fn merge_function_call_state(state: &mut ChatFunctionCallState, payload: &Vec<(String, JsonValue)>)
    ensures
        final(state)@ == fn_after(old(state)@, jv_entries(payload@)),
{
    let excluded = name_list2("name", "arguments");
    proof {
        reveal_strlit("name");
        reveal_strlit("arguments");
        assert(names_view(excluded@) == fn_excluded());
    }
    merge_json_object(&mut state.extra, payload, excluded.as_slice());
    match str_entry(payload, "name") {
        Some(name) => {
            state.name = Some(to_owned_string(name));
        },
        None => {},
    }
    match str_entry(payload, "arguments") {
        Some(arguments) => push_str(&mut state.arguments, arguments),
        None => {
            proof {
                assert(old(state).arguments@ + Seq::<char>::empty() =~= old(state).arguments@);
            }
        },
    }
}

// ---------------------------------------------------------------------------
// Tool calls
// ---------------------------------------------------------------------------

/// Keys of a tool call that are not kept as extra fields.
pub open spec fn tool_excluded() -> Seq<Seq<char>> {
    seq!["index"@, "id"@, "type"@, "function"@]
}

/// A tool call that has seen nothing yet.
pub open spec fn fresh_tool(index: usize) -> ToolModel {
    ToolModel { index, id: None, call_type: None, extra: Seq::empty(), function: None }
}

/// Position of the first tool call with the given index.
#[verifier::opaque]
pub open spec fn tool_pos(ts: Seq<ToolModel>, index: usize) -> Option<int> {
    if exists|i: int| 0 <= i < ts.len() && #[trigger] ts[i].index == index {
        Some(choose|i: int| 0 <= i < ts.len() && ts[i].index == index && forall|j: int| 0 <= j < i ==> #[trigger] ts[j].index != index)
    } else {
        None
    }
}

/// A tool call after a chunk of it: id and type are replaced, the function
/// is assembled, and the other keys are merged.
pub open spec fn tool_after(t: ToolModel, tc: JObj) -> ToolModel {
    ToolModel {
        index: t.index,
        id: or_keep(str_in(tc, "id"@), t.id),
        call_type: or_keep(str_in(tc, "type"@), t.call_type),
        extra: merge(t.extra, tc, tool_excluded()),
        function: match obj_get(tc, "function"@) {
            Some(Jv::Obj(f)) => Some(fn_after(fn_or_fresh(t.function), f)),
            _ => t.function,
        },
    }
}

/// The index a tool-call chunk is filed under: its own, else its position
/// in the chunk's list.
pub open spec fn tool_index(tc: JObj, position: int) -> usize {
    match index_in(tc) {
        Some(u) => u,
        None => position as usize,
    }
}

/// The tool calls after one tool-call chunk found at `position`: the call
/// with its index is updated, or a new one is added at the end.
pub open spec fn tool_call_applied(ts: Seq<ToolModel>, position: int, tc: JObj) -> Seq<ToolModel> {
    let index = tool_index(tc, position);
    match tool_pos(ts, index) {
        Some(p) => ts.update(p, tool_after(ts[p], tc)),
        None => ts.push(tool_after(fresh_tool(index), tc)),
    }
}

/// The tool calls after a list of tool-call chunks (entries that are not
/// objects are skipped).
pub open spec fn tools_after(ts: Seq<ToolModel>, tcs: Seq<Jv>) -> Seq<ToolModel>
    decreases tcs.len(),
{
    if tcs.len() == 0 {
        ts
    } else {
        let prev = tools_after(ts, tcs.drop_last());
        match tcs.last() {
            Jv::Obj(tc) => tool_call_applied(prev, tcs.len() - 1, tc),
            _ => prev,
        }
    }
}

/// A tool call being assembled.
pub struct ChatToolCallState {
    pub index: usize,
    pub id: Option<String>,
    pub call_type: Option<String>,
    pub extra: Vec<(String, JsonValue)>,
    pub function: Option<ChatFunctionCallState>,
}

impl View for ChatToolCallState {
    type V = ToolModel;

    open spec fn view(&self) -> ToolModel {
        ToolModel {
            index: self.index,
            id: ostr(self.id),
            call_type: ostr(self.call_type),
            extra: jv_entries(self.extra@),
            function: ofn(self.function),
        }
    }
}

/// The views of a list of tool calls.
pub open spec fn tools_view(v: Seq<ChatToolCallState>) -> Seq<ToolModel> {
    v.map_values(|t: ChatToolCallState| t@)
}

impl ChatToolCallState {
    /// A tool call that has seen nothing yet.
    pub fn fresh(index: usize) -> (t: ChatToolCallState)
        ensures
            t@ == fresh_tool(index),
    {
        let t = ChatToolCallState { index, id: None, call_type: None, extra: Vec::new(), function: None };
        proof {
            assert(jv_entries(t.extra@) =~= Seq::<(Seq<char>, Jv)>::empty());
        }
        t
    }
}

/// Position of the tool call with the given index.
fn find_tool(ts: &Vec<ChatToolCallState>, index: usize) -> (r: Option<usize>)
    ensures
        match r {
            Some(p) => tool_pos(tools_view(ts@), index) == Some(p as int) && p < ts@.len(),
            None => tool_pos(tools_view(ts@), index) is None,
        },
{
    reveal(tool_pos);
    let ghost v = tools_view(ts@);
    let mut i: usize = 0;
    while i < ts.len()
        invariant
            i <= ts@.len(),
            v == tools_view(ts@),
            forall|j: int| 0 <= j < i ==> #[trigger] v[j].index != index,
        decreases ts@.len() - i,
    {
        if ts[i].index == index {
            proof {
                reveal(tool_pos);
                assert(v[i as int].index == index);
                let p = choose|p: int| 0 <= p < v.len() && v[p].index == index && forall|j: int| 0 <= j < p ==> #[trigger] v[j].index != index;
                if p < i {
                } else if p > i {
                    assert(v[i as int].index != index);
                }
            }
            return Some(i);
        }
        i = i + 1;
    }
    None
}

/// Four names, as a list of string slices.
fn name_list4(a: &'static str, b: &'static str, c: &'static str, d: &'static str) -> (v: Vec<&'static str>)
    ensures
        names_view(v@) == seq![a@, b@, c@, d@],
{
    let v = vec![a, b, c, d];
    proof {
        assert(names_view(v@) =~= seq![a@, b@, c@, d@]);
    }
    v
}

/// Applies a tool-call chunk to the tool call it is filed under.
fn apply_tool_call(tool: &mut ChatToolCallState, tc: &Vec<(String, JsonValue)>)
    ensures
        final(tool)@ == tool_after(old(tool)@, jv_entries(tc@)),
{
    let excluded = name_list4("index", "id", "type", "function");
    proof {
        reveal_strlit("index");
        reveal_strlit("id");
        reveal_strlit("type");
        reveal_strlit("function");
        assert(names_view(excluded@) == tool_excluded());
    }
    merge_json_object(&mut tool.extra, tc, excluded.as_slice());
    match str_entry(tc, "id") {
        Some(id) => {
            tool.id = Some(to_owned_string(id));
        },
        None => {},
    }
    match str_entry(tc, "type") {
        Some(t) => {
            tool.call_type = Some(to_owned_string(t));
        },
        None => {},
    }
    match get_entry(tc, "function") {
        Some(JsonValue::Object(f)) => {
            let mut state = fn_state_or_fresh(tool.function.take());
            merge_function_call_state(&mut state, f);
            tool.function = Some(state);
        },
        _ => {},
    }
}

/// The index under `index` of an exec object, when it is a non-negative integer.
fn index_entry(o: &Vec<(String, JsonValue)>) -> (r: Option<usize>)
    ensures
        r == index_in(jv_entries(o@)),
{
    match get_entry(o, "index") {
        Some(JsonValue::Number(n)) => match n.as_u64 {
            Some(u) => Some(u as usize),
            None => None,
        },
        _ => None,
    }
}

/// Applies one tool-call chunk found at `position`.
fn apply_tool_call_chunk(ts: &mut Vec<ChatToolCallState>, position: usize, tc: &Vec<(String, JsonValue)>)
    ensures
        tools_view(final(ts)@) == tool_call_applied(tools_view(old(ts)@), position as int, jv_entries(tc@)),
{
    let index = match index_entry(tc) {
        Some(u) => u,
        None => position,
    };
    match find_tool(ts, index) {
        Some(p) => {
            let mut t = ts.remove(p);
            apply_tool_call(&mut t, tc);
            ts.insert(p, t);
            proof {
                assert(tools_view(ts@) =~= tools_view(old(ts)@).update(p as int, tool_after(tools_view(old(ts)@)[p as int], jv_entries(tc@))));
            }
        },
        None => {
            let mut t = ChatToolCallState::fresh(index);
            apply_tool_call(&mut t, tc);
            ts.push(t);
            proof {
                assert(tools_view(ts@) =~= tools_view(old(ts)@).push(tool_after(fresh_tool(index), jv_entries(tc@))));
            }
        },
    }
}

/// Applies a list of tool-call chunks.
fn apply_tool_calls(ts: &mut Vec<ChatToolCallState>, tcs: &Vec<JsonValue>)
    ensures
        tools_view(final(ts)@) == tools_after(tools_view(old(ts)@), jv_seq(tcs@)),
{
    let ghost t0 = tools_view(ts@);
    let mut i: usize = 0;
    proof {
        assert(tcs@.take(0) =~= Seq::<JsonValue>::empty());
    }
    while i < tcs.len()
        invariant
            i <= tcs@.len(),
            tools_view(ts@) == tools_after(t0, jv_seq(tcs@.take(i as int))),
        decreases tcs@.len() - i,
    {
        let ghost sp = tcs@.take(i + 1);
        proof {
            assert(sp.drop_last() =~= tcs@.take(i as int));
            assert(sp.last() == tcs@[i as int]);
            lemma_jv_seq_len(sp);
            assert(jv_seq(sp).drop_last() == jv_seq(tcs@.take(i as int)));
            assert(jv_seq(sp).last() == jv(tcs@[i as int]));
            assert(jv_seq(sp).len() - 1 == i);
        }
        match &tcs[i] {
            JsonValue::Object(tc) => apply_tool_call_chunk(ts, i, tc),
            _ => {},
        }
        i = i + 1;
    }
    proof {
        assert(tcs@.take(i as int) =~= tcs@);
    }
}

// ---------------------------------------------------------------------------
// Choices
// ---------------------------------------------------------------------------

/// Keys of a delta or message that are not kept as extra message fields.
pub open spec fn message_excluded() -> Seq<Seq<char>> {
    seq!["role"@, "content"@, "reasoning_content"@, "refusal"@, "function_call"@, "tool_calls"@]
}

/// Keys of a choice that are not kept as extra choice fields.
pub open spec fn choice_excluded() -> Seq<Seq<char>> {
    seq!["index"@, "delta"@, "message"@]
}

/// A choice that has seen nothing yet.
pub open spec fn fresh_choice(index: usize) -> ChoiceModel {
    ChoiceModel {
        index,
        role: None,
        content: Seq::empty(),
        reasoning_content: Seq::empty(),
        refusal: Seq::empty(),
        finish_reason: None,
        extra: Seq::empty(),
        message_extra: Seq::empty(),
        function_call: None,
        tool_calls: Seq::empty(),
    }
}

/// Position of the first choice with the given index.
#[verifier::opaque]
pub open spec fn choice_pos(cs: Seq<ChoiceModel>, index: usize) -> Option<int> {
    if exists|i: int| 0 <= i < cs.len() && #[trigger] cs[i].index == index {
        Some(choose|i: int| 0 <= i < cs.len() && cs[i].index == index && forall|j: int| 0 <= j < i ==> #[trigger] cs[j].index != index)
    } else {
        None
    }
}

/// A choice after a delta: the role is replaced, the texts are appended, the
/// function call and the tool calls are assembled, other keys are merged.
pub open spec fn choice_after_delta(c: ChoiceModel, d: JObj) -> ChoiceModel {
    let t = delta_text(d);
    ChoiceModel {
        message_extra: merge(c.message_extra, d, message_excluded()),
        role: or_keep(str_in(d, "role"@), c.role),
        content: c.content + t.0,
        reasoning_content: c.reasoning_content + t.1,
        refusal: c.refusal + t.2,
        function_call: match obj_get(d, "function_call"@) {
            Some(Jv::Obj(f)) => Some(fn_after(fn_or_fresh(c.function_call), f)),
            _ => c.function_call,
        },
        tool_calls: match obj_get(d, "tool_calls"@) {
            Some(Jv::Arr(tcs)) => tools_after(c.tool_calls, tcs),
            _ => c.tool_calls,
        },
        ..c
    }
}

/// A choice after a whole message: the role is replaced and the texts are
/// appended, other keys are merged.
pub open spec fn choice_after_message(c: ChoiceModel, m: JObj) -> ChoiceModel {
    ChoiceModel {
        message_extra: merge(c.message_extra, m, message_excluded()),
        role: or_keep(str_in(m, "role"@), c.role),
        content: c.content + str_of(obj_get(m, "content"@)),
        reasoning_content: c.reasoning_content + str_of(obj_get(m, "reasoning_content"@)),
        refusal: c.refusal + str_of(obj_get(m, "refusal"@)),
        ..c
    }
}

/// A choice after one chunk of it.
pub open spec fn choice_after(c: ChoiceModel, co: JObj) -> ChoiceModel {
    let c1 = ChoiceModel {
        extra: merge(c.extra, co, choice_excluded()),
        finish_reason: match obj_get(co, "finish_reason"@) {
            Some(f) => Some(f),
            None => c.finish_reason,
        },
        ..c
    };
    let c2 = match obj_get(co, "delta"@) {
        Some(Jv::Obj(d)) => choice_after_delta(c1, d),
        _ => c1,
    };
    match obj_get(co, "message"@) {
        Some(Jv::Obj(m)) => choice_after_message(c2, m),
        _ => c2,
    }
}

/// The index a choice chunk is filed under: its own, else 0.
pub open spec fn choice_index(co: JObj) -> usize {
    match index_in(co) {
        Some(u) => u,
        None => 0,
    }
}

/// The choices after one choice chunk: the choice with its index is
/// updated, or a new one is added at the end.
pub open spec fn choice_applied(cs: Seq<ChoiceModel>, co: JObj) -> Seq<ChoiceModel> {
    let index = choice_index(co);
    match choice_pos(cs, index) {
        Some(p) => cs.update(p, choice_after(cs[p], co)),
        None => cs.push(choice_after(fresh_choice(index), co)),
    }
}

/// The choices after a list of choice chunks (entries that are not objects
/// are skipped).
pub open spec fn choices_after(cs: Seq<ChoiceModel>, chs: Seq<Jv>) -> Seq<ChoiceModel>
    decreases chs.len(),
{
    if chs.len() == 0 {
        cs
    } else {
        let prev = choices_after(cs, chs.drop_last());
        match chs.last() {
            Jv::Obj(co) => choice_applied(prev, co),
            _ => prev,
        }
    }
}

/// A choice being assembled.
pub struct ChatChoiceState {
    pub index: usize,
    pub role: Option<String>,
    pub content: String,
    pub reasoning_content: String,
    pub refusal: String,
    pub finish_reason: Option<JsonValue>,
    pub extra: Vec<(String, JsonValue)>,
    pub message_extra: Vec<(String, JsonValue)>,
    pub function_call: Option<ChatFunctionCallState>,
    pub tool_calls: Vec<ChatToolCallState>,
}

/// The view of an optional value.
pub open spec fn oval(o: Option<JsonValue>) -> Option<Jv> {
    match o {
        Some(v) => Some(jv(v)),
        None => None,
    }
}

impl View for ChatChoiceState {
    type V = ChoiceModel;

    open spec fn view(&self) -> ChoiceModel {
        ChoiceModel {
            index: self.index,
            role: ostr(self.role),
            content: self.content@,
            reasoning_content: self.reasoning_content@,
            refusal: self.refusal@,
            finish_reason: oval(self.finish_reason),
            extra: jv_entries(self.extra@),
            message_extra: jv_entries(self.message_extra@),
            function_call: ofn(self.function_call),
            tool_calls: tools_view(self.tool_calls@),
        }
    }
}

/// The views of a list of choices.
pub open spec fn choices_view(v: Seq<ChatChoiceState>) -> Seq<ChoiceModel> {
    v.map_values(|c: ChatChoiceState| c@)
}

impl ChatChoiceState {
    /// A choice that has seen nothing yet.
    pub fn fresh(index: usize) -> (c: ChatChoiceState)
        ensures
            c@ == fresh_choice(index),
    {
        let c = ChatChoiceState {
            index,
            role: None,
            content: String::new(),
            reasoning_content: String::new(),
            refusal: String::new(),
            finish_reason: None,
            extra: Vec::new(),
            message_extra: Vec::new(),
            function_call: None,
            tool_calls: Vec::new(),
        };
        proof {
            assert(jv_entries(c.extra@) =~= Seq::<(Seq<char>, Jv)>::empty());
            assert(jv_entries(c.message_extra@) =~= Seq::<(Seq<char>, Jv)>::empty());
            assert(tools_view(c.tool_calls@) =~= Seq::<ToolModel>::empty());
        }
        c
    }
}

/// Position of the choice with the given index.
fn find_choice(cs: &Vec<ChatChoiceState>, index: usize) -> (r: Option<usize>)
    ensures
        match r {
            Some(p) => choice_pos(choices_view(cs@), index) == Some(p as int) && p < cs@.len(),
            None => choice_pos(choices_view(cs@), index) is None,
        },
{
    reveal(choice_pos);
    let ghost v = choices_view(cs@);
    let mut i: usize = 0;
    while i < cs.len()
        invariant
            i <= cs@.len(),
            v == choices_view(cs@),
            forall|j: int| 0 <= j < i ==> #[trigger] v[j].index != index,
        decreases cs@.len() - i,
    {
        if cs[i].index == index {
            proof {
                reveal(choice_pos);
                assert(v[i as int].index == index);
                let p = choose|p: int| 0 <= p < v.len() && v[p].index == index && forall|j: int| 0 <= j < p ==> #[trigger] v[j].index != index;
                if p < i {
                } else if p > i {
                    assert(v[i as int].index != index);
                }
            }
            return Some(i);
        }
        i = i + 1;
    }
    None
}

/// The six keys of a message that are assembled on their own.
fn message_keys() -> (v: Vec<&'static str>)
    ensures
        names_view(v@) == message_excluded(),
{
    let v = vec!["role", "content", "reasoning_content", "refusal", "function_call", "tool_calls"];
    proof {
        reveal_strlit("role");
        reveal_strlit("content");
        reveal_strlit("reasoning_content");
        reveal_strlit("refusal");
        reveal_strlit("function_call");
        reveal_strlit("tool_calls");
        assert(names_view(v@) =~= message_excluded());
    }
    v
}

/// Applies a delta to a choice.
fn apply_delta(c: &mut ChatChoiceState, d: &Vec<(String, JsonValue)>)
    ensures
        final(c)@ == choice_after_delta(old(c)@, jv_entries(d@)),
{
    let excluded = message_keys();
    merge_json_object(&mut c.message_extra, d, excluded.as_slice());
    match str_entry(d, "role") {
        Some(role) => {
            c.role = Some(to_owned_string(role));
        },
        None => {},
    }
    let (content, reasoning, refusal) = extract_delta_text_parts(d);
    push_str(&mut c.content, content.as_str());
    push_str(&mut c.reasoning_content, reasoning.as_str());
    push_str(&mut c.refusal, refusal.as_str());
    match get_entry(d, "function_call") {
        Some(JsonValue::Object(f)) => {
            let mut state = fn_state_or_fresh(c.function_call.take());
            merge_function_call_state(&mut state, f);
            c.function_call = Some(state);
        },
        _ => {},
    }
    match get_entry(d, "tool_calls") {
        Some(JsonValue::Array(tcs)) => apply_tool_calls(&mut c.tool_calls, tcs),
        _ => {},
    }
}

/// Appends the text of a string value (nothing for other values).
fn append_str_entry(buffer: &mut String, o: &Vec<(String, JsonValue)>, k: &str)
    ensures
        final(buffer)@ == old(buffer)@ + str_of(obj_get(jv_entries(o@), k@)),
{
    match str_entry(o, k) {
        Some(t) => push_str(buffer, t),
        None => {
            proof {
                assert(old(buffer)@ + Seq::<char>::empty() =~= old(buffer)@);
            }
        },
    }
}

/// Applies a whole message to a choice.
fn apply_message(c: &mut ChatChoiceState, m: &Vec<(String, JsonValue)>)
    ensures
        final(c)@ == choice_after_message(old(c)@, jv_entries(m@)),
{
    let excluded = message_keys();
    merge_json_object(&mut c.message_extra, m, excluded.as_slice());
    match str_entry(m, "role") {
        Some(role) => {
            c.role = Some(to_owned_string(role));
        },
        None => {},
    }
    append_str_entry(&mut c.content, m, "content");
    append_str_entry(&mut c.reasoning_content, m, "reasoning_content");
    append_str_entry(&mut c.refusal, m, "refusal");
}

/// The three keys of a choice that are assembled on their own.
fn choice_keys() -> (v: Vec<&'static str>)
    ensures
        names_view(v@) == choice_excluded(),
{
    let v = vec!["index", "delta", "message"];
    proof {
        reveal_strlit("index");
        reveal_strlit("delta");
        reveal_strlit("message");
        assert(names_view(v@) =~= choice_excluded());
    }
    v
}

/// Applies one chunk of a choice to it.
fn apply_choice(c: &mut ChatChoiceState, co: &Vec<(String, JsonValue)>)
    ensures
        final(c)@ == choice_after(old(c)@, jv_entries(co@)),
{
    let excluded = choice_keys();
    merge_json_object(&mut c.extra, co, excluded.as_slice());
    match get_entry(co, "finish_reason") {
        Some(f) => {
            c.finish_reason = Some(f.duplicate());
        },
        None => {},
    }
    let ghost c1 = c@;
    match get_entry(co, "delta") {
        Some(JsonValue::Object(d)) => apply_delta(c, d),
        _ => {},
    }
    match get_entry(co, "message") {
        Some(JsonValue::Object(m)) => apply_message(c, m),
        _ => {},
    }
}

/// Applies one choice chunk to the choice it is filed under.
fn apply_choice_chunk(cs: &mut Vec<ChatChoiceState>, co: &Vec<(String, JsonValue)>)
    ensures
        choices_view(final(cs)@) == choice_applied(choices_view(old(cs)@), jv_entries(co@)),
{
    let index = match index_entry(co) {
        Some(u) => u,
        None => 0,
    };
    match find_choice(cs, index) {
        Some(p) => {
            let mut c = cs.remove(p);
            apply_choice(&mut c, co);
            cs.insert(p, c);
            proof {
                assert(choices_view(cs@) =~= choices_view(old(cs)@).update(p as int, choice_after(choices_view(old(cs)@)[p as int], jv_entries(co@))));
            }
        },
        None => {
            let mut c = ChatChoiceState::fresh(index);
            apply_choice(&mut c, co);
            cs.push(c);
            proof {
                assert(choices_view(cs@) =~= choices_view(old(cs)@).push(choice_after(fresh_choice(index), jv_entries(co@))));
            }
        },
    }
}

/// Applies a list of choice chunks.
fn apply_choices(cs: &mut Vec<ChatChoiceState>, chs: &Vec<JsonValue>)
    ensures
        choices_view(final(cs)@) == choices_after(choices_view(old(cs)@), jv_seq(chs@)),
{
    let ghost c0 = choices_view(cs@);
    let mut i: usize = 0;
    proof {
        assert(chs@.take(0) =~= Seq::<JsonValue>::empty());
    }
    while i < chs.len()
        invariant
            i <= chs@.len(),
            choices_view(cs@) == choices_after(c0, jv_seq(chs@.take(i as int))),
        decreases chs@.len() - i,
    {
        let ghost sp = chs@.take(i + 1);
        proof {
            assert(sp.drop_last() =~= chs@.take(i as int));
            assert(sp.last() == chs@[i as int]);
            lemma_jv_seq_len(sp);
            assert(jv_seq(sp).drop_last() == jv_seq(chs@.take(i as int)));
            assert(jv_seq(sp).last() == jv(chs@[i as int]));
        }
        match &chs[i] {
            JsonValue::Object(co) => apply_choice_chunk(cs, co),
            _ => {},
        }
        i = i + 1;
    }
    proof {
        assert(chs@.take(i as int) =~= chs@);
    }
}

// ---------------------------------------------------------------------------
// The assembled completion
// ---------------------------------------------------------------------------

/// `o` with `k` set to the text, when there is one.
pub open spec fn set_opt_str(o: JObj, k: Seq<char>, v: Option<Seq<char>>) -> JObj {
    match v {
        Some(t) => obj_set(o, k, Jv::Str(t)),
        None => o,
    }
}

/// `o` with `k` set to the text, unless it is empty.
pub open spec fn set_nonempty(o: JObj, k: Seq<char>, t: Seq<char>) -> JObj {
    if t.len() > 0 {
        obj_set(o, k, Jv::Str(t))
    } else {
        o
    }
}

/// The object of an assembled function call: its extra keys, its name when
/// it has one, and its arguments.
pub open spec fn fn_value(f: FnModel) -> Jv {
    Jv::Obj(obj_set(set_opt_str(f.extra, "name"@, f.name), "arguments"@, Jv::Str(f.arguments)))
}

/// The object of an assembled tool call.
pub open spec fn tool_value(t: ToolModel) -> Jv {
    let e = set_opt_str(set_opt_str(t.extra, "id"@, t.id), "type"@, t.call_type);
    Jv::Obj(
        match t.function {
            Some(f) => obj_set(e, "function"@, fn_value(f)),
            None => e,
        },
    )
}

/// `t` inserted into `s` after every call whose index is not above its own.
pub open spec fn insert_by_index(s: Seq<ToolModel>, t: ToolModel) -> Seq<ToolModel>
    decreases s.len(),
{
    if s.len() == 0 {
        seq![t]
    } else if s.last().index <= t.index {
        s.push(t)
    } else {
        insert_by_index(s.drop_last(), t).push(s.last())
    }
}

/// The tool calls in order of index; calls with equal indices keep their
/// order (a stable sort).
pub open spec fn sort_by_index(ts: Seq<ToolModel>) -> Seq<ToolModel>
    decreases ts.len(),
{
    if ts.len() == 0 {
        ts
    } else {
        insert_by_index(sort_by_index(ts.drop_last()), ts.last())
    }
}

/// The message of an assembled choice.
pub open spec fn message_value(c: ChoiceModel) -> JObj {
    let role = match c.role {
        Some(r) => r,
        None => "assistant"@,
    };
    let m1 = obj_set(c.message_extra, "role"@, Jv::Str(role));
    let m2 = set_nonempty(set_nonempty(set_nonempty(m1, "content"@, c.content), "reasoning_content"@, c.reasoning_content), "refusal"@, c.refusal);
    let m3 = match c.function_call {
        Some(f) => obj_set(m2, "function_call"@, fn_value(f)),
        None => m2,
    };
    if c.tool_calls.len() > 0 {
        obj_set(m3, "tool_calls"@, Jv::Arr(sort_by_index(c.tool_calls).map_values(|t: ToolModel| tool_value(t))))
    } else {
        m3
    }
}

/// The JSON number of an index.
pub open spec fn index_number(i: usize) -> Jv {
    Jv::Num(decimal(i as nat), Some(i as u64))
}

/// An assembled choice: its extra keys that the top level does not hold
/// with the same value, its index, its message and its finish reason.
pub open spec fn choice_value(c: ChoiceModel, top: JObj) -> Jv {
    let a1 = obj_set(strip_dup(c.extra, top), "index"@, index_number(c.index));
    let a2 = obj_set(a1, "message"@, Jv::Obj(message_value(c)));
    Jv::Obj(
        obj_set(
            a2,
            "finish_reason"@,
            match c.finish_reason {
                Some(f) => f,
                None => Jv::Null,
            },
        ),
    )
}

/// The assembled completion: the merged top-level keys, `object` set to
/// `chat.completion`, and the choices in the order they first appeared.
pub open spec fn completion_value(top: JObj, cs: Seq<ChoiceModel>) -> Jv {
    let t1 = obj_set(top, "object"@, Jv::Str("chat.completion"@));
    Jv::Obj(obj_set(t1, "choices"@, Jv::Arr(cs.map_values(|c: ChoiceModel| choice_value(c, top)))))
}

/// An optional text as an exec object entry.
fn set_opt_string(o: &mut Vec<(String, JsonValue)>, k: &str, v: Option<String>)
    ensures
        jv_entries(final(o)@) == set_opt_str(jv_entries(old(o)@), k@, ostr(v)),
{
    match v {
        Some(t) => set_entry(o, k, JsonValue::Str(t)),
        None => {},
    }
}

/// A text as an exec object entry, unless it is empty.
fn set_nonempty_string(o: &mut Vec<(String, JsonValue)>, k: &str, t: String)
    ensures
        jv_entries(final(o)@) == set_nonempty(jv_entries(old(o)@), k@, t@),
{
    if !t.as_str().is_empty() {
        set_entry(o, k, JsonValue::Str(t));
    }
}

/// The object of an assembled function call.
fn function_value(f: ChatFunctionCallState) -> (v: JsonValue)
    ensures
        jv(v) == fn_value(f@),
{
    let ghost fm = f@;
    let mut e = f.extra;
    set_opt_string(&mut e, "name", f.name);
    set_entry(&mut e, "arguments", JsonValue::Str(f.arguments));
    JsonValue::Object(e)
}

/// The object of an assembled tool call.
fn tool_call_value(t: ChatToolCallState) -> (v: JsonValue)
    ensures
        jv(v) == tool_value(t@),
{
    let ghost tm = t@;
    let mut e = t.extra;
    set_opt_string(&mut e, "id", t.id);
    set_opt_string(&mut e, "type", t.call_type);
    match t.function {
        Some(f) => {
            let fv = function_value(f);
            set_entry(&mut e, "function", fv);
        },
        None => {},
    }
    JsonValue::Object(e)
}

/// `insert_by_index` on a prefix, with the rest after it.
proof fn lemma_insert_by_index_split(v: Seq<ToolModel>, t: ToolModel, p: int)
    requires
        0 < p <= v.len(),
        v[p - 1].index > t.index,
    ensures
        insert_by_index(v.take(p), t) + v.skip(p) == insert_by_index(v.take(p - 1), t) + v.skip(p - 1),
{
    let a = v.take(p);
    assert(a.drop_last() =~= v.take(p - 1));
    assert(a.last() == v[p - 1]);
    let b = insert_by_index(v.take(p - 1), t);
    assert(b.push(v[p - 1]) + v.skip(p) =~= b + v.skip(p - 1));
}

/// Inserts a tool call after every call whose index is not above its own.
fn insert_tool_by_index(out: &mut Vec<ChatToolCallState>, t: ChatToolCallState)
    ensures
        tools_view(final(out)@) == insert_by_index(tools_view(old(out)@), t@),
{
    let ghost v = tools_view(out@);
    let ghost tm = t@;
    let mut p: usize = out.len();
    proof {
        assert(v.take(v.len() as int) =~= v);
        assert(v.skip(v.len() as int) =~= Seq::<ToolModel>::empty());
        assert(insert_by_index(v, tm) + Seq::<ToolModel>::empty() =~= insert_by_index(v, tm));
    }
    while p > 0 && out[p - 1].index > t.index
        invariant
            p <= out@.len(),
            v == tools_view(out@),
            tm == t@,
            insert_by_index(v, tm) == insert_by_index(v.take(p as int), tm) + v.skip(p as int),
        decreases p,
    {
        proof {
            assert(v[p - 1].index == out@[p - 1].index);
            lemma_insert_by_index_split(v, tm, p as int);
        }
        p = p - 1;
    }
    proof {
        let a = v.take(p as int);
        if p > 0 {
            assert(a.last() == v[p - 1]);
            assert(v[p - 1].index == out@[p - 1].index);
            assert(insert_by_index(a, tm) == a.push(tm));
        } else {
            assert(insert_by_index(a, tm) == seq![tm]);
        }
        assert(insert_by_index(v, tm) =~= v.insert(p as int, tm));
    }
    out.insert(p, t);
    proof {
        assert(tools_view(out@) =~= v.insert(p as int, tm));
    }
}

/// The tool calls in order of index, stably.
fn sort_tool_calls(ts: Vec<ChatToolCallState>) -> (r: Vec<ChatToolCallState>)
    ensures
        tools_view(r@) == sort_by_index(tools_view(ts@)),
{
    let ghost v = tools_view(ts@);
    let n = ts.len();
    let mut rest = ts;
    let mut out: Vec<ChatToolCallState> = Vec::new();
    let mut k: usize = 0;
    proof {
        assert(v.take(0) =~= Seq::<ToolModel>::empty());
        assert(tools_view(out@) =~= Seq::<ToolModel>::empty());
        assert(tools_view(rest@) =~= v.skip(0));
        assert(v.len() == rest@.len());
    }
    while rest.len() > 0
        invariant
            k <= v.len(),
            k + rest@.len() == v.len(),
            v.len() == n,
            tools_view(rest@) == v.skip(k as int),
            tools_view(out@) == sort_by_index(v.take(k as int)),
        decreases rest@.len(),
    {
        let ghost before = rest@;
        let t = rest.remove(0);
        proof {
            assert(tools_view(before)[0] == t@);
            assert(v.skip(k as int)[0] == t@);
            assert(v[k as int] == t@);
            assert(v.take(k + 1).drop_last() =~= v.take(k as int));
            assert(v.take(k + 1).last() == t@);
            assert forall|j: int| 0 <= j < rest@.len() implies #[trigger] tools_view(rest@)[j] == v.skip(k + 1)[j] by {
                assert(rest@[j] == before[j + 1]);
                assert(tools_view(before)[j + 1] == v.skip(k as int)[j + 1]);
            }
            assert(tools_view(rest@) =~= v.skip(k + 1));
        }
        insert_tool_by_index(&mut out, t);
        k = k + 1;
    }
    proof {
        assert(v.take(k as int) =~= v);
    }
    out
}

/// The array of assembled tool calls, in order of index.
fn tool_calls_value(ts: Vec<ChatToolCallState>) -> (v: JsonValue)
    ensures
        jv(v) == Jv::Arr(sort_by_index(tools_view(ts@)).map_values(|t: ToolModel| tool_value(t))),
{
    let sorted = sort_tool_calls(ts);
    let ghost sv = tools_view(sorted@);
    let n = sorted.len();
    let mut rest = sorted;
    let mut out: Vec<JsonValue> = Vec::new();
    let mut k: usize = 0;
    proof {
        assert(tools_view(rest@) =~= sv.skip(0));
    }
    while rest.len() > 0
        invariant
            k <= sv.len(),
            k + rest@.len() == sv.len(),
            sv.len() == n,
            out@.len() == k,
            tools_view(rest@) == sv.skip(k as int),
            forall|j: int| 0 <= j < k ==> #[trigger] jv(out@[j]) == tool_value(sv[j]),
        decreases rest@.len(),
    {
        let ghost before = rest@;
        let t = rest.remove(0);
        proof {
            assert(tools_view(before)[0] == t@);
            assert(sv[k as int] == t@);
            assert forall|j: int| 0 <= j < rest@.len() implies #[trigger] tools_view(rest@)[j] == sv.skip(k + 1)[j] by {
                assert(rest@[j] == before[j + 1]);
                assert(tools_view(before)[j + 1] == sv.skip(k as int)[j + 1]);
            }
            assert(tools_view(rest@) =~= sv.skip(k + 1));
        }
        let tv = tool_call_value(t);
        out.push(tv);
        k = k + 1;
    }
    proof {
        let want = sv.map_values(|t: ToolModel| tool_value(t));
        assert forall|j: int| 0 <= j < out@.len() implies #[trigger] want[j] == jv(out@[j]) by {}
        lemma_jv_seq_ext(out@, want);
    }
    JsonValue::Array(out)
}

/// The message of an assembled choice.
fn message_object(c: ChatChoiceState) -> (m: Vec<(String, JsonValue)>)
    ensures
        jv_entries(m@) == message_value(c@),
{
    let ghost cm = c@;
    let mut m = c.message_extra;
    let role = match c.role {
        Some(r) => r,
        None => to_owned_string("assistant"),
    };
    set_entry(&mut m, "role", JsonValue::Str(role));
    set_nonempty_string(&mut m, "content", c.content);
    set_nonempty_string(&mut m, "reasoning_content", c.reasoning_content);
    set_nonempty_string(&mut m, "refusal", c.refusal);
    match c.function_call {
        Some(f) => {
            let fv = function_value(f);
            set_entry(&mut m, "function_call", fv);
        },
        None => {},
    }
    if c.tool_calls.len() > 0 {
        let tv = tool_calls_value(c.tool_calls);
        set_entry(&mut m, "tool_calls", tv);
    }
    m
}

/// The number of an index.
fn index_value(i: usize) -> (v: JsonValue)
    ensures
        jv(v) == index_number(i),
{
    JsonValue::Number(JsonNumber { text: u64_to_decimal(i as u64), as_u64: Some(i as u64) })
}

/// An assembled choice.
fn choice_object(c: ChatChoiceState, top: &Vec<(String, JsonValue)>) -> (v: JsonValue)
    ensures
        jv(v) == choice_value(c@, jv_entries(top@)),
{
    let ghost cm = c@;
    let mut c = c;
    let mut a = strip_duplicate_keys(&c.extra, top);
    let index = c.index;
    let finish = c.finish_reason.take();
    set_entry(&mut a, "index", index_value(index));
    proof {
        assert(message_value(c@) == message_value(cm));
    }
    let message = message_object(c);
    set_entry(&mut a, "message", JsonValue::Object(message));
    let fv = match finish {
        Some(f) => f,
        None => JsonValue::Null,
    };
    set_entry(&mut a, "finish_reason", fv);
    JsonValue::Object(a)
}

/// The array of assembled choices, in the order they first appeared.
fn choices_array(cs: Vec<ChatChoiceState>, top: &Vec<(String, JsonValue)>) -> (v: JsonValue)
    ensures
        jv(v) == Jv::Arr(choices_view(cs@).map_values(|c: ChoiceModel| choice_value(c, jv_entries(top@)))),
{
    let ghost cv = choices_view(cs@);
    let ghost tj = jv_entries(top@);
    let n = cs.len();
    let mut rest = cs;
    let mut out: Vec<JsonValue> = Vec::new();
    let mut k: usize = 0;
    proof {
        assert(choices_view(rest@) =~= cv.skip(0));
    }
    while rest.len() > 0
        invariant
            k <= cv.len(),
            k + rest@.len() == cv.len(),
            cv.len() == n,
            out@.len() == k,
            tj == jv_entries(top@),
            choices_view(rest@) == cv.skip(k as int),
            forall|j: int| 0 <= j < k ==> #[trigger] jv(out@[j]) == choice_value(cv[j], tj),
        decreases rest@.len(),
    {
        let ghost before = rest@;
        let c = rest.remove(0);
        proof {
            assert(choices_view(before)[0] == c@);
            assert(cv[k as int] == c@);
            assert forall|j: int| 0 <= j < rest@.len() implies #[trigger] choices_view(rest@)[j] == cv.skip(k + 1)[j] by {
                assert(rest@[j] == before[j + 1]);
                assert(choices_view(before)[j + 1] == cv.skip(k as int)[j + 1]);
            }
            assert(choices_view(rest@) =~= cv.skip(k + 1));
        }
        let co = choice_object(c, top);
        out.push(co);
        k = k + 1;
    }
    proof {
        let want = cv.map_values(|c: ChoiceModel| choice_value(c, tj));
        assert forall|j: int| 0 <= j < out@.len() implies #[trigger] want[j] == jv(out@[j]) by {}
        lemma_jv_seq_ext(out@, want);
    }
    JsonValue::Array(out)
}

/// The assembled completion object.
fn completion_object(top: Vec<(String, JsonValue)>, cs: Vec<ChatChoiceState>) -> (v: JsonValue)
    ensures
        jv(v) == completion_value(jv_entries(top@), choices_view(cs@)),
{
    let choices = choices_array(cs, &top);
    let mut t = top;
    set_entry(&mut t, "object", JsonValue::Str(to_owned_string("chat.completion")));
    set_entry(&mut t, "choices", choices);
    JsonValue::Object(t)
}

// ---------------------------------------------------------------------------
// Reading the chunks
// ---------------------------------------------------------------------------

/// Where the reading of the chunks stands: whether a chunk with a list of
/// choices was seen, whether reading has failed, the merged top-level keys
/// and the choices.
pub struct AssemblyModel {
    pub recognized: bool,
    pub failed: bool,
    pub top: JObj,
    pub choices: Seq<ChoiceModel>,
}

/// Nothing read yet.
pub open spec fn assembly_start() -> AssemblyModel {
    AssemblyModel { recognized: false, failed: false, top: Seq::empty(), choices: Seq::empty() }
}

/// A chunk that is an object with a list of choices, and that list.
pub open spec fn chunk_parts(p: Option<Jv>) -> Option<(JObj, Seq<Jv>)> {
    match p {
        Some(Jv::Obj(o)) => match obj_get(o, "choices"@) {
            Some(Jv::Arr(chs)) => Some((o, chs)),
            _ => None,
        },
        _ => None,
    }
}

/// One chunk read (`None` for one that is not JSON): a chunk with choices
/// merges its other keys into the top level and its choices into the
/// choices; any other chunk is skipped before the first such chunk and
/// fails the reading after it.
pub open spec fn assembly_step(st: AssemblyModel, p: Option<Jv>) -> AssemblyModel {
    if st.failed {
        st
    } else {
        match chunk_parts(p) {
            Some((o, chs)) => AssemblyModel {
                recognized: true,
                failed: false,
                top: merge(st.top, o, seq!["choices"@]),
                choices: choices_after(st.choices, chs),
            },
            None => if st.recognized {
                AssemblyModel { failed: true, ..st }
            } else {
                st
            },
        }
    }
}

/// The state after reading the chunks in order.
pub open spec fn assembly_of(ps: Seq<Option<Jv>>) -> AssemblyModel
    decreases ps.len(),
{
    if ps.len() == 0 {
        assembly_start()
    } else {
        assembly_step(assembly_of(ps.drop_last()), ps.last())
    }
}

/// The completion assembled from the chunks: none when reading failed, when
/// no chunk had a list of choices, or when no choice was seen.
pub open spec fn assembled(ps: Seq<Option<Jv>>) -> Option<Jv> {
    let st = assembly_of(ps);
    if st.failed || !st.recognized || st.choices.len() == 0 {
        None
    } else {
        Some(completion_value(st.top, st.choices))
    }
}

/// The views of a list of optional values.
pub open spec fn payloads_view(ps: Seq<Option<JsonValue>>) -> Seq<Option<Jv>> {
    ps.map_values(|p: Option<JsonValue>| oval(p))
}

/// Once reading has failed, it stays failed.
pub proof fn lemma_failed_stays(ps: Seq<Option<Jv>>, i: int)
    requires
        0 <= i <= ps.len(),
        assembly_of(ps.take(i)).failed,
    ensures
        assembly_of(ps).failed,
    decreases ps.len(),
{
    if ps.len() == i {
        assert(ps.take(i) =~= ps);
    } else {
        assert(ps.drop_last().take(i) =~= ps.take(i));
        lemma_failed_stays(ps.drop_last(), i);
    }
}

/// Assembles the completion from the parsed chunks of a stream, in order
/// (`None` for a chunk that is not JSON).
pub fn assemble_chat_completion(payloads: &Vec<Option<JsonValue>>) -> (r: Option<JsonValue>)
    ensures
        match assembled(payloads_view(payloads@)) {
            Some(v) => (r matches Some(x) && jv(x) == v),
            None => r is None,
        },
{
    let ghost pv = payloads_view(payloads@);
    let mut top: Vec<(String, JsonValue)> = Vec::new();
    let mut choices: Vec<ChatChoiceState> = Vec::new();
    let mut recognized = false;
    let choices_key = vec!["choices"];
    proof {
        reveal_strlit("choices");
        assert(names_view(choices_key@) =~= seq!["choices"@]);
        assert(pv.take(0) =~= Seq::<Option<Jv>>::empty());
        assert(jv_entries(top@) =~= Seq::<(Seq<char>, Jv)>::empty());
        assert(choices_view(choices@) =~= Seq::<ChoiceModel>::empty());
    }
    let mut i: usize = 0;
    while i < payloads.len()
        invariant
            i <= payloads@.len(),
            pv == payloads_view(payloads@),
            names_view(choices_key@) == seq!["choices"@],
            !assembly_of(pv.take(i as int)).failed,
            assembly_of(pv.take(i as int)).recognized == recognized,
            assembly_of(pv.take(i as int)).top == jv_entries(top@),
            assembly_of(pv.take(i as int)).choices == choices_view(choices@),
        decreases payloads@.len() - i,
    {
        let ghost sp = pv.take(i + 1);
        proof {
            assert(sp.drop_last() =~= pv.take(i as int));
            assert(sp.last() == oval(payloads@[i as int]));
        }
        let parts: Option<(&Vec<(String, JsonValue)>, &Vec<JsonValue>)> = match &payloads[i] {
            Some(JsonValue::Object(o)) => match get_entry(o, "choices") {
                Some(JsonValue::Array(chs)) => Some((o, chs)),
                _ => None,
            },
            _ => None,
        };
        match parts {
            Some((o, chs)) => {
                recognized = true;
                merge_json_object(&mut top, o, choices_key.as_slice());
                apply_choices(&mut choices, chs);
            },
            None => {
                if recognized {
                    proof {
                        lemma_failed_stays(pv, i + 1);
                    }
                    return None;
                }
            },
        }
        i = i + 1;
    }
    proof {
        assert(pv.take(i as int) =~= pv);
    }
    if !recognized || choices.len() == 0 {
        return None;
    }
    Some(completion_object(top, choices))
}

} // verus!

//! The iterative search over stored traffic: the database query each round
//! asks for, and how the candidates of a round advance the search, when it
//! stops, and whether more remains.
//!
//! Fetching a round of candidates and deciding whether each one matches
//! read the traffic database and the body store; those results are handed
//! in here.
use vstd::prelude::*;
use crate::text::{chars_eq_str, str_chars, to_owned_string};
use crate::search::{SearchRequest, FilterCondition, unicode_upper, to_uppercase};
use crate::query::{QueryParams, QueryModel, Direction, empty_query};

verus! {

/// Results a search returns when the request sets no limit.
pub const DEFAULT_BATCH_SIZE: usize = 50;
/// Candidates fetched from the database per round.
pub const SEARCH_BATCH_SIZE: usize = 200;
/// Rounds a search makes at most.
pub const MAX_SEARCH_ITERATIONS: usize = 50;
/// Candidates a search examines before it stops.
pub const MAX_TOTAL_SEARCHED: usize = 10000;

// ---------------------------------------------------------------------------
// The database query of a round
// ---------------------------------------------------------------------------

/// A protocol filter narrows the database query: `WS`/`WSS` to WebSocket
/// records, `H3` to HTTP/3 ones (after Unicode upper-casing).
pub open spec fn query_after_protocol(m: QueryModel, protocol: Seq<char>) -> QueryModel {
    let p = unicode_upper(protocol);
    if p == "WS"@ || p == "WSS"@ {
        QueryModel { is_websocket: Some(true), ..m }
    } else if p == "H3"@ {
        QueryModel { is_h3: Some(true), ..m }
    } else {
        m
    }
}

/// A field condition narrows the database query where the database can
/// filter on that field: host, path and URL for `contains` or `equals`,
/// method for `equals`, client application, client IP and content type
/// for any operator.
pub open spec fn query_after_condition(m: QueryModel, field: Seq<char>, operator: Seq<char>, value: Seq<char>) -> QueryModel {
    let text_op = operator == "contains"@ || operator == "equals"@;
    if field == "host"@ {
        if text_op { QueryModel { host_contains: Some(value), ..m } } else { m }
    } else if field == "path"@ {
        if text_op { QueryModel { path_contains: Some(value), ..m } } else { m }
    } else if field == "url"@ {
        if text_op { QueryModel { url_contains: Some(value), ..m } } else { m }
    } else if field == "method"@ {
        if operator == "equals"@ { QueryModel { method: Some(value), ..m } } else { m }
    } else if field == "client_app"@ {
        QueryModel { client_app: Some(value), ..m }
    } else if field == "client_ip"@ {
        QueryModel { client_ip: Some(value), ..m }
    } else if field == "content_type"@ {
        QueryModel { content_type: Some(value), ..m }
    } else {
        m
    }
}

/// The query after the protocol filters, in order.
pub open spec fn query_after_protocols(m: QueryModel, protocols: Seq<Seq<char>>) -> QueryModel
    decreases protocols.len(),
{
    if protocols.len() == 0 {
        m
    } else {
        query_after_protocol(query_after_protocols(m, protocols.drop_last()), protocols.last())
    }
}

/// The view of a field condition.
pub open spec fn condition_view(c: FilterCondition) -> (Seq<char>, Seq<char>, Seq<char>) {
    (c.field@, c.operator@, c.value@)
}

/// The query after the field conditions, in order.
pub open spec fn query_after_conditions(m: QueryModel, conditions: Seq<(Seq<char>, Seq<char>, Seq<char>)>) -> QueryModel
    decreases conditions.len(),
{
    if conditions.len() == 0 {
        m
    } else {
        let c = conditions.last();
        query_after_condition(query_after_conditions(m, conditions.drop_last()), c.0, c.1, c.2)
    }
}

/// The database query of one round: backward from the cursor, a round's
/// worth of candidates, narrowed by the rule-hit flag, the protocol filters
/// and the field conditions that the database can apply.
pub open spec fn search_query(
    has_rule_hit: Option<bool>,
    protocols: Seq<Seq<char>>,
    conditions: Seq<(Seq<char>, Seq<char>, Seq<char>)>,
    cursor: Option<u64>,
) -> QueryModel {
    let base = QueryModel {
        cursor: cursor,
        limit: Some(SEARCH_BATCH_SIZE),
        direction: Direction::Backward,
        has_rule_hit: has_rule_hit,
        ..empty_query()
    };
    query_after_conditions(query_after_protocols(base, protocols), conditions)
}

/// The views of a list of texts.
pub open spec fn texts_view(v: Seq<String>) -> Seq<Seq<char>> {
    Seq::new(v.len(), |i: int| v[i]@)
}

/// The views of a list of field conditions.
pub open spec fn conditions_view(v: Seq<FilterCondition>) -> Seq<(Seq<char>, Seq<char>, Seq<char>)> {
    Seq::new(v.len(), |i: int| condition_view(v[i]))
}

fn apply_protocol(p: &mut QueryParams, protocol: &str)
    ensures
        final(p).model() == query_after_protocol(old(p).model(), protocol@),
{
    let up = to_uppercase(protocol);
    let c = str_chars(up.as_str());
    if chars_eq_str(&c, "WS") || chars_eq_str(&c, "WSS") {
        p.is_websocket = Some(true);
    } else if chars_eq_str(&c, "H3") {
        p.is_h3 = Some(true);
    }
}

fn apply_condition(p: &mut QueryParams, c: &FilterCondition)
    ensures
        final(p).model() == query_after_condition(old(p).model(), c.field@, c.operator@, c.value@),
{
    let f = str_chars(c.field.as_str());
    let o = str_chars(c.operator.as_str());
    let text_op = chars_eq_str(&o, "contains") || chars_eq_str(&o, "equals");
    if chars_eq_str(&f, "host") {
        if text_op {
            p.host_contains = Some(to_owned_string(c.value.as_str()));
        }
    } else if chars_eq_str(&f, "path") {
        if text_op {
            p.path_contains = Some(to_owned_string(c.value.as_str()));
        }
    } else if chars_eq_str(&f, "url") {
        if text_op {
            p.url_contains = Some(to_owned_string(c.value.as_str()));
        }
    } else if chars_eq_str(&f, "method") {
        if chars_eq_str(&o, "equals") {
            p.method = Some(to_owned_string(c.value.as_str()));
        }
    } else if chars_eq_str(&f, "client_app") {
        p.client_app = Some(to_owned_string(c.value.as_str()));
    } else if chars_eq_str(&f, "client_ip") {
        p.client_ip = Some(to_owned_string(c.value.as_str()));
    } else if chars_eq_str(&f, "content_type") {
        p.content_type = Some(to_owned_string(c.value.as_str()));
    }
}

/// The database query for one round of a search, starting at `cursor`.
pub fn search_query_params(request: &SearchRequest, cursor: Option<u64>) -> (p: QueryParams)
    ensures
        p.model() == search_query(
            request.filters.has_rule_hit,
            texts_view(request.filters.protocols@),
            conditions_view(request.filters.conditions@),
            cursor,
        ),
{
    let mut p = QueryParams::new();
    p.cursor = cursor;
    p.limit = Some(SEARCH_BATCH_SIZE);
    p.direction = Direction::Backward;
    p.has_rule_hit = request.filters.has_rule_hit;
    let ghost base = p.model();
    let protocols = &request.filters.protocols;
    let ghost ps = texts_view(protocols@);
    let mut i: usize = 0;
    while i < protocols.len()
        invariant
            i <= protocols@.len(),
            ps == texts_view(protocols@),
            p.model() == query_after_protocols(base, ps.take(i as int)),
        decreases protocols.len() - i,
    {
        apply_protocol(&mut p, protocols[i].as_str());
        proof {
            assert(ps.take(i + 1).drop_last() =~= ps.take(i as int));
        }
        i = i + 1;
    }
    proof {
        assert(ps.take(protocols@.len() as int) =~= ps);
    }
    let ghost mid = p.model();
    let conditions = &request.filters.conditions;
    let ghost cs = conditions_view(conditions@);
    let mut j: usize = 0;
    while j < conditions.len()
        invariant
            j <= conditions@.len(),
            cs == conditions_view(conditions@),
            p.model() == query_after_conditions(mid, cs.take(j as int)),
        decreases conditions.len() - j,
    {
        apply_condition(&mut p, &conditions[j]);
        proof {
            assert(cs.take(j + 1).drop_last() =~= cs.take(j as int));
        }
        j = j + 1;
    }
    proof {
        assert(cs.take(conditions@.len() as int) =~= cs);
    }
    p
}

// ---------------------------------------------------------------------------
// The rounds of a search
// ---------------------------------------------------------------------------

/// What became of one candidate of a round.
#[derive(Debug, Clone, Copy, PartialEq, Eq, Structural)]
pub enum Candidate {
    /// It failed the summary filters or the field conditions.
    Skipped,
    /// It passed the filters (or its record is gone) but holds no match.
    Searched,
    /// It holds a match of the keyword.
    Matched,
}

/// Where a search stands between rounds.
#[derive(Debug, Clone, Copy, PartialEq, Eq, Structural)]
pub struct SearchState {
    /// Results the request asks for.
    pub wanted: usize,
    /// Results found so far.
    pub matched: usize,
    /// Candidates examined so far.
    pub total_searched: usize,
    /// Sequence number of the last candidate examined.
    pub cursor: Option<u64>,
    /// Rounds made so far.
    pub iterations: usize,
    /// Whether the database may hold more candidates.
    pub db_has_more: bool,
}

/// A search before its first round.
pub open spec fn start_spec(limit: Option<usize>, cursor: Option<u64>) -> SearchState {
    SearchState {
        wanted: match limit { Some(l) => l, None => DEFAULT_BATCH_SIZE },
        matched: 0,
        total_searched: 0,
        cursor: cursor,
        iterations: 0,
        db_has_more: true,
    }
}

/// Whether another round is made: results are still wanted, and neither the
/// round limit, the examination limit nor the end of the database is reached.
pub open spec fn continues(s: SearchState) -> bool {
    s.matched < s.wanted && s.iterations < MAX_SEARCH_ITERATIONS
        && s.total_searched < MAX_TOTAL_SEARCHED && s.db_has_more
}

/// The candidates of a round from position `i` on, each examined in turn:
/// every one counts and moves the cursor to its sequence number; a match is
/// taken, and the round ends when enough results are found; after a match or
/// a fruitless search (not after a skip) the round ends once the examination
/// limit is reached. Gives the state and the positions of the matches taken.
pub open spec fn scan_from(s: SearchState, seqs: Seq<u64>, kinds: Seq<Candidate>, i: int) -> (SearchState, Seq<int>)
    decreases seqs.len() - i,
{
    if i < 0 || i >= seqs.len() {
        (s, Seq::empty())
    } else {
        let s1 = SearchState { total_searched: (s.total_searched + 1) as usize, cursor: Some(seqs[i]), ..s };
        match kinds[i] {
            Candidate::Skipped => scan_from(s1, seqs, kinds, i + 1),
            Candidate::Searched => if s1.total_searched >= MAX_TOTAL_SEARCHED {
                (s1, Seq::empty())
            } else {
                scan_from(s1, seqs, kinds, i + 1)
            },
            Candidate::Matched => {
                let s2 = SearchState { matched: (s1.matched + 1) as usize, ..s1 };
                if s2.matched >= s2.wanted || s2.total_searched >= MAX_TOTAL_SEARCHED {
                    (s2, seq![i])
                } else {
                    let rest = scan_from(s2, seqs, kinds, i + 1);
                    (rest.0, seq![i] + rest.1)
                }
            },
        }
    }
}

/// One round: it counts; an empty round ends the database; otherwise its
/// candidates are scanned and the database's own "more" flag is kept.
pub open spec fn round(s: SearchState, seqs: Seq<u64>, kinds: Seq<Candidate>, has_more: bool) -> (SearchState, Seq<int>) {
    let s0 = SearchState { iterations: (s.iterations + 1) as usize, ..s };
    if seqs.len() == 0 {
        (SearchState { db_has_more: false, ..s0 }, Seq::empty())
    } else {
        let r = scan_from(s0, seqs, kinds, 0);
        (SearchState { db_has_more: has_more, ..r.0 }, r.1)
    }
}

/// Whether the response says more results may follow.
pub open spec fn has_more_spec(s: SearchState) -> bool {
    s.db_has_more && s.total_searched < MAX_TOTAL_SEARCHED
}

/// A search before its first round, with the request's limit (50 when it
/// sets none) and cursor.
pub fn search_start(limit: Option<usize>, cursor: Option<u64>) -> (s: SearchState)
    ensures
        s == start_spec(limit, cursor),
{
    let wanted = match limit {
        Some(l) => l,
        None => DEFAULT_BATCH_SIZE,
    };
    SearchState { wanted, matched: 0, total_searched: 0, cursor, iterations: 0, db_has_more: true }
}

/// Whether the search makes another round.
pub fn search_continues(s: &SearchState) -> (b: bool)
    ensures
        b == continues(*s),
{
    s.matched < s.wanted && s.iterations < MAX_SEARCH_ITERATIONS
        && s.total_searched < MAX_TOTAL_SEARCHED && s.db_has_more
}

/// Whether the finished search reports that more may follow.
pub fn search_has_more(s: &SearchState) -> (b: bool)
    ensures
        b == has_more_spec(*s),
{
    s.db_has_more && s.total_searched < MAX_TOTAL_SEARCHED
}

proof fn lemma_scan_bounds(s: SearchState, seqs: Seq<u64>, kinds: Seq<Candidate>, i: int)
    requires
        0 <= i <= seqs.len(),
        s.matched < s.wanted,
        s.total_searched + (seqs.len() - i) <= usize::MAX,
    ensures
        scan_from(s, seqs, kinds, i).0.matched <= s.wanted,
        scan_from(s, seqs, kinds, i).0.wanted == s.wanted,
        scan_from(s, seqs, kinds, i).0.iterations == s.iterations,
        scan_from(s, seqs, kinds, i).0.db_has_more == s.db_has_more,
        scan_from(s, seqs, kinds, i).0.total_searched <= s.total_searched + (seqs.len() - i),
        scan_from(s, seqs, kinds, i).0.matched == s.matched + scan_from(s, seqs, kinds, i).1.len(),
        forall|k: int| 0 <= k < scan_from(s, seqs, kinds, i).1.len() ==> {
            let p = #[trigger] scan_from(s, seqs, kinds, i).1[k];
            i <= p < seqs.len() && kinds[p] == Candidate::Matched
        },
        forall|a: int, b: int| 0 <= a < b < scan_from(s, seqs, kinds, i).1.len() ==>
            scan_from(s, seqs, kinds, i).1[a] < scan_from(s, seqs, kinds, i).1[b],
    decreases seqs.len() - i,
{
    if i < seqs.len() {
        let s1 = SearchState { total_searched: (s.total_searched + 1) as usize, cursor: Some(seqs[i]), ..s };
        match kinds[i] {
            Candidate::Skipped => {
                lemma_scan_bounds(s1, seqs, kinds, i + 1);
            },
            Candidate::Searched => {
                if s1.total_searched < MAX_TOTAL_SEARCHED {
                    lemma_scan_bounds(s1, seqs, kinds, i + 1);
                }
            },
            Candidate::Matched => {
                let s2 = SearchState { matched: (s1.matched + 1) as usize, ..s1 };
                if !(s2.matched >= s2.wanted || s2.total_searched >= MAX_TOTAL_SEARCHED) {
                    lemma_scan_bounds(s2, seqs, kinds, i + 1);
                    let rest = scan_from(s2, seqs, kinds, i + 1);
                    assert forall|k: int| 0 <= k < (seq![i] + rest.1).len() implies {
                        let p = #[trigger] (seq![i] + rest.1)[k];
                        i <= p < seqs.len() && kinds[p] == Candidate::Matched
                    } by {
                        if k > 0 {
                            assert((seq![i] + rest.1)[k] == rest.1[k - 1]);
                        }
                    }
                    assert forall|a: int, b: int| 0 <= a < b < (seq![i] + rest.1).len() implies
                        (seq![i] + rest.1)[a] < (seq![i] + rest.1)[b] by {
                        assert((seq![i] + rest.1)[b] == rest.1[b - 1]);
                        if a > 0 {
                            assert((seq![i] + rest.1)[a] == rest.1[a - 1]);
                        }
                    }
                }
            },
        }
    }
}

/// Takes in one round of candidates: their sequence numbers, in the order
/// the database gave them, what became of each, and the database's "more"
/// flag. Gives the positions of the matches the search keeps, in order.
pub fn absorb_round(s: &mut SearchState, seqs: &[u64], kinds: &[Candidate], has_more: bool) -> (taken: Vec<usize>)
    requires
        continues(*old(s)),
        seqs@.len() == kinds@.len(),
        seqs@.len() <= usize::MAX - MAX_TOTAL_SEARCHED,
    ensures
        *final(s) == round(*old(s), seqs@, kinds@, has_more).0,
        taken@.len() == round(*old(s), seqs@, kinds@, has_more).1.len(),
        forall|k: int| 0 <= k < taken@.len() ==> taken@[k] as int == #[trigger] round(*old(s), seqs@, kinds@, has_more).1[k],
{
    s.iterations = s.iterations + 1;
    let ghost s0 = *s;
    let mut taken: Vec<usize> = Vec::new();
    if seqs.len() == 0 {
        s.db_has_more = false;
        return taken;
    }
    let mut i: usize = 0;
    let mut done = false;
    let ghost target = scan_from(s0, seqs@, kinds@, 0);
    proof {
        lemma_scan_bounds(s0, seqs@, kinds@, 0);
        assert(taken@.map_values(|x: usize| x as int) + target.1 =~= target.1);
    }
    while i < seqs.len() && !done
        invariant
            seqs@.len() == kinds@.len(),
            seqs@.len() <= usize::MAX - MAX_TOTAL_SEARCHED,
            s0.total_searched < MAX_TOTAL_SEARCHED,
            target == scan_from(s0, seqs@, kinds@, 0),
            i <= seqs@.len(),
            s.total_searched <= s0.total_searched + i,
            !done ==> s.matched < s.wanted,
            !done ==> scan_from(*s, seqs@, kinds@, i as int).0 == target.0,
            !done ==> taken@.map_values(|x: usize| x as int) + scan_from(*s, seqs@, kinds@, i as int).1 == target.1,
            done ==> *s == target.0,
            done ==> taken@.map_values(|x: usize| x as int) == target.1,
        decreases seqs.len() - i,
    {
        let ghost before = *s;
        let ghost t_before = taken@.map_values(|x: usize| x as int);
        s.total_searched = s.total_searched + 1;
        s.cursor = Some(seqs[i]);
        match kinds[i] {
            Candidate::Skipped => {},
            Candidate::Searched => {
                if s.total_searched >= MAX_TOTAL_SEARCHED {
                    done = true;
                    proof {
                        assert(scan_from(before, seqs@, kinds@, i as int) == (*s, Seq::<int>::empty()));
                        assert(t_before + Seq::<int>::empty() =~= t_before);
                    }
                }
            },
            Candidate::Matched => {
                taken.push(i);
                s.matched = s.matched + 1;
                proof {
                    assert(taken@.map_values(|x: usize| x as int) =~= t_before.push(i as int));
                }
                if s.matched >= s.wanted || s.total_searched >= MAX_TOTAL_SEARCHED {
                    done = true;
                    proof {
                        assert(scan_from(before, seqs@, kinds@, i as int) == (*s, seq![i as int]));
                        assert(t_before + seq![i as int] =~= t_before.push(i as int));
                    }
                } else {
                    proof {
                        let rest = scan_from(*s, seqs@, kinds@, i + 1);
                        assert(scan_from(before, seqs@, kinds@, i as int) == (rest.0, seq![i as int] + rest.1));
                        assert(t_before + (seq![i as int] + rest.1) =~= t_before.push(i as int) + rest.1);
                    }
                }
            },
        }
        i = i + 1;
    }
    proof {
        if !done {
            assert(i == seqs@.len());
            assert(scan_from(*s, seqs@, kinds@, i as int) == (*s, Seq::<int>::empty()));
            assert(taken@.map_values(|x: usize| x as int) + Seq::<int>::empty() =~= taken@.map_values(|x: usize| x as int));
        }
        assert(taken@.map_values(|x: usize| x as int) == target.1);
        assert forall|k: int| 0 <= k < taken@.len() implies taken@[k] as int == #[trigger] target.1[k] by {
            assert(taken@.map_values(|x: usize| x as int)[k] == taken@[k] as int);
        }
    }
    s.db_has_more = has_more;
    taken
}

/// A round never takes more results than the search still wants, and takes
/// only matches, in the order the database gave them.
pub proof fn lemma_round_keeps_within_limit(s: SearchState, seqs: Seq<u64>, kinds: Seq<Candidate>, has_more: bool)
    requires
        continues(s),
        seqs.len() == kinds.len(),
        seqs.len() <= usize::MAX - MAX_TOTAL_SEARCHED,
    ensures
        round(s, seqs, kinds, has_more).0.matched <= s.wanted,
        round(s, seqs, kinds, has_more).0.matched == s.matched + round(s, seqs, kinds, has_more).1.len(),
        round(s, seqs, kinds, has_more).0.iterations == s.iterations + 1,
        forall|k: int| 0 <= k < round(s, seqs, kinds, has_more).1.len() ==>
            kinds[#[trigger] round(s, seqs, kinds, has_more).1[k]] == Candidate::Matched,
        forall|a: int, b: int| 0 <= a < b < round(s, seqs, kinds, has_more).1.len() ==>
            round(s, seqs, kinds, has_more).1[a] < round(s, seqs, kinds, has_more).1[b],
{
    let s0 = SearchState { iterations: (s.iterations + 1) as usize, ..s };
    if seqs.len() > 0 {
        lemma_scan_bounds(s0, seqs, kinds, 0);
        let r = scan_from(s0, seqs, kinds, 0);
        assert forall|k: int| 0 <= k < r.1.len() implies kinds[#[trigger] r.1[k]] == Candidate::Matched by {
            let p = r.1[k];
            assert(0 <= p < seqs.len() && kinds[p] == Candidate::Matched);
        }
    }
}

} // verus!

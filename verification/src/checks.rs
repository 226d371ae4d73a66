//! The matcher engine: the suite, stage and matcher definitions, and the
//! evaluation of a stage's matchers against the raw text its action
//! produced.
//!
//! Every matcher of a stage is evaluated, even after one has failed, so
//! that captures and extractions happen for all of them; the stage's
//! result is the conjunction of the matchers' results. Matchers read and
//! write the one backreference store of the suite run, in order.

use vstd::prelude::*;
use crate::ext::{
    groups_view, jmes_search, jmes_search_of, json_parse_of, named_view, opt_str_view,
    parse_json, regex_captures, regex_groups_of, regex_named_of, regex_valid, RegexOutcome,
};
use crate::json::{
    compare, json_eq, scalar_text, spec_is_subset, spec_json_eq, spec_scalar_text,
    lemma_subset_respects_content, JsonValue,
};
use crate::subst::{
    format_nested_variables, format_variables, lemma_substituted_unique, lemma_ws_end_bounds,
    model_insert, spec_is_ws, spec_subst, spec_substituted, spec_ws_end, str_to_chars, ws_end_at,
    Backreference, KeyView, Store,
};

verus! {

/// One check suite: a name and the stages run in order against one shared
/// backreference store.
pub struct CheckConfig {
    pub test_name: String,
    pub stages: Vec<CheckStage>,
}

/// One stage: an action to execute, matchers to hold against its output,
/// and retry and delay settings.
pub struct CheckStage {
    pub name: String,
    pub max_retries: u32,
    pub delay_before: Option<u64>,
    pub delay_after: Option<u64>,
    pub check: CheckCommand,
    pub matchers: Vec<StdoutMatcher>,
}

/// The action a stage executes: a shell command line, or an HTTP request.
pub enum CheckCommand {
    Shell(String),
    HttpRequest { url: String, headers: Vec<(String, String)>, method: String },
}

/// How a query result is held against the expected value.
pub enum Operation {
    Eq,
    Ne,
    Gt,
    Ge,
    Lt,
    Le,
}

/// One matcher against a stage's raw output.
pub enum StdoutMatcher {
    /// The output, trimmed of surrounding whitespace, equals this text.
    Exact { exact: String },
    /// The output matches this pattern, substituted from the store first;
    /// capture groups are stored as backreferences.
    Regex { regex: String },
    /// The output parses as JSON; the expected document, substituted from
    /// the store, must be a subset of it, and each query under `save`
    /// extracts a scalar into the store.
    Json { json: Option<JsonValue>, save: Option<Vec<(String, String)>> },
    /// A query evaluated against the output compares to the expected value.
    JmesPath { jmespath: String, operation: Operation, value: JsonValue },
}

/// Retry count used for a stage when the configuration names none.
pub fn default_retries() -> (r: u32)
    ensures
        r == 1,
{
    1
}

/// The text with trailing whitespace removed.
pub open spec fn spec_trim_back(s: Seq<char>) -> Seq<char>
    decreases s.len(),
{
    if s.len() == 0 {
        s
    } else if spec_is_ws(s[s.len() - 1]) {
        spec_trim_back(s.take(s.len() - 1))
    } else {
        s
    }
}

/// The text with leading and trailing whitespace removed.
pub open spec fn spec_trim(s: Seq<char>) -> Seq<char> {
    spec_trim_back(s.skip(spec_ws_end(s, 0)))
}

/// Removes leading and trailing whitespace.
#[verifier::loop_isolation(false)]
fn trim_chars(s: &Vec<char>) -> (r: Vec<char>)
    ensures
        r@ == spec_trim(s@),
{
    proof {
        lemma_ws_end_bounds(s@, 0);
    }
    let a = ws_end_at(s, 0);
    let ghost u = s@.skip(a as int);
    let mut e = s.len();
    proof {
        assert(u.take(e - a) =~= u);
    }
    while e > a && crate::subst::is_ws(s[e - 1])
        invariant
            a <= e <= s@.len(),
            spec_trim_back(u) == spec_trim_back(u.take(e - a)),
        decreases e,
    {
        proof {
            assert(u.take(e - a)[e - a - 1] == s@[e - 1]);
            assert(u.take(e - a).take(e - a - 1) =~= u.take(e - 1 - a));
        }
        e -= 1;
    }
    proof {
        if e == a {
            assert(u.take(0).len() == 0);
        } else {
            assert(u.take(e - a)[e - a - 1] == s@[e - 1]);
        }
    }
    let mut out: Vec<char> = Vec::new();
    let mut i = a;
    while i < e
        invariant
            a <= i <= e <= s@.len(),
            out@ == s@.subrange(a as int, i as int),
        decreases e - i,
    {
        out.push(s[i]);
        proof {
            assert(out@ =~= s@.subrange(a as int, i + 1 as int));
        }
        i += 1;
    }
    proof {
        assert(s@.subrange(a as int, e as int) =~= u.take(e - a));
    }
    out
}

/// Decides whether two texts are equal.
#[verifier::loop_isolation(false)]
fn chars_eq(a: &Vec<char>, b: &Vec<char>) -> (r: bool)
    ensures
        r == (a@ == b@),
{
    if a.len() != b.len() {
        return false;
    }
    let mut i: usize = 0;
    while i < a.len()
        invariant
            i <= a@.len(),
            a@.len() == b@.len(),
            forall|q: int| 0 <= q < i ==> a@[q] == b@[q],
        decreases a@.len() - i,
    {
        if a[i] != b[i] {
            return false;
        }
        i += 1;
    }
    proof {
        assert(a@ =~= b@);
    }
    true
}

/// The store after filing the numbered capture groups from `i` on: each
/// group that took part in the match is stored under its position.
pub open spec fn spec_store_groups(
    st: Seq<(KeyView, Seq<char>)>,
    gs: Seq<Option<Seq<char>>>,
    i: int,
) -> Seq<(KeyView, Seq<char>)>
    decreases gs.len() - i,
{
    if i < 0 || i >= gs.len() {
        st
    } else {
        let st2 = match gs[i] {
            Some(v) => model_insert(st, KeyView::Numbered(i as nat), v),
            None => st,
        };
        spec_store_groups(st2, gs, i + 1)
    }
}

/// The store after filing the named capture groups from `i` on: each name
/// that took part in the match is stored under that name.
pub open spec fn spec_store_named(
    st: Seq<(KeyView, Seq<char>)>,
    ns: Seq<(Seq<char>, Option<Seq<char>>)>,
    i: int,
) -> Seq<(KeyView, Seq<char>)>
    decreases ns.len() - i,
{
    if i < 0 || i >= ns.len() {
        st
    } else {
        let st2 = match ns[i].1 {
            Some(v) => model_insert(st, KeyView::Named(ns[i].0), v),
            None => st,
        };
        spec_store_named(st2, ns, i + 1)
    }
}

/// Files the numbered capture groups of one regex match into the store.
#[verifier::loop_isolation(false)]
fn apply_groups(saved: &mut Store, gs: &Vec<Option<String>>)
    ensures
        final(saved)@ == spec_store_groups(old(saved)@, groups_view(gs@), 0),
{
    let ghost g = groups_view(gs@);
    let mut i: usize = 0;
    while i < gs.len()
        invariant
            i <= gs@.len(),
            spec_store_groups(old(saved)@, g, 0) == spec_store_groups(saved@, g, i as int),
        decreases gs@.len() - i,
    {
        proof {
            assert(g[i as int] == opt_str_view(gs@[i as int]));
        }
        match &gs[i] {
            Some(v) => {
                saved.insert(Backreference::Numbered(i), v.clone());
            },
            None => {},
        }
        i += 1;
    }
}

/// Files the named capture groups of one regex match into the store.
#[verifier::loop_isolation(false)]
fn apply_named(saved: &mut Store, ns: &Vec<(String, Option<String>)>)
    ensures
        final(saved)@ == spec_store_named(old(saved)@, named_view(ns@), 0),
{
    let ghost n = named_view(ns@);
    let mut i: usize = 0;
    while i < ns.len()
        invariant
            i <= ns@.len(),
            spec_store_named(old(saved)@, n, 0) == spec_store_named(saved@, n, i as int),
        decreases ns@.len() - i,
    {
        proof {
            assert(n[i as int] == (ns@[i as int].0@, opt_str_view(ns@[i as int].1)));
        }
        match &ns[i].1 {
            Some(v) => {
                saved.insert(Backreference::Named(ns[i].0.clone()), v.clone());
            },
            None => {},
        }
        i += 1;
    }
}

/// The result and store effect of the extractions from `i` on: each query
/// must yield a scalar, whose text is stored under the extraction key;
/// extraction stops at the first query that fails or yields a non-scalar,
/// and the matcher then fails.
pub open spec fn spec_save_fold(
    sv: Seq<(String, String)>,
    out: Seq<char>,
    st: Seq<(KeyView, Seq<char>)>,
    i: int,
) -> (bool, Seq<(KeyView, Seq<char>)>)
    decreases sv.len() - i,
{
    if i < 0 || i >= sv.len() {
        (true, st)
    } else {
        match jmes_search_of(sv[i].1@, out) {
            None => (false, st),
            Some(v) => match spec_scalar_text(v) {
                None => (false, st),
                Some(txt) => spec_save_fold(
                    sv,
                    out,
                    model_insert(st, KeyView::Named(sv[i].0@), txt),
                    i + 1,
                ),
            },
        }
    }
}

/// Runs the extraction queries of a `Json` matcher against the raw output.
#[verifier::loop_isolation(false)]
fn apply_saves(saved: &mut Store, sv: &Vec<(String, String)>, output: &str) -> (ok: bool)
    ensures
        ({
            let r = spec_save_fold(sv@, output@, old(saved)@, 0);
            ok == r.0 && final(saved)@ == r.1
        }),
{
    let mut i: usize = 0;
    while i < sv.len()
        invariant
            i <= sv@.len(),
            spec_save_fold(sv@, output@, old(saved)@, 0) == spec_save_fold(
                sv@,
                output@,
                saved@,
                i as int,
            ),
        decreases sv@.len() - i,
    {
        match jmes_search(sv[i].1.as_str(), output) {
            None => {
                return false;
            },
            Some(v) => match scalar_text(&v) {
                None => {
                    return false;
                },
                Some(txt) => {
                    saved.insert(Backreference::Named(sv[i].0.clone()), txt);
                },
            },
        }
        i += 1;
    }
    true
}

/// Whether the expected document, substituted from the store, is a subset
/// of the parsed output.
pub open spec fn spec_json_expected_ok(
    e: JsonValue,
    parsed: JsonValue,
    st: Seq<(KeyView, Seq<char>)>,
) -> bool {
    exists|e2: JsonValue| #[trigger] spec_substituted(e, e2, st) && spec_is_subset(e2, parsed)
}

/// Whether a query result stands in the given relation to the expected
/// value: `Eq` is structural equality of documents; the other operations
/// compare numbers and fail on anything else.
pub open spec fn spec_op_eval(op: Operation, a: JsonValue, b: JsonValue) -> bool {
    match op {
        Operation::Eq => spec_json_eq(a, b),
        _ => match (a, b) {
            (JsonValue::Int(x), JsonValue::Int(y)) => match op {
                Operation::Ne => x != y,
                Operation::Gt => x > y,
                Operation::Ge => x >= y,
                Operation::Lt => x < y,
                Operation::Le => x <= y,
                Operation::Eq => x == y,
            },
            _ => false,
        },
    }
}

/// Decides `spec_op_eval`.
fn op_eval(op: &Operation, a: &JsonValue, b: &JsonValue) -> (r: bool)
    ensures
        r == spec_op_eval(*op, *a, *b),
{
    match op {
        Operation::Eq => json_eq(a, b),
        _ => match a {
            JsonValue::Int(x) => match b {
                JsonValue::Int(y) => match op {
                    Operation::Ne => *x != *y,
                    Operation::Gt => *x > *y,
                    Operation::Ge => *x >= *y,
                    Operation::Lt => *x < *y,
                    Operation::Le => *x <= *y,
                    Operation::Eq => *x == *y,
                },
                _ => false,
            },
            _ => false,
        },
    }
}

/// The result of one matcher against the raw output, and the store it
/// leaves behind.
pub open spec fn spec_matcher_eval(
    mt: StdoutMatcher,
    out: Seq<char>,
    st: Seq<(KeyView, Seq<char>)>,
) -> (bool, Seq<(KeyView, Seq<char>)>) {
    match mt {
        StdoutMatcher::Exact { exact } => (spec_trim(out) == exact@, st),
        StdoutMatcher::Regex { regex } => {
            let p = spec_subst(regex@, st);
            if !regex_valid(p) {
                (false, st)
            } else {
                match regex_groups_of(p, out) {
                    None => (false, st),
                    Some(gs) => (
                        true,
                        spec_store_named(spec_store_groups(st, gs, 0), regex_named_of(p, out), 0),
                    ),
                }
            }
        },
        StdoutMatcher::Json { json, save } => {
            match json_parse_of(out) {
                None => (false, st),
                Some(parsed) => {
                    let ok1 = match json {
                        Some(e) => spec_json_expected_ok(e, parsed, st),
                        None => true,
                    };
                    let rs = match save {
                        Some(sv) => spec_save_fold(sv@, out, st, 0),
                        None => (true, st),
                    };
                    (ok1 && rs.0, rs.1)
                },
            }
        },
        StdoutMatcher::JmesPath { jmespath, operation, value } => {
            match jmes_search_of(jmespath@, out) {
                None => (false, st),
                Some(v) => (spec_op_eval(operation, v, value), st),
            }
        },
    }
}

/// Evaluates one matcher, filing its captures and extractions.
#[verifier::loop_isolation(false)]
fn check_matcher(mt: &StdoutMatcher, output: &str, saved: &mut Store) -> (r: bool)
    ensures
        ({
            let res = spec_matcher_eval(*mt, output@, old(saved)@);
            r == res.0 && final(saved)@ == res.1
        }),
{
    match mt {
        StdoutMatcher::Exact { exact } => {
            let oc = str_to_chars(output);
            let tc = trim_chars(&oc);
            let ec = str_to_chars(exact.as_str());
            chars_eq(&tc, &ec)
        },
        StdoutMatcher::Regex { regex } => {
            let p = format_variables(regex.as_str(), saved);
            match regex_captures(p.as_str(), output) {
                RegexOutcome::Invalid => false,
                RegexOutcome::NoMatch => false,
                RegexOutcome::Match(c) => {
                    apply_groups(saved, &c.groups);
                    apply_named(saved, &c.named);
                    true
                },
            }
        },
        StdoutMatcher::Json { json, save } => {
            match parse_json(output) {
                None => false,
                Some(parsed) => {
                    let ghost st = saved@;
                    let ok1 = match json {
                        Some(e) => {
                            let e2 = format_nested_variables(e, saved);
                            let c = compare(&e2, &parsed);
                            proof {
                                if !c {
                                    assert forall|e2p: JsonValue| !(#[trigger] spec_substituted(
                                        *e,
                                        e2p,
                                        st,
                                    ) && spec_is_subset(e2p, parsed)) by {
                                        if spec_substituted(*e, e2p, st) {
                                            lemma_substituted_unique(*e, e2, e2p, st);
                                            lemma_subset_respects_content(e2, e2p, parsed);
                                        }
                                    }
                                }
                            }
                            c
                        },
                        None => true,
                    };
                    let ok2 = match save {
                        Some(sv) => apply_saves(saved, sv, output),
                        None => true,
                    };
                    ok1 && ok2
                },
            }
        },
        StdoutMatcher::JmesPath { jmespath, operation, value } => {
            match jmes_search(jmespath.as_str(), output) {
                None => false,
                Some(v) => op_eval(operation, &v, value),
            }
        },
    }
}

/// The result of all matchers from `i` on, and the store they leave: each
/// matcher runs against the same raw output and the store its predecessors
/// left, and the result is the conjunction.
pub open spec fn spec_matchers_fold(
    ms: Seq<StdoutMatcher>,
    out: Seq<char>,
    st: Seq<(KeyView, Seq<char>)>,
    i: int,
) -> (bool, Seq<(KeyView, Seq<char>)>)
    decreases ms.len() - i,
{
    if i < 0 || i >= ms.len() {
        (true, st)
    } else {
        let r1 = spec_matcher_eval(ms[i], out, st);
        let r2 = spec_matchers_fold(ms, out, r1.1, i + 1);
        (r1.0 && r2.0, r2.1)
    }
}

/// Evaluates every matcher of a stage against the raw output, in order,
/// even after one has failed, filing captures and extractions into the
/// store; the stage matches when all matchers passed.
#[verifier::loop_isolation(false)]
#[allow(unused_variables)]
pub fn check_stdout(stage: &CheckStage, test_name: &str, output: &str, saved: &mut Store) -> (r:
    bool)
    ensures
        ({
            let res = spec_matchers_fold(stage.matchers@, output@, old(saved)@, 0);
            r == res.0 && final(saved)@ == res.1
        }),
{
    let mut combined = true;
    let mut i: usize = 0;
    while i < stage.matchers.len()
        invariant
            i <= stage.matchers@.len(),
            ({
                let res0 = spec_matchers_fold(stage.matchers@, output@, old(saved)@, 0);
                let resi = spec_matchers_fold(stage.matchers@, output@, saved@, i as int);
                res0.0 == (combined && resi.0) && res0.1 == resi.1
            }),
        decreases stage.matchers@.len() - i,
    {
        let r = check_matcher(&stage.matchers[i], output, saved);
        combined = combined && r;
        i += 1;
    }
    combined
}

} // verus!

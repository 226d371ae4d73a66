//! Trusted boundary: the outside functions the engine calls, each behind a
//! wrapper whose contract states only what the call's documentation and
//! source promise. Results that are functions of the arguments alone but
//! have no short statement (a regex match, a JSON parse, a query search)
//! are given names (`uninterp spec fn`); the verified code reasons over
//! those names and the tests run the real crates.

use vstd::prelude::*;
use crate::json::JsonValue;

verus! {

/// Relies on `String: FromIterator<char>`: collecting characters in order
/// yields exactly that text.
#[verifier::external_body]
pub(crate) fn chars_to_string(v: &Vec<char>) -> (r: String)
    ensures
        r@ == v@,
{
    v.iter().collect()
}

/// Whether `p` is a valid regular expression, as `regex::Regex::new`
/// decides it.
pub uninterp spec fn regex_valid(p: Seq<char>) -> bool;

/// The capture groups of the leftmost match of `p` in `t`, group 0 being
/// the whole match: `None` when the pattern does not match, otherwise one
/// entry per group, absent for groups that took no part in the match.
pub uninterp spec fn regex_groups_of(p: Seq<char>, t: Seq<char>) -> Option<
    Seq<Option<Seq<char>>>,
>;

/// The named capture groups of the leftmost match of `p` in `t`: each
/// group's name with its captured text, absent for names that took no part
/// in the match.
pub uninterp spec fn regex_named_of(p: Seq<char>, t: Seq<char>) -> Seq<
    (Seq<char>, Option<Seq<char>>),
>;

/// What one capture group read, if it took part in the match.
pub open spec fn opt_str_view(o: Option<String>) -> Option<Seq<char>> {
    match o {
        Some(s) => Some(s@),
        None => None,
    }
}

/// The texts of a list of capture groups.
pub open spec fn groups_view(g: Seq<Option<String>>) -> Seq<Option<Seq<char>>> {
    g.map_values(|o: Option<String>| opt_str_view(o))
}

/// The names and texts of a list of named capture groups.
pub open spec fn named_view(n: Seq<(String, Option<String>)>) -> Seq<
    (Seq<char>, Option<Seq<char>>),
> {
    n.map_values(|p: (String, Option<String>)| (p.0@, opt_str_view(p.1)))
}

/// The capture groups of one regex match.
pub struct RegexCaptures {
    /// Group texts by position; group 0 is the whole match.
    pub groups: Vec<Option<String>>,
    /// Each named group's name, with its text when it participated.
    pub named: Vec<(String, Option<String>)>,
}

/// What searching a text for a pattern can come to.
pub enum RegexOutcome {
    /// The pattern is not a valid regular expression.
    Invalid,
    /// The pattern matches nowhere in the text.
    NoMatch,
    /// The pattern matches, with these captures.
    Match(RegexCaptures),
}

/// Relies on `regex::Regex::new`, `Regex::captures` and
/// `Regex::capture_names`: compiling `p` and finding the leftmost match in
/// `t` with its capture groups; all three depend on their text arguments
/// alone.
#[verifier::external_body]
pub(crate) fn regex_captures(p: &str, t: &str) -> (r: RegexOutcome)
    ensures
        (r is Invalid) == !regex_valid(p@),
        regex_valid(p@) ==> ((r is NoMatch) == (regex_groups_of(p@, t@) is None)),
        (match r {
            RegexOutcome::Match(c) => regex_groups_of(p@, t@) == Some(groups_view(c.groups@))
                && regex_named_of(p@, t@) == named_view(c.named@),
            _ => true,
        }),
{
    match regex::Regex::new(p) {
        Err(_) => RegexOutcome::Invalid,
        Ok(re) => match re.captures(t) {
            None => RegexOutcome::NoMatch,
            Some(c) => {
                let groups = c.iter().map(|m| m.map(|x| x.as_str().to_string())).collect();
                let named = re.capture_names().flatten().map(|n| (n.to_string(), c.name(n).map(|m| m.as_str().to_string()))).collect();
                RegexOutcome::Match(RegexCaptures { groups, named })
            },
        },
    }
}

#[verifier::external_type_specification]
#[verifier::external_body]
pub struct ExSerdeValue(serde_json::Value);

/// The document that `s` denotes as JSON text, with numbers narrowed to
/// signed 64-bit integers: `None` when `s` is not valid JSON or holds a
/// number no `i64` can carry.
pub uninterp spec fn json_parse_of(s: Seq<char>) -> Option<JsonValue>;

/// Relies on `serde_json::from_str`: the parse result depends on the text
/// alone.
#[verifier::external_body]
pub(crate) fn parse_json(s: &str) -> (r: Option<JsonValue>)
    ensures
        r == json_parse_of(s@),
{
    serde_json::from_str::<serde_json::Value>(s).ok().and_then(serde_value_to_json)
}

/// Relies on `serde_json::Value` and `serde_json::Number::as_i64`: rebuilds
/// the parsed tree one variant at a time; `as_i64` is `Some` exactly for
/// integers an `i64` can carry.
#[verifier::external_body]
fn serde_value_to_json(v: serde_json::Value) -> (r: Option<JsonValue>) {
    match v {
        serde_json::Value::Null => Some(JsonValue::Null),
        serde_json::Value::Bool(b) => Some(JsonValue::Bool(b)),
        serde_json::Value::Number(n) => n.as_i64().map(JsonValue::Int),
        serde_json::Value::String(s) => Some(JsonValue::Text(s)),
        serde_json::Value::Array(a) => a.into_iter().map(serde_value_to_json).collect::<Option<Vec<_>>>().map(JsonValue::Array),
        serde_json::Value::Object(o) => o.into_iter().map(|(k, x)| serde_value_to_json(x).map(|j| (k, j))).collect::<Option<Vec<_>>>().map(JsonValue::Object),
    }
}

#[verifier::external_type_specification]
#[verifier::external_body]
pub struct ExJmesVariable(jmespath::Variable);

/// The result of evaluating the query `e` against the JSON text `doc`,
/// with numbers narrowed to signed 64-bit integers: `None` when `e` does
/// not compile, `doc` is not valid JSON, the search fails, or the result
/// holds what no `i64` can carry.
pub uninterp spec fn jmes_search_of(e: Seq<char>, doc: Seq<char>) -> Option<JsonValue>;

/// Relies on `jmespath::compile`, `jmespath::Variable::from_json` and
/// `Expression::search`: compiling the query and evaluating it against the
/// parsed document; all three depend on their text arguments alone.
#[verifier::external_body]
pub(crate) fn jmes_search(e: &str, doc: &str) -> (r: Option<JsonValue>)
    ensures
        r == jmes_search_of(e@, doc@),
{
    let expr = match jmespath::compile(e) {
        Ok(x) => x,
        Err(_) => return None,
    };
    let data = match jmespath::Variable::from_json(doc) {
        Ok(d) => d,
        Err(_) => return None,
    };
    match expr.search(data) {
        Ok(v) => jmes_variable_to_json(&v),
        Err(_) => None,
    }
}

/// Relies on `jmespath::Variable` and `serde_json::Number::as_i64`:
/// rebuilds the result tree one variant at a time; an expression reference
/// is no JSON value and yields `None`.
#[verifier::external_body]
fn jmes_variable_to_json(v: &jmespath::Variable) -> (r: Option<JsonValue>) {
    match v {
        jmespath::Variable::Null => Some(JsonValue::Null),
        jmespath::Variable::Bool(b) => Some(JsonValue::Bool(*b)),
        jmespath::Variable::Number(n) => n.as_i64().map(JsonValue::Int),
        jmespath::Variable::String(s) => Some(JsonValue::Text(s.clone())),
        jmespath::Variable::Array(a) => a.iter().map(|x| jmes_variable_to_json(x)).collect::<Option<Vec<_>>>().map(JsonValue::Array),
        jmespath::Variable::Object(o) => o.iter().map(|(k, x)| jmes_variable_to_json(x).map(|j| (k.clone(), j))).collect::<Option<Vec<_>>>().map(JsonValue::Object),
        _ => None,
    }
}

} // verus!

//! A model of JSON documents and the structural subset relation used by the
//! matcher engine.
//!
//! A document is a tree of `JsonValue` nodes. Numbers are modelled as signed
//! 64-bit integers; an object is an ordered list of key/value pairs. The
//! subset relation `spec_is_subset` is positional for arrays and
//! key-tolerant for objects: the actual document may carry extra trailing
//! array elements and extra object keys.

use vstd::prelude::*;

verus! {

/// A JSON document: null, boolean, integer, string, array, or object.
pub enum JsonValue {
    Null,
    Bool(bool),
    Int(i64),
    Text(String),
    Array(Vec<JsonValue>),
    Object(Vec<(String, JsonValue)>),
}

/// The value under the first entry of `y` whose key reads `k`, if any.
pub open spec fn spec_obj_lookup(y: Seq<(String, JsonValue)>, k: Seq<char>) -> Option<JsonValue>
    decreases y.len(),
{
    if y.len() == 0 {
        None
    } else if y[0].0@ == k {
        Some(y[0].1)
    } else {
        spec_obj_lookup(y.skip(1), k)
    }
}

/// `a` is a structural subset of `b`: scalars must be equal, arrays are
/// compared positionally with extra trailing elements of `b` ignored, and
/// every key of an object `a` must appear in `b` with a subset value.
pub open spec fn spec_is_subset(a: JsonValue, b: JsonValue) -> bool
    decreases a, 0int,
{
    match (a, b) {
        (JsonValue::Null, JsonValue::Null) => true,
        (JsonValue::Bool(x), JsonValue::Bool(y)) => x == y,
        (JsonValue::Int(x), JsonValue::Int(y)) => x == y,
        (JsonValue::Text(x), JsonValue::Text(y)) => x@ == y@,
        (JsonValue::Array(x), JsonValue::Array(y)) => x@.len() <= y@.len()
            && spec_arr_subset(x@, y@, 0),
        (JsonValue::Object(x), JsonValue::Object(y)) => x@.len() <= y@.len()
            && spec_obj_subset(x@, y@, 0),
        _ => false,
    }
}

/// Every element of `x` from index `i` on is a subset of the element of `y`
/// at the same position.
pub open spec fn spec_arr_subset(x: Seq<JsonValue>, y: Seq<JsonValue>, i: int) -> bool
    decreases x, x.len() - i,
{
    if i < 0 || i >= x.len() {
        true
    } else {
        (i < y.len() && spec_is_subset(x[i], y[i])) && spec_arr_subset(x, y, i + 1)
    }
}

/// Every entry of `x` from index `i` on has its key present in `y` with a
/// subset value.
pub open spec fn spec_obj_subset(
    x: Seq<(String, JsonValue)>,
    y: Seq<(String, JsonValue)>,
    i: int,
) -> bool
    decreases x, x.len() - i,
{
    if i < 0 || i >= x.len() {
        true
    } else {
        (match spec_obj_lookup(y, x[i].0@) {
            Some(v) => spec_is_subset(x[i].1, v),
            None => false,
        }) && spec_obj_subset(x, y, i + 1)
    }
}

/// Finds the value stored in `y` under key `k`, taking the first entry when
/// a key repeats.
pub fn obj_get<'a>(y: &'a Vec<(String, JsonValue)>, k: &String) -> (r: Option<&'a JsonValue>)
    ensures
        match r {
            Some(v) => spec_obj_lookup(y@, k@) == Some(*v),
            None => spec_obj_lookup(y@, k@) is None,
        },
{
    proof {
        assert(y@.skip(0) =~= y@);
    }
    let mut j: usize = 0;
    while j < y.len()
        invariant
            j <= y.len(),
            spec_obj_lookup(y@, k@) == spec_obj_lookup(y@.skip(j as int), k@),
        decreases y.len() - j,
    {
        proof {
            assert(y@.skip(j as int)[0] == y@[j as int]);
            assert(y@.skip(j as int).skip(1) =~= y@.skip(j as int + 1));
        }
        if y[j].0 == *k {
            return Some(&y[j].1);
        }
        j += 1;
    }
    proof {
        assert(y@.skip(j as int).len() == 0);
    }
    None
}

/// Decides the structural subset relation between two documents.
pub fn compare(a: &JsonValue, b: &JsonValue) -> (r: bool)
    ensures
        r == spec_is_subset(*a, *b),
    decreases *a,
{
    match a {
        JsonValue::Null => match b {
            JsonValue::Null => true,
            _ => false,
        },
        JsonValue::Bool(x) => match b {
            JsonValue::Bool(y) => *x == *y,
            _ => false,
        },
        JsonValue::Int(x) => match b {
            JsonValue::Int(y) => *x == *y,
            _ => false,
        },
        JsonValue::Text(x) => match b {
            JsonValue::Text(y) => *x == *y,
            _ => false,
        },
        JsonValue::Array(x) => match b {
            JsonValue::Array(y) => {
            if x.len() > y.len() {
                return false;
            }
            let mut i: usize = 0;
            while i < x.len()
                invariant
                    i <= x@.len() <= y@.len(),
                    *a == JsonValue::Array(*x),
                    *b == JsonValue::Array(*y),
                    spec_arr_subset(x@, y@, 0) == spec_arr_subset(x@, y@, i as int),
                decreases x@.len() - i,
            {
                proof {
                    assert(*x == a->Array_0);
                    assert(decreases_to!(*a => a->Array_0));
                    assert(decreases_to!(a->Array_0 => a->Array_0@[i as int]));
                }
                if !compare(&x[i], &y[i]) {
                    return false;
                }
                i += 1;
            }
            true
            },
            _ => false,
        },
        JsonValue::Object(x) => match b {
            JsonValue::Object(y) => {
            if x.len() > y.len() {
                return false;
            }
            let mut i: usize = 0;
            while i < x.len()
                invariant
                    i <= x@.len() <= y@.len(),
                    *a == JsonValue::Object(*x),
                    *b == JsonValue::Object(*y),
                    spec_obj_subset(x@, y@, 0) == spec_obj_subset(x@, y@, i as int),
                decreases x@.len() - i,
            {
                proof {
                    assert(*x == a->Object_0);
                    assert(decreases_to!(*a => a->Object_0));
                    assert(decreases_to!(a->Object_0 => a->Object_0@[i as int]));
                    assert(decreases_to!(a->Object_0@[i as int] => a->Object_0@[i as int].1));
                }
                match obj_get(y, &x[i].0) {
                    Some(v) => {
                        if !compare(&x[i].1, v) {
                            return false;
                        }
                    },
                    None => {
                        return false;
                    },
                }
                i += 1;
            }
            true
            },
            _ => false,
        },
    }
}

/// Two documents are structurally equal when each is a subset of the other.
pub open spec fn spec_json_eq(a: JsonValue, b: JsonValue) -> bool {
    spec_is_subset(a, b) && spec_is_subset(b, a)
}

/// Decides structural equality of two documents. Object key order is
/// irrelevant; array element order is not.
pub fn json_eq(a: &JsonValue, b: &JsonValue) -> (r: bool)
    ensures
        r == spec_json_eq(*a, *b),
{
    compare(a, b) && compare(b, a)
}

/// No two entries of an object carry the same key.
pub open spec fn obj_keys_distinct(x: Seq<(String, JsonValue)>) -> bool {
    forall|p: int, q: int| 0 <= p < q < x.len() ==> x[p].0@ != x[q].0@
}

/// A well-formed document: every object in the tree has distinct keys, as
/// any document read from JSON text does.
pub open spec fn wf_json(v: JsonValue) -> bool
    decreases v, 0int,
{
    match v {
        JsonValue::Array(x) => wf_arr(x@, 0),
        JsonValue::Object(x) => obj_keys_distinct(x@) && wf_obj(x@, 0),
        _ => true,
    }
}

/// Every element of `x` from index `i` on is well formed.
pub open spec fn wf_arr(x: Seq<JsonValue>, i: int) -> bool
    decreases x, x.len() - i,
{
    if i < 0 || i >= x.len() {
        true
    } else {
        wf_json(x[i]) && wf_arr(x, i + 1)
    }
}

/// Every value of `x` from index `i` on is well formed.
pub open spec fn wf_obj(x: Seq<(String, JsonValue)>, i: int) -> bool
    decreases x, x.len() - i,
{
    if i < 0 || i >= x.len() {
        true
    } else {
        wf_json(x[i].1) && wf_obj(x, i + 1)
    }
}

/// Under distinct keys, looking an entry's own key up finds that entry.
proof fn lemma_lookup_own_key(y: Seq<(String, JsonValue)>, i: int)
    requires
        0 <= i < y.len(),
        obj_keys_distinct(y),
    ensures
        spec_obj_lookup(y, y[i].0@) == Some(y[i].1),
    decreases y.len(),
{
    if y[0].0@ != y[i].0@ {
        assert(forall|p: int, q: int|
            0 <= p < q < y.skip(1).len() ==> y.skip(1)[p] == y[p + 1] && y.skip(1)[q] == y[q + 1]);
        assert(y.skip(1)[i - 1] == y[i]);
        lemma_lookup_own_key(y.skip(1), i - 1);
    }
}

/// The subset relation is reflexive on well-formed documents.
pub proof fn lemma_subset_reflexive(v: JsonValue)
    requires
        wf_json(v),
    ensures
        spec_is_subset(v, v),
    decreases v, 0int,
{
    match v {
        JsonValue::Array(x) => {
            lemma_arr_subset_reflexive(x@, 0);
        },
        JsonValue::Object(x) => {
            lemma_obj_subset_reflexive(x@, 0);
        },
        _ => {},
    }
}

proof fn lemma_arr_subset_reflexive(x: Seq<JsonValue>, i: int)
    requires
        wf_arr(x, i),
    ensures
        spec_arr_subset(x, x, i),
    decreases x, x.len() - i,
{
    if 0 <= i < x.len() {
        lemma_subset_reflexive(x[i]);
        lemma_arr_subset_reflexive(x, i + 1);
    }
}

proof fn lemma_obj_subset_reflexive(x: Seq<(String, JsonValue)>, i: int)
    requires
        obj_keys_distinct(x),
        wf_obj(x, i),
    ensures
        spec_obj_subset(x, x, i),
    decreases x, x.len() - i,
{
    if 0 <= i < x.len() {
        lemma_lookup_own_key(x, i);
        lemma_subset_reflexive(x[i].1);
        lemma_obj_subset_reflexive(x, i + 1);
    }
}

/// The textual form of a scalar document, as captured values are stored:
/// `null`, `true`/`false`, a decimal integer, or the string itself. An
/// array or object has none.
pub open spec fn spec_scalar_text(v: JsonValue) -> Option<Seq<char>> {
    match v {
        JsonValue::Null => Some("null"@),
        JsonValue::Bool(b) => Some(if b { "true"@ } else { "false"@ }),
        JsonValue::Int(n) => Some(crate::num::spec_int_str(n as int)),
        JsonValue::Text(s) => Some(s@),
        _ => None,
    }
}

/// Writes a scalar document as text; an array or object yields `None`.
pub fn scalar_text(v: &JsonValue) -> (r: Option<String>)
    ensures
        match r {
            Some(s) => spec_scalar_text(*v) == Some(s@),
            None => spec_scalar_text(*v) is None,
        },
{
    match v {
        JsonValue::Null => Some(String::from_str("null")),
        JsonValue::Bool(b) => Some(
            if *b {
                String::from_str("true")
            } else {
                String::from_str("false")
            },
        ),
        JsonValue::Int(n) => {
            let w = crate::num::i64_dec_chars(*n);
            Some(crate::ext::chars_to_string(&w))
        },
        JsonValue::Text(s) => Some(s.clone()),
        _ => None,
    }
}

/// Two documents carry the same content: the same shape, with string
/// leaves and keys equal as text.
pub open spec fn spec_jv_eq(a: JsonValue, b: JsonValue) -> bool
    decreases a, 0int,
{
    match (a, b) {
        (JsonValue::Null, JsonValue::Null) => true,
        (JsonValue::Bool(x), JsonValue::Bool(y)) => x == y,
        (JsonValue::Int(x), JsonValue::Int(y)) => x == y,
        (JsonValue::Text(x), JsonValue::Text(y)) => x@ == y@,
        (JsonValue::Array(x), JsonValue::Array(y)) => x@.len() == y@.len() && spec_arr_jv_eq(
            x@,
            y@,
            0,
        ),
        (JsonValue::Object(x), JsonValue::Object(y)) => x@.len() == y@.len() && spec_obj_jv_eq(
            x@,
            y@,
            0,
        ),
        _ => false,
    }
}

/// Elementwise content equality from index `i` on.
pub open spec fn spec_arr_jv_eq(x: Seq<JsonValue>, y: Seq<JsonValue>, i: int) -> bool
    decreases x, x.len() - i,
{
    if i < 0 || i >= x.len() {
        true
    } else {
        (i < y.len() && spec_jv_eq(x[i], y[i])) && spec_arr_jv_eq(x, y, i + 1)
    }
}

/// Entrywise content equality of keys and values from index `i` on.
pub open spec fn spec_obj_jv_eq(
    x: Seq<(String, JsonValue)>,
    y: Seq<(String, JsonValue)>,
    i: int,
) -> bool
    decreases x, x.len() - i,
{
    if i < 0 || i >= x.len() {
        true
    } else {
        (i < y.len() && x[i].0@ == y[i].0@ && spec_jv_eq(x[i].1, y[i].1)) && spec_obj_jv_eq(
            x,
            y,
            i + 1,
        )
    }
}

/// Documents with the same content stand in the subset relation to the
/// same documents.
pub proof fn lemma_subset_respects_content(a1: JsonValue, a2: JsonValue, b: JsonValue)
    requires
        spec_jv_eq(a1, a2),
    ensures
        spec_is_subset(a1, b) == spec_is_subset(a2, b),
    decreases a1, 0int,
{
    match (a1, a2) {
        (JsonValue::Array(x1), JsonValue::Array(x2)) => {
            match b {
                JsonValue::Array(y) => {
                    lemma_arr_subset_respects_content(x1@, x2@, y@, 0);
                },
                _ => {},
            }
        },
        (JsonValue::Object(x1), JsonValue::Object(x2)) => {
            match b {
                JsonValue::Object(y) => {
                    lemma_obj_subset_respects_content(x1@, x2@, y@, 0);
                },
                _ => {},
            }
        },
        _ => {},
    }
}

proof fn lemma_arr_subset_respects_content(
    x1: Seq<JsonValue>,
    x2: Seq<JsonValue>,
    y: Seq<JsonValue>,
    i: int,
)
    requires
        x1.len() == x2.len(),
        spec_arr_jv_eq(x1, x2, i),
    ensures
        spec_arr_subset(x1, y, i) == spec_arr_subset(x2, y, i),
    decreases x1, x1.len() - i,
{
    if 0 <= i < x1.len() {
        if i < y.len() {
            lemma_subset_respects_content(x1[i], x2[i], y[i]);
        }
        lemma_arr_subset_respects_content(x1, x2, y, i + 1);
    }
}

proof fn lemma_obj_subset_respects_content(
    x1: Seq<(String, JsonValue)>,
    x2: Seq<(String, JsonValue)>,
    y: Seq<(String, JsonValue)>,
    i: int,
)
    requires
        x1.len() == x2.len(),
        spec_obj_jv_eq(x1, x2, i),
    ensures
        spec_obj_subset(x1, y, i) == spec_obj_subset(x2, y, i),
    decreases x1, x1.len() - i,
{
    if 0 <= i < x1.len() {
        assert(x1[i].0@ == x2[i].0@);
        match spec_obj_lookup(y, x1[i].0@) {
            Some(v) => {
                lemma_subset_respects_content(x1[i].1, x2[i].1, v);
            },
            None => {},
        }
        lemma_obj_subset_respects_content(x1, x2, y, i + 1);
    }
}

} // verus!

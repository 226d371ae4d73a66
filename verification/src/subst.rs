//! Variable substitution: replacing `{{ name }}` and `{{ 0 }}` placeholders
//! in a template with values captured by earlier stages.
//!
//! The backreference store keeps its entries in insertion order, and the
//! template is scanned once from the left: at each position the first entry
//! whose placeholder begins there is substituted, and replacement text is
//! never scanned again. The result is therefore deterministic for a fixed
//! store, and a template that names no stored key is left unchanged.
//!
//! Contracts speak of the store through its model: the sequence of key and
//! value texts, in insertion order (`store_model`).

use vstd::prelude::*;
use crate::ext::chars_to_string;
use crate::json::JsonValue;
use crate::num::{spec_dec_str, usize_dec_chars};

verus! {

/// A key under which a captured value is stored: a named capture or
/// extraction key, or the position of a regex capture group.
pub enum Backreference {
    Named(String),
    Numbered(usize),
}

/// The mathematical shape of a key: its name's text, or its index.
pub enum KeyView {
    Named(Seq<char>),
    Numbered(nat),
}

/// The model of one key.
pub open spec fn spec_key_view(b: Backreference) -> KeyView {
    match b {
        Backreference::Named(n) => KeyView::Named(n@),
        Backreference::Numbered(i) => KeyView::Numbered(i as nat),
    }
}

/// The model of a store: each entry's key and value text, in order.
pub open spec fn store_model(es: Seq<(Backreference, String)>) -> Seq<(KeyView, Seq<char>)> {
    es.map_values(|e: (Backreference, String)| (spec_key_view(e.0), e.1@))
}

/// The index of the first entry under key `k`, if any.
pub open spec fn model_key_index(m: Seq<(KeyView, Seq<char>)>, k: KeyView) -> Option<int>
    decreases m.len(),
{
    if m.len() == 0 {
        None
    } else if m[0].0 == k {
        Some(0int)
    } else {
        match model_key_index(m.skip(1), k) {
            Some(j) => Some(j + 1),
            None => None,
        }
    }
}

/// The value text stored under key `k`, if any.
pub open spec fn model_lookup(m: Seq<(KeyView, Seq<char>)>, k: KeyView) -> Option<Seq<char>> {
    match model_key_index(m, k) {
        Some(j) => Some(m[j].1),
        None => None,
    }
}

/// The store after writing value `v` under key `k`: the first entry with
/// that key is replaced, or a new entry is appended at the end.
pub open spec fn model_insert(
    m: Seq<(KeyView, Seq<char>)>,
    k: KeyView,
    v: Seq<char>,
) -> Seq<(KeyView, Seq<char>)> {
    match model_key_index(m, k) {
        Some(j) => m.update(j, (k, v)),
        None => m.push((k, v)),
    }
}

proof fn lemma_key_index_char(m: Seq<(KeyView, Seq<char>)>, k: KeyView)
    ensures
        match model_key_index(m, k) {
            Some(j) => 0 <= j < m.len() && m[j].0 == k && (forall|q: int|
                0 <= q < j ==> m[q].0 != k),
            None => forall|q: int| 0 <= q < m.len() ==> m[q].0 != k,
        },
    decreases m.len(),
{
    if m.len() > 0 && m[0].0 != k {
        lemma_key_index_char(m.skip(1), k);
        assert(forall|q: int| 1 <= q < m.len() ==> m[q] == m.skip(1)[q - 1]);
    }
}

/// Decides whether two keys read the same.
pub fn backref_eq(a: &Backreference, b: &Backreference) -> (r: bool)
    ensures
        r == (spec_key_view(*a) == spec_key_view(*b)),
{
    match a {
        Backreference::Named(x) => match b {
            Backreference::Named(y) => *x == *y,
            _ => false,
        },
        Backreference::Numbered(x) => match b {
            Backreference::Numbered(y) => *x == *y,
            _ => false,
        },
    }
}

/// The text a placeholder must name to refer to key `k`.
pub open spec fn spec_key_text(k: KeyView) -> Seq<char> {
    match k {
        KeyView::Named(n) => n,
        KeyView::Numbered(i) => spec_dec_str(i),
    }
}

/// Writes the text a placeholder must name to refer to key `b`.
pub fn key_text(b: &Backreference) -> (v: Vec<char>)
    ensures
        v@ == spec_key_text(spec_key_view(*b)),
{
    match b {
        Backreference::Named(n) => str_to_chars(n.as_str()),
        Backreference::Numbered(i) => usize_dec_chars(*i),
    }
}

/// The backreference store: the values captured so far in one suite run,
/// keyed by backreference, in insertion order.
pub struct Store {
    entries: Vec<(Backreference, String)>,
}

impl View for Store {
    type V = Seq<(KeyView, Seq<char>)>;

    closed spec fn view(&self) -> Seq<(KeyView, Seq<char>)> {
        store_model(self.entries@)
    }
}

impl Store {
    /// An empty store, as every suite run begins with.
    pub fn new() -> (s: Store)
        ensures
            s@ == Seq::<(KeyView, Seq<char>)>::empty(),
    {
        let s = Store { entries: Vec::new() };
        proof {
            assert(s@ =~= Seq::<(KeyView, Seq<char>)>::empty());
        }
        s
    }

    /// Finds the index of the entry whose key reads like `k`, if any.
    #[verifier::loop_isolation(false)]
    fn find_key(&self, k: &Backreference) -> (r: Option<usize>)
        ensures
            match r {
                Some(j) => model_key_index(self@, spec_key_view(*k)) == Some(j as int),
                None => model_key_index(self@, spec_key_view(*k)) is None,
            },
    {
        proof {
            lemma_key_index_char(self@, spec_key_view(*k));
        }
        let mut j: usize = 0;
        while j < self.entries.len()
            invariant
                j <= self.entries@.len(),
                forall|q: int| 0 <= q < j ==> self@[q].0 != spec_key_view(*k),
            decreases self.entries@.len() - j,
        {
            proof {
                assert(self@[j as int] == (spec_key_view(self.entries@[j as int].0),
                    self.entries@[j as int].1@));
            }
            if backref_eq(&self.entries[j].0, k) {
                return Some(j);
            }
            j += 1;
        }
        None
    }

    /// Stores `v` under `k`, overwriting any earlier value under a key that
    /// reads the same.
    pub fn insert(&mut self, k: Backreference, v: String)
        ensures
            final(self)@ == model_insert(old(self)@, spec_key_view(k), v@),
    {
        proof {
            lemma_key_index_char(self@, spec_key_view(k));
        }
        let ghost kv = spec_key_view(k);
        let ghost vv = v@;
        let ghost m0 = self@;
        match self.find_key(&k) {
            Some(j) => {
                self.entries.set(j, (k, v));
                proof {
                    assert(self@ =~= m0.update(j as int, (kv, vv)));
                }
            },
            None => {
                self.entries.push((k, v));
                proof {
                    assert(self@ =~= m0.push((kv, vv)));
                }
            },
        }
    }

    /// Reads the value stored under `k`, if any.
    pub fn get(&self, k: &Backreference) -> (r: Option<&String>)
        ensures
            match r {
                Some(v) => model_lookup(self@, spec_key_view(*k)) == Some(v@),
                None => model_lookup(self@, spec_key_view(*k)) is None,
            },
    {
        proof {
            lemma_key_index_char(self@, spec_key_view(*k));
        }
        match self.find_key(k) {
            Some(j) => {
                proof {
                    assert(self@[j as int] == (spec_key_view(self.entries@[j as int].0),
                        self.entries@[j as int].1@));
                }
                Some(&self.entries[j].1)
            },
            None => None,
        }
    }

    /// How many keys the store holds.
    pub fn len(&self) -> (n: usize)
        ensures
            n == self@.len(),
    {
        self.entries.len()
    }
}

/// A whitespace character, as allowed around a placeholder's key.
pub open spec fn spec_is_ws(c: char) -> bool {
    c == ' ' || c == '\t' || c == '\r' || c == '\n'
}

pub(crate) fn is_ws(c: char) -> (r: bool)
    ensures
        r == spec_is_ws(c),
{
    c == ' ' || c == '\t' || c == '\r' || c == '\n'
}

/// The index of the first character at or after `i` that is not whitespace.
pub open spec fn spec_ws_end(s: Seq<char>, i: int) -> int
    decreases s.len() - i,
{
    if i < 0 || i >= s.len() {
        i
    } else if spec_is_ws(s[i]) {
        spec_ws_end(s, i + 1)
    } else {
        i
    }
}

pub(crate) proof fn lemma_ws_end_bounds(s: Seq<char>, i: int)
    requires
        0 <= i <= s.len(),
    ensures
        i <= spec_ws_end(s, i) <= s.len(),
    decreases s.len() - i,
{
    if i < s.len() && spec_is_ws(s[i]) {
        lemma_ws_end_bounds(s, i + 1);
    }
}

/// The length of the placeholder for key text `k` at the start of `s`, if
/// one begins there: `{{`, optional whitespace, `k`, optional whitespace,
/// `}}`.
pub open spec fn spec_placeholder_len(s: Seq<char>, k: Seq<char>) -> Option<int> {
    if s.len() >= 2 && s[0] == '{' && s[1] == '{' {
        let i = spec_ws_end(s, 2);
        if i + k.len() <= s.len() && s.subrange(i, i + k.len()) == k {
            let j = spec_ws_end(s, i + k.len());
            if j + 2 <= s.len() && s[j] == '}' && s[j + 1] == '}' {
                Some(j + 2)
            } else {
                None
            }
        } else {
            None
        }
    } else {
        None
    }
}

proof fn lemma_placeholder_bounds(s: Seq<char>, k: Seq<char>)
    ensures
        spec_placeholder_len(s, k) matches Some(l) ==> 4 <= l <= s.len(),
{
    if s.len() >= 2 && s[0] == '{' && s[1] == '{' {
        lemma_ws_end_bounds(s, 2);
        let i = spec_ws_end(s, 2);
        if i + k.len() <= s.len() && s.subrange(i, i + k.len()) == k {
            lemma_ws_end_bounds(s, i + k.len());
        }
    }
}

/// The first entry, in store order, whose placeholder begins at the start
/// of `s`, with the placeholder's length and the entry's value text.
pub open spec fn spec_first_match(
    s: Seq<char>,
    m: Seq<(KeyView, Seq<char>)>,
    e: int,
) -> Option<(int, Seq<char>)>
    decreases m.len() - e,
{
    if e < 0 || e >= m.len() {
        None
    } else {
        match spec_placeholder_len(s, spec_key_text(m[e].0)) {
            Some(l) => Some((l, m[e].1)),
            None => spec_first_match(s, m, e + 1),
        }
    }
}

proof fn lemma_first_match_bounds(s: Seq<char>, m: Seq<(KeyView, Seq<char>)>, e: int)
    ensures
        spec_first_match(s, m, e) matches Some(lv) ==> 4 <= lv.0 <= s.len(),
    decreases m.len() - e,
{
    if 0 <= e < m.len() {
        lemma_placeholder_bounds(s, spec_key_text(m[e].0));
        lemma_first_match_bounds(s, m, e + 1);
    }
}

/// The template `s` with every placeholder that names a stored key replaced
/// by the stored value: a single left-to-right scan; at each position the
/// first matching entry wins, and replacement text is not scanned again.
pub open spec fn spec_subst(s: Seq<char>, m: Seq<(KeyView, Seq<char>)>) -> Seq<char>
    decreases s.len(),
    via spec_subst_dec
{
    if s.len() == 0 {
        Seq::empty()
    } else {
        match spec_first_match(s, m, 0) {
            Some(lv) => lv.1 + spec_subst(s.skip(lv.0), m),
            None => seq![s[0]] + spec_subst(s.skip(1), m),
        }
    }
}

#[via_fn]
proof fn spec_subst_dec(s: Seq<char>, m: Seq<(KeyView, Seq<char>)>) {
    lemma_first_match_bounds(s, m, 0);
}

/// Reads the characters of `s` into a vector.
pub fn str_to_chars(s: &str) -> (v: Vec<char>)
    ensures
        v@ == s@,
{
    let n = s.unicode_len();
    let mut v: Vec<char> = Vec::new();
    let mut i: usize = 0;
    while i < n
        invariant
            i <= n,
            n == s@.len(),
            v@ == s@.subrange(0, i as int),
        decreases n - i,
    {
        v.push(s.get_char(i));
        proof {
            assert(v@ =~= s@.subrange(0, i + 1 as int));
        }
        i += 1;
    }
    proof {
        assert(s@.subrange(0, i as int) =~= s@);
    }
    v
}

/// Decides whether the placeholder for key text `k` begins at `pos`, and
/// how long it is.
#[verifier::loop_isolation(false)]
fn placeholder_len_at(s: &Vec<char>, pos: usize, k: &Vec<char>) -> (r: Option<usize>)
    requires
        pos <= s@.len(),
    ensures
        match r {
            Some(l) => spec_placeholder_len(s@.skip(pos as int), k@) == Some(l as int),
            None => spec_placeholder_len(s@.skip(pos as int), k@) is None,
        },
{
    let ghost t = s@.skip(pos as int);
    if s.len() - pos < 2 || s[pos] != '{' || s[pos + 1] != '{' {
        return None;
    }
    proof {
        assert(t[0] == s@[pos as int]);
        assert(t[1] == s@[pos as int + 1]);
    }
    let i = ws_end_at(s, pos + 2);
    proof {
        lemma_ws_end_skip(s@, pos as int, 2);
        assert(spec_ws_end(t, 2) == i - pos);
    }
    if s.len() - i < k.len() {
        proof {
            assert(spec_ws_end(t, 2) + k@.len() > t.len());
        }
        return None;
    }
    let mut q: usize = 0;
    while q < k.len()
        invariant
            q <= k@.len(),
            forall|w: int| 0 <= w < q ==> s@[i + w] == k@[w],
        decreases k@.len() - q,
    {
        if s[i + q] != k[q] {
            proof {
                assert(t.subrange(i - pos, i - pos + k@.len())[q as int] == s@[i + q]);
                assert(t.subrange(i - pos, i - pos + k@.len()) != k@);
            }
            return None;
        }
        q += 1;
    }
    proof {
        assert(t.subrange(i - pos, i - pos + k@.len()) =~= k@);
    }
    let j = ws_end_at(s, i + k.len());
    proof {
        lemma_ws_end_skip(s@, pos as int, i - pos + k@.len());
        assert(spec_ws_end(t, i - pos + k@.len()) == j - pos);
    }
    if s.len() - j < 2 || s[j] != '}' || s[j + 1] != '}' {
        proof {
            if j - pos + 2 <= t.len() {
                assert(t[j - pos] == s@[j as int]);
                assert(t[j - pos + 1] == s@[j as int + 1]);
            }
        }
        return None;
    }
    proof {
        assert(t[j - pos] == s@[j as int]);
        assert(t[j - pos + 1] == s@[j as int + 1]);
    }
    Some(j + 2 - pos)
}

proof fn lemma_ws_end_skip(s: Seq<char>, p: int, i: int)
    requires
        0 <= p,
        0 <= i,
        p + i <= s.len(),
    ensures
        spec_ws_end(s.skip(p), i) == spec_ws_end(s, p + i) - p,
    decreases s.len() - p - i,
{
    if p + i < s.len() {
        assert(s.skip(p)[i] == s[p + i]);
        if spec_is_ws(s[p + i]) {
            lemma_ws_end_skip(s, p, i + 1);
        }
    }
}

/// The first non-whitespace position at or after `i`.
pub(crate) fn ws_end_at(s: &Vec<char>, i: usize) -> (r: usize)
    requires
        i <= s@.len(),
    ensures
        r == spec_ws_end(s@, i as int),
        i <= r <= s@.len(),
{
    let mut j = i;
    while j < s.len()
        invariant
            i <= j <= s@.len(),
            spec_ws_end(s@, i as int) == spec_ws_end(s@, j as int),
        decreases s@.len() - j,
    {
        if !is_ws(s[j]) {
            return j;
        }
        j += 1;
    }
    j
}

/// The first store entry whose placeholder begins at `pos`, with the
/// placeholder's length and the entry's value.
#[verifier::loop_isolation(false)]
fn first_match_at<'a>(s: &Vec<char>, pos: usize, store: &'a Store) -> (r: Option<(
    usize,
    &'a String,
)>)
    requires
        pos <= s@.len(),
    ensures
        match r {
            Some(lv) => spec_first_match(s@.skip(pos as int), store@, 0) == Some(
                (lv.0 as int, lv.1@),
            ),
            None => spec_first_match(s@.skip(pos as int), store@, 0) is None,
        },
{
    let mut e: usize = 0;
    while e < store.entries.len()
        invariant
            e <= store@.len(),
            spec_first_match(s@.skip(pos as int), store@, 0) == spec_first_match(
                s@.skip(pos as int),
                store@,
                e as int,
            ),
        decreases store@.len() - e,
    {
        proof {
            assert(store@[e as int] == (spec_key_view(store.entries@[e as int].0),
                store.entries@[e as int].1@));
        }
        let kt = key_text(&store.entries[e].0);
        match placeholder_len_at(s, pos, &kt) {
            Some(l) => {
                return Some((l, &store.entries[e].1));
            },
            None => {},
        }
        e += 1;
    }
    None
}

/// Replaces every `{{ key }}` placeholder in `input` whose key is stored in
/// `map` with the stored value. A placeholder naming no stored key is left
/// unchanged, and replacement text is never substituted into again.
#[verifier::loop_isolation(false)]
pub fn format_variables(input: &str, map: &Store) -> (r: String)
    ensures
        r@ == spec_subst(input@, map@),
{
    let s = str_to_chars(input);
    let mut out: Vec<char> = Vec::new();
    let mut i: usize = 0;
    proof {
        assert(s@.skip(0) =~= s@);
    }
    while i < s.len()
        invariant
            i <= s@.len(),
            spec_subst(input@, map@) == out@ + spec_subst(s@.skip(i as int), map@),
        decreases s@.len() - i,
    {
        let ghost t = s@.skip(i as int);
        match first_match_at(&s, i, map) {
            Some((l, v)) => {
                proof {
                    lemma_first_match_bounds(t, map@, 0);
                    assert(t.skip(l as int) =~= s@.skip(i + l));
                }
                let mut vc = str_to_chars(v.as_str());
                out.append(&mut vc);
                i += l;
            },
            None => {
                proof {
                    assert(t[0] == s@[i as int]);
                    assert(t.skip(1) =~= s@.skip(i + 1));
                }
                out.push(s[i]);
                i += 1;
            },
        }
    }
    proof {
        assert(s@.skip(i as int).len() == 0);
        assert(out@ + spec_subst(s@.skip(i as int), map@) =~= out@);
    }
    chars_to_string(&out)
}

/// `b` is `a` with the store substituted into every string leaf: the same
/// tree shape, every key kept, and every string leaf replaced by its
/// substituted text. Other leaves are unchanged.
pub open spec fn spec_substituted(a: JsonValue, b: JsonValue, m: Seq<(KeyView, Seq<char>)>) -> bool
    decreases a, 0int,
{
    match (a, b) {
        (JsonValue::Null, JsonValue::Null) => true,
        (JsonValue::Bool(x), JsonValue::Bool(y)) => x == y,
        (JsonValue::Int(x), JsonValue::Int(y)) => x == y,
        (JsonValue::Text(x), JsonValue::Text(y)) => y@ == spec_subst(x@, m),
        (JsonValue::Array(x), JsonValue::Array(y)) => x@.len() == y@.len()
            && spec_arr_substituted(x@, y@, m, 0),
        (JsonValue::Object(x), JsonValue::Object(y)) => x@.len() == y@.len()
            && spec_obj_substituted(x@, y@, m, 0),
        _ => false,
    }
}

/// Every element of `y` from `i` on is the substituted form of the element
/// of `x` at the same position.
pub open spec fn spec_arr_substituted(
    x: Seq<JsonValue>,
    y: Seq<JsonValue>,
    m: Seq<(KeyView, Seq<char>)>,
    i: int,
) -> bool
    decreases x, x.len() - i,
{
    if i < 0 || i >= x.len() {
        true
    } else {
        (i < y.len() && spec_substituted(x[i], y[i], m)) && spec_arr_substituted(x, y, m, i + 1)
    }
}

/// Every entry of `y` from `i` on keeps the key of the entry of `x` at the
/// same position and holds its substituted value.
pub open spec fn spec_obj_substituted(
    x: Seq<(String, JsonValue)>,
    y: Seq<(String, JsonValue)>,
    m: Seq<(KeyView, Seq<char>)>,
    i: int,
) -> bool
    decreases x, x.len() - i,
{
    if i < 0 || i >= x.len() {
        true
    } else {
        (i < y.len() && y[i].0@ == x[i].0@ && spec_substituted(x[i].1, y[i].1, m))
            && spec_obj_substituted(x, y, m, i + 1)
    }
}

/// Walks a document and substitutes the store into every string leaf,
/// leaving null, boolean and number leaves and all keys unchanged.
#[verifier::loop_isolation(false)]
pub fn format_nested_variables(value: &JsonValue, replacements: &Store) -> (r: JsonValue)
    ensures
        spec_substituted(*value, r, replacements@),
    decreases *value,
{
    match value {
        JsonValue::Null => JsonValue::Null,
        JsonValue::Bool(b) => JsonValue::Bool(*b),
        JsonValue::Int(n) => JsonValue::Int(*n),
        JsonValue::Text(s) => JsonValue::Text(format_variables(s.as_str(), replacements)),
        JsonValue::Array(x) => {
            let mut out: Vec<JsonValue> = Vec::new();
            let mut i: usize = 0;
            while i < x.len()
                invariant
                    i <= x@.len(),
                    out@.len() == i,
                    forall|q: int|
                        0 <= q < i ==> spec_substituted(x@[q], #[trigger] out@[q], replacements@),
                decreases x@.len() - i,
            {
                proof {
                    assert(*x == value->Array_0);
                    assert(decreases_to!(*value => value->Array_0));
                    assert(decreases_to!(value->Array_0 => value->Array_0@[i as int]));
                }
                let e = format_nested_variables(&x[i], replacements);
                out.push(e);
                i += 1;
            }
            proof {
                lemma_arr_substituted_all(x@, out@, replacements@, 0);
            }
            JsonValue::Array(out)
        },
        JsonValue::Object(x) => {
            let mut out: Vec<(String, JsonValue)> = Vec::new();
            let mut i: usize = 0;
            while i < x.len()
                invariant
                    i <= x@.len(),
                    out@.len() == i,
                    forall|q: int|
                        0 <= q < i ==> (#[trigger] out@[q]).0@ == x@[q].0@ && spec_substituted(
                            x@[q].1,
                            out@[q].1,
                            replacements@,
                        ),
                decreases x@.len() - i,
            {
                proof {
                    assert(*x == value->Object_0);
                    assert(decreases_to!(*value => value->Object_0));
                    assert(decreases_to!(value->Object_0 => value->Object_0@[i as int]));
                    assert(decreases_to!(value->Object_0@[i as int] => value->Object_0@[
                        i as int
                    ].1));
                }
                let k = self_clone_string(&x[i].0);
                let e = format_nested_variables(&x[i].1, replacements);
                out.push((k, e));
                i += 1;
            }
            proof {
                lemma_obj_substituted_all(x@, out@, replacements@, 0);
            }
            JsonValue::Object(out)
        },
    }
}

fn self_clone_string(s: &String) -> (r: String)
    ensures
        r@ == s@,
{
    s.clone()
}

proof fn lemma_arr_substituted_all(
    x: Seq<JsonValue>,
    y: Seq<JsonValue>,
    m: Seq<(KeyView, Seq<char>)>,
    i: int,
)
    requires
        x.len() == y.len(),
        forall|q: int| 0 <= q < x.len() ==> spec_substituted(x[q], #[trigger] y[q], m),
    ensures
        spec_arr_substituted(x, y, m, i),
    decreases x.len() - i,
{
    if 0 <= i < x.len() {
        lemma_arr_substituted_all(x, y, m, i + 1);
    }
}

proof fn lemma_obj_substituted_all(
    x: Seq<(String, JsonValue)>,
    y: Seq<(String, JsonValue)>,
    m: Seq<(KeyView, Seq<char>)>,
    i: int,
)
    requires
        x.len() == y.len(),
        forall|q: int|
            0 <= q < x.len() ==> (#[trigger] y[q]).0@ == x[q].0@ && spec_substituted(
                x[q].1,
                y[q].1,
                m,
            ),
    ensures
        spec_obj_substituted(x, y, m, i),
    decreases x.len() - i,
{
    if 0 <= i < x.len() {
        lemma_obj_substituted_all(x, y, m, i + 1);
    }
}

/// Substituting with an empty store leaves every template unchanged.
pub proof fn lemma_subst_empty_store(s: Seq<char>)
    ensures
        spec_subst(s, Seq::<(KeyView, Seq<char>)>::empty()) == s,
    decreases s.len(),
{
    if s.len() > 0 {
        lemma_subst_empty_store(s.skip(1));
        assert(seq![s[0]] + s.skip(1) =~= s);
    }
}

/// Substitution is a function of the template and the store's entries
/// alone: two runs over the same input give the same text.
pub proof fn lemma_subst_deterministic(
    s: Seq<char>,
    m: Seq<(KeyView, Seq<char>)>,
    r1: Seq<char>,
    r2: Seq<char>,
)
    requires
        r1 == spec_subst(s, m),
        r2 == spec_subst(s, m),
    ensures
        r1 == r2,
{
}

/// Substitution into a document determines the result's content: any two
/// substituted forms of the same document under the same store are equal
/// as content.
pub proof fn lemma_substituted_unique(
    e: JsonValue,
    b1: JsonValue,
    b2: JsonValue,
    m: Seq<(KeyView, Seq<char>)>,
)
    requires
        spec_substituted(e, b1, m),
        spec_substituted(e, b2, m),
    ensures
        crate::json::spec_jv_eq(b1, b2),
    decreases e, 0int,
{
    match e {
        JsonValue::Array(x) => {
            match (b1, b2) {
                (JsonValue::Array(y1), JsonValue::Array(y2)) => {
                    lemma_arr_substituted_unique(x@, y1@, y2@, m, 0);
                },
                _ => {},
            }
        },
        JsonValue::Object(x) => {
            match (b1, b2) {
                (JsonValue::Object(y1), JsonValue::Object(y2)) => {
                    lemma_obj_substituted_unique(x@, y1@, y2@, m, 0);
                },
                _ => {},
            }
        },
        _ => {},
    }
}

proof fn lemma_arr_substituted_unique(
    x: Seq<JsonValue>,
    y1: Seq<JsonValue>,
    y2: Seq<JsonValue>,
    m: Seq<(KeyView, Seq<char>)>,
    i: int,
)
    requires
        x.len() == y1.len(),
        x.len() == y2.len(),
        spec_arr_substituted(x, y1, m, i),
        spec_arr_substituted(x, y2, m, i),
    ensures
        crate::json::spec_arr_jv_eq(y1, y2, i),
    decreases x, x.len() - i,
{
    if 0 <= i < x.len() {
        lemma_substituted_unique(x[i], y1[i], y2[i], m);
        lemma_arr_substituted_unique(x, y1, y2, m, i + 1);
    }
}

proof fn lemma_obj_substituted_unique(
    x: Seq<(String, JsonValue)>,
    y1: Seq<(String, JsonValue)>,
    y2: Seq<(String, JsonValue)>,
    m: Seq<(KeyView, Seq<char>)>,
    i: int,
)
    requires
        x.len() == y1.len(),
        x.len() == y2.len(),
        spec_obj_substituted(x, y1, m, i),
        spec_obj_substituted(x, y2, m, i),
    ensures
        crate::json::spec_obj_jv_eq(y1, y2, i),
    decreases x, x.len() - i,
{
    if 0 <= i < x.len() {
        lemma_substituted_unique(x[i].1, y1[i].1, y2[i].1, m);
        lemma_obj_substituted_unique(x, y1, y2, m, i + 1);
    }
}

} // verus!

//! Predicates over a store: the filter language, its wire form and its evaluation.
use vstd::prelude::*;
use crate::value::{Value, JVal, text_of};
use crate::store::{Config, get_spec};
use crate::strutil::{split_at_delim, split_at_delim_spec, split_whitespace, words};
use crate::text::{chars_of, eq_str, lit, starts_with, starts_with_spec, string_of};

verus! {

broadcast use vstd::std_specs::vec::group_vec_axioms;

/// A key and the value a predicate compares it with.
pub struct KeyValue {
    pub key: String,
    pub value: String,
}

/// A predicate over one agent's store.
pub enum Condition {
    Equals(KeyValue),
    NotEquals(KeyValue),
    Starts(KeyValue),
    Exists(String),
    Elem(KeyValue),
    Any(Vec<Condition>),
    All(Vec<Condition>),
    Always,
}

/// The mathematical form of a [`Condition`].
pub enum Cond {
    Equals(Seq<char>, Seq<char>),
    NotEquals(Seq<char>, Seq<char>),
    Starts(Seq<char>, Seq<char>),
    Exists(Seq<char>),
    Elem(Seq<char>, Seq<char>),
    Any(Seq<Cond>),
    All(Seq<Cond>),
    Always,
}

impl View for Condition {
    type V = Cond;

    open spec fn view(&self) -> Cond
        decreases self,
    {
        match self {
            Condition::Equals(kv) => Cond::Equals(kv.key@, kv.value@),
            Condition::NotEquals(kv) => Cond::NotEquals(kv.key@, kv.value@),
            Condition::Starts(kv) => Cond::Starts(kv.key@, kv.value@),
            Condition::Exists(k) => Cond::Exists(k@),
            Condition::Elem(kv) => Cond::Elem(kv.key@, kv.value@),
            Condition::Any(cs) => Cond::Any(
                Seq::new(cs@.len(), |i: int| if 0 <= i < cs@.len() { cs@[i].view() } else { Cond::Always }),
            ),
            Condition::All(cs) => Cond::All(
                Seq::new(cs@.len(), |i: int| if 0 <= i < cs@.len() { cs@[i].view() } else { Cond::Always }),
            ),
            Condition::Always => Cond::Always,
        }
    }
}

pub open spec fn conds_view(cs: Seq<Condition>) -> Seq<Cond> {
    Seq::new(cs.len(), |i: int| cs[i]@)
}

pub open spec fn is_key_char(c: char) -> bool {
    ('a' <= c && c <= 'z') || ('A' <= c && c <= 'Z') || ('0' <= c && c <= '9') || c == '-'
}

/// The keys that the verbs sent by the controller may not write.
pub open spec fn reserved_key(k: Seq<char>) -> bool {
    k == "addr"@ || k == "name"@ || k == "time"@ || k == "groups"@
}

/// A key that a user may write: `[A-Za-z0-9-]+`, and not reserved.
pub open spec fn valid_key_spec(k: Seq<char>) -> bool {
    k.len() > 0 && (forall|i: int| 0 <= i < k.len() ==> is_key_char(#[trigger] k[i])) && !reserved_key(k)
}

impl KeyValue {
    pub fn new(key: &str, value: &str) -> (r: KeyValue)
        ensures
            r.key@ == key@,
            r.value@ == value@,
    {
        KeyValue { key: string_of(chars_of(key).as_slice()), value: string_of(chars_of(value).as_slice()) }
    }

    /// Whether a user may write this key.
    pub fn valid_key(key: &str) -> (r: bool)
        ensures
            r == valid_key_spec(key@),
    {
        let cs = chars_of(key);
        if cs.len() == 0 {
            return false;
        }
        let mut i: usize = 0;
        while i < cs.len()
            invariant
                cs@ == key@,
                i <= cs@.len(),
                forall|j: int| 0 <= j < i ==> is_key_char(#[trigger] cs@[j]),
            decreases cs@.len() - i,
        {
            let c = cs[i];
            if !(('a' <= c && c <= 'z') || ('A' <= c && c <= 'Z') || ('0' <= c && c <= '9') || c == '-') {
                return false;
            }
            i += 1;
        }
        !(eq_str(key, "addr") || eq_str(key, "name") || eq_str(key, "time") || eq_str(key, "groups"))
    }

    fn copy(&self) -> (r: KeyValue)
        ensures
            r.key@ == self.key@,
            r.value@ == self.value@,
    {
        KeyValue { key: self.key.clone(), value: self.value.clone() }
    }
}

/// Whether any of the conditions holds; an empty list does not.
pub open spec fn any_holds(cs: Seq<Cond>, m: Map<Seq<char>, JVal>) -> bool
    decreases cs,
{
    if cs.len() == 0 {
        false
    } else if cs.len() == 1 {
        matches_spec(cs[0], m)
    } else {
        any_holds(cs.drop_last(), m) || matches_spec(cs.last(), m)
    }
}

/// Whether all of the conditions hold.
pub open spec fn all_hold(cs: Seq<Cond>, m: Map<Seq<char>, JVal>) -> bool
    decreases cs,
{
    if cs.len() == 0 {
        true
    } else {
        all_hold(cs.drop_last(), m) && matches_spec(cs.last(), m)
    }
}

/// Whether a predicate selects a store. Comparisons are on the text of
/// the stored value; a missing key satisfies only a not-equals test.
pub open spec fn matches_spec(c: Cond, m: Map<Seq<char>, JVal>) -> bool
    decreases c,
{
    match c {
        Cond::Always => true,
        Cond::Exists(k) => get_spec(m, k) is Some,
        Cond::Equals(k, v) => get_spec(m, k) matches Some(x) && text_of(x) == v,
        Cond::NotEquals(k, v) => match get_spec(m, k) {
            Some(x) => text_of(x) != v,
            None => true,
        },
        Cond::Starts(k, v) => get_spec(m, k) matches Some(x) && starts_with_spec(text_of(x), v),
        Cond::Elem(k, v) => get_spec(m, k) matches Some(x) && x is Array && x->Array_0.contains(
            JVal::Str(v),
        ),
        Cond::Any(cs) => any_holds(cs, m),
        Cond::All(cs) => all_hold(cs, m),
    }
}

pub(crate) fn array_has_str(v: &Value, s: &str) -> (r: bool)
    ensures
        r == (v@ is Array && v@->Array_0.contains(JVal::Str(s@))),
{
    match v {
        Value::Array(a) => {
            assert(v@->Array_0 =~= crate::value::items_view(a@));
            let ghost items = v@->Array_0;
            let mut i: usize = 0;
            while i < a.len()
                invariant
                    items == crate::value::items_view(a@),
                    v@ is Array,
                    v@->Array_0 == items,
                    i <= a@.len(),
                    forall|j: int| 0 <= j < i ==> items[j] != JVal::Str(s@),
                decreases a@.len() - i,
            {
                match &a[i] {
                    Value::Str(x) => {
                        if eq_str(x.as_str(), s) {
                            assert(items[i as int] == JVal::Str(s@));
                            assert(items.contains(JVal::Str(s@)));
                            return true;
                        }
                    },
                    _ => {},
                }
                i += 1;
            }
            false
        },
        _ => false,
    }
}

fn conds_match(cs: &Vec<Condition>, store: &Config, any: bool) -> (r: bool)
    ensures
        r == (if any {
            any_holds(conds_view(cs@), store@)
        } else {
            all_hold(conds_view(cs@), store@)
        }),
    decreases cs,
{
    let ghost v = conds_view(cs@);
    if cs.len() == 0 {
        return !any;
    }
    let mut i: usize = 1;
    let mut acc = cs[0].matches(store);
    assert(v.subrange(0, 1).drop_last() =~= Seq::<Cond>::empty());
    assert(v.subrange(0, 1)[0] == cs@[0]@);
    assert(v.subrange(0, 1).last() == cs@[0]@);
    assert(all_hold(Seq::<Cond>::empty(), store@));
    while i < cs.len()
        invariant
            v == conds_view(cs@),
            1 <= i <= cs@.len(),
            acc == (if any {
                any_holds(v.subrange(0, i as int), store@)
            } else {
                all_hold(v.subrange(0, i as int), store@)
            }),
        decreases cs@.len() - i,
    {
        assert(v.subrange(0, i + 1).drop_last() =~= v.subrange(0, i as int));
        let m = cs[i].matches(store);
        if any {
            acc = acc || m;
        } else {
            acc = acc && m;
        }
        i += 1;
    }
    assert(v.subrange(0, cs@.len() as int) =~= v);
    acc
}

/// The text form `k=v` of a filter, split at its first delimiter.
pub open spec fn parse_prim(t: Seq<char>) -> Cond {
    if t == "none"@ {
        Cond::Always
    } else if let Some(p) = split_at_delim_spec(t, "="@) {
        if p.1.len() > 0 && p.1.last() == '#' {
            Cond::Starts(p.0, p.1.drop_last())
        } else {
            Cond::Equals(p.0, p.1)
        }
    } else if let Some(p) = split_at_delim_spec(t, ":"@) {
        Cond::Elem(p.0, p.1)
    } else if let Some(p) = split_at_delim_spec(t, ".not."@) {
        Cond::NotEquals(p.0, p.1)
    } else {
        Cond::Exists(t)
    }
}

/// The predicate a filter text describes: `any`/`all` followed by
/// whitespace-separated primitives, or one primitive.
pub open spec fn parse_spec(t: Seq<char>) -> Cond {
    if starts_with_spec(t, "any "@) || starts_with_spec(t, "all "@) {
        let toks = words(t.subrange(4, t.len() as int));
        let cs = Seq::new(toks.len(), |i: int| parse_prim(toks[i]));
        if starts_with_spec(t, "any "@) {
            Cond::Any(cs)
        } else {
            Cond::All(cs)
        }
    } else {
        parse_prim(t)
    }
}

/// Wire name of each comparison.
pub open spec fn wire_pair(op: Seq<char>, k: Seq<char>, v: Seq<char>) -> JVal {
    JVal::Object(seq![(op, JVal::Array(seq![JVal::Str(k), JVal::Str(v)]))])
}

/// The wire form of a predicate: a single-key object per node, `null` for `None`.
pub open spec fn cond_to_json(c: Cond) -> JVal
    decreases c,
{
    match c {
        Cond::Equals(k, v) => wire_pair("eq"@, k, v),
        Cond::NotEquals(k, v) => wire_pair("neq"@, k, v),
        Cond::Starts(k, v) => wire_pair("starts"@, k, v),
        Cond::Elem(k, v) => wire_pair("elem"@, k, v),
        Cond::Exists(k) => JVal::Object(seq![("exists"@, JVal::Array(seq![JVal::Str(k)]))]),
        Cond::Any(cs) => JVal::Object(seq![("any"@, JVal::Array(conds_to_json(cs)))]),
        Cond::All(cs) => JVal::Object(seq![("all"@, JVal::Array(conds_to_json(cs)))]),
        Cond::Always => JVal::Null,
    }
}

pub open spec fn conds_to_json(cs: Seq<Cond>) -> Seq<JVal>
    decreases cs,
{
    if cs.len() == 0 {
        Seq::empty()
    } else {
        conds_to_json(cs.drop_last()).push(cond_to_json(cs.last()))
    }
}

/// The two strings of a `[key, value]` array.
pub open spec fn str_pair(j: JVal) -> Option<(Seq<char>, Seq<char>)> {
    match j {
        JVal::Array(a) => if a.len() == 2 && a[0] is Str && a[1] is Str {
            Some((a[0]->Str_0, a[1]->Str_0))
        } else {
            None
        },
        _ => None,
    }
}

/// Decodes the wire form of a predicate; `None` for anything malformed.
pub open spec fn cond_from_json(j: JVal) -> Option<Cond>
    decreases j,
{
    match j {
        JVal::Null => Some(Cond::Always),
        JVal::Object(es) => if es.len() != 1 {
            None
        } else {
            let op = es[0].0;
            let arg = es[0].1;
            if op == "any"@ || op == "all"@ {
                match arg {
                    JVal::Array(items) => match conds_from_json(items) {
                        Some(cs) => Some(if op == "any"@ { Cond::Any(cs) } else { Cond::All(cs) }),
                        None => None,
                    },
                    _ => None,
                }
            } else if op == "exists"@ {
                match arg {
                    JVal::Array(a) => if a.len() == 1 && a[0] is Str {
                        Some(Cond::Exists(a[0]->Str_0))
                    } else {
                        None
                    },
                    _ => None,
                }
            } else {
                match str_pair(arg) {
                    Some(p) => if op == "eq"@ {
                        Some(Cond::Equals(p.0, p.1))
                    } else if op == "neq"@ {
                        Some(Cond::NotEquals(p.0, p.1))
                    } else if op == "starts"@ {
                        Some(Cond::Starts(p.0, p.1))
                    } else if op == "elem"@ {
                        Some(Cond::Elem(p.0, p.1))
                    } else {
                        None
                    },
                    None => None,
                }
            }
        },
        _ => None,
    }
}

pub open spec fn conds_from_json(items: Seq<JVal>) -> Option<Seq<Cond>>
    decreases items,
{
    if items.len() == 0 {
        Some(Seq::empty())
    } else {
        match conds_from_json(items.drop_last()) {
            Some(cs) => match cond_from_json(items.last()) {
                Some(c) => Some(cs.push(c)),
                None => None,
            },
            None => None,
        }
    }
}

impl Condition {
    /// Whether the predicate selects the store. Total: a missing key is no error.
    pub fn matches(&self, store: &Config) -> (r: bool)
        ensures
            r == matches_spec(self@, store@),
        decreases self,
    {
        match self {
            Condition::Always => true,
            Condition::Exists(k) => store.get(k.as_str()).is_some(),
            Condition::Equals(kv) => match store.get(kv.key.as_str()) {
                Some(x) => {
                    let t = x.text();
                    t == kv.value
                },
                None => false,
            },
            Condition::NotEquals(kv) => match store.get(kv.key.as_str()) {
                Some(x) => {
                    let t = x.text();
                    t != kv.value
                },
                None => true,
            },
            Condition::Starts(kv) => match store.get(kv.key.as_str()) {
                Some(x) => {
                    let t = chars_of(x.text().as_str());
                    let p = chars_of(kv.value.as_str());
                    starts_with(t.as_slice(), p.as_slice())
                },
                None => false,
            },
            Condition::Elem(kv) => match store.get(kv.key.as_str()) {
                Some(x) => array_has_str(&x, kv.value.as_str()),
                None => false,
            },
            Condition::Any(cs) => {
                assert(self@->Any_0 =~= conds_view(cs@));
                conds_match(cs, store, true)
            },
            Condition::All(cs) => {
                assert(self@->All_0 =~= conds_view(cs@));
                conds_match(cs, store, false)
            },
        }
    }
}

fn wire_pair_exec(op: &str, k: &String, v: &String) -> (r: Value)
    ensures
        r@ == wire_pair(op@, k@, v@),
{
    let mut items: Vec<Value> = Vec::new();
    let e0 = Value::Str(k.clone());
    let e1 = Value::Str(v.clone());
    assert(e0@ == JVal::Str(k@));
    assert(e1@ == JVal::Str(v@));
    items.push(e0);
    items.push(e1);
    assert(crate::value::items_view(items@) =~= seq![JVal::Str(k@), JVal::Str(v@)]);
    let arr = Value::Array(items);
    assert(arr@->Array_0 =~= crate::value::items_view(items@));
    assert(arr@->Array_0 =~= seq![JVal::Str(k@), JVal::Str(v@)]);
    let r = Value::Object(vec![(lit(op), arr)]);
    assert(r@->Object_0 =~= seq![(op@, arr@)]);
    r
}

fn single_entry(op: &str, arg: Value) -> (r: Value)
    ensures
        r@ == JVal::Object(seq![(op@, arg@)]),
{
    let ghost a = arg@;
    let r = Value::Object(vec![(lit(op), arg)]);
    assert(r@->Object_0 =~= seq![(op@, a)]);
    r
}

fn conds_to_value(cs: &Vec<Condition>) -> (r: Value)
    ensures
        r@ == JVal::Array(conds_to_json(conds_view(cs@))),
    decreases cs,
{
    let ghost v = conds_view(cs@);
    let mut out: Vec<Value> = Vec::new();
    let mut i: usize = 0;
    while i < cs.len()
        invariant
            v == conds_view(cs@),
            i <= cs@.len(),
            crate::value::items_view(out@) == conds_to_json(v.subrange(0, i as int)),
        decreases cs@.len() - i,
    {
        assert(v.subrange(0, i + 1).drop_last() =~= v.subrange(0, i as int));
        let j = cs[i].to_json();
        let ghost before = crate::value::items_view(out@);
        out.push(j);
        assert(crate::value::items_view(out@) =~= before.push(j@));
        i += 1;
    }
    assert(v.subrange(0, cs@.len() as int) =~= v);
    let r = Value::Array(out);
    assert(r@->Array_0 =~= crate::value::items_view(out@));
    r
}

fn str_pair_exec(j: &Value) -> (r: Option<(String, String)>)
    ensures
        r is None <==> str_pair(j@) is None,
        r matches Some(p) ==> str_pair(j@) == Some((p.0@, p.1@)),
{
    match j {
        Value::Array(a) => {
            assert(j@->Array_0 =~= crate::value::items_view(a@));
            if a.len() == 2 {
                match (&a[0], &a[1]) {
                    (Value::Str(k), Value::Str(v)) => Some((k.clone(), v.clone())),
                    _ => None,
                }
            } else {
                None
            }
        },
        _ => None,
    }
}

fn conds_from_value(items: &Vec<Value>) -> (r: Option<Vec<Condition>>)
    ensures
        r is None <==> conds_from_json(crate::value::items_view(items@)) is None,
        r matches Some(cs) ==> conds_from_json(crate::value::items_view(items@)) == Some(
            conds_view(cs@),
        ),
    decreases items,
{
    let ghost iv = crate::value::items_view(items@);
    let mut out: Vec<Condition> = Vec::new();
    let mut i: usize = 0;
    assert(iv.subrange(0, 0) =~= Seq::<JVal>::empty());
    assert(conds_view(out@) =~= Seq::<Cond>::empty());
    while i < items.len()
        invariant
            iv == crate::value::items_view(items@),
            i <= items@.len(),
            conds_from_json(iv.subrange(0, i as int)) == Some(conds_view(out@)),
        decreases items@.len() - i,
    {
        assert(iv.subrange(0, i + 1).drop_last() =~= iv.subrange(0, i as int));
        match Condition::from_json(&items[i]) {
            Some(c) => {
                let ghost before = conds_view(out@);
                out.push(c);
                assert(conds_view(out@) =~= before.push(c@));
            },
            None => {
                proof { lemma_conds_from_json_prefix(iv, i as int + 1); }
                assert(iv.subrange(0, items@.len() as int) =~= iv);
                return None;
            },
        }
        i += 1;
    }
    assert(iv.subrange(0, items@.len() as int) =~= iv);
    Some(out)
}

/// A sequence whose prefix fails to decode fails to decode too.
proof fn lemma_conds_from_json_prefix(items: Seq<JVal>, n: int)
    requires
        0 <= n <= items.len(),
        conds_from_json(items.subrange(0, n)) is None,
    ensures
        conds_from_json(items) is None,
    decreases items.len() - n,
{
    if n < items.len() {
        assert(items.subrange(0, n + 1).drop_last() =~= items.subrange(0, n));
        lemma_conds_from_json_prefix(items, n + 1);
    } else {
        assert(items.subrange(0, n) =~= items);
    }
}

fn parse_prim_exec(t: &str) -> (r: Condition)
    ensures
        r@ == parse_prim(t@),
{
    if eq_str(t, "none") {
        return Condition::Always;
    }
    match split_at_delim(t, "=") {
        Some((k, v)) => {
            let vc = chars_of(v.as_str());
            if vc.len() > 0 && vc[vc.len() - 1] == '#' {
                let trimmed = string_of(crate::text::sub_chars(vc.as_slice(), 0, vc.len() - 1).as_slice());
                assert(vc@.subrange(0, vc@.len() - 1) =~= vc@.drop_last());
                Condition::Starts(KeyValue { key: k, value: trimmed })
            } else {
                Condition::Equals(KeyValue { key: k, value: v })
            }
        },
        None => match split_at_delim(t, ":") {
            Some((k, v)) => Condition::Elem(KeyValue { key: k, value: v }),
            None => match split_at_delim(t, ".not.") {
                Some((k, v)) => Condition::NotEquals(KeyValue { key: k, value: v }),
                None => Condition::Exists(string_of(chars_of(t).as_slice())),
            },
        },
    }
}

impl Condition {
    /// Parses a filter text: `none`, `any`/`all` followed by primitives,
    /// `k=v` (`k=v#` for starts-with), `k:v`, `k.not.v` or a bare key.
    pub fn from_description(txt: &str) -> (r: Condition)
        ensures
            r@ == parse_spec(txt@),
    {
        let t = chars_of(txt);
        let any_p = chars_of("any ");
        let all_p = chars_of("all ");
        let is_any = starts_with(t.as_slice(), any_p.as_slice());
        let is_all = starts_with(t.as_slice(), all_p.as_slice());
        if is_any || is_all {
            proof {
                reveal_strlit("any ");
                reveal_strlit("all ");
            }
            assert(any_p@.len() == 4 && all_p@.len() == 4);
            let rest = crate::text::sub_chars(t.as_slice(), 4, t.len());
            let toks = split_whitespace(rest.as_slice());
            let ghost tv = toks@.map_values(|s: String| s@);
            let mut cs: Vec<Condition> = Vec::new();
            let mut i: usize = 0;
            while i < toks.len()
                invariant
                    tv == toks@.map_values(|s: String| s@),
                    i <= toks@.len(),
                    cs@.len() == i,
                    forall|j: int| 0 <= j < i ==> #[trigger] cs@[j]@ == parse_prim(tv[j]),
                decreases toks@.len() - i,
            {
                let c = parse_prim_exec(toks[i].as_str());
                assert(tv[i as int] == toks@[i as int]@);
                cs.push(c);
                i += 1;
            }
            let ghost want = Seq::new(tv.len(), |j: int| parse_prim(tv[j]));
            assert(conds_view(cs@) =~= want);
            if is_any {
                let r = Condition::Any(cs);
                assert(r@->Any_0 =~= conds_view(cs@));
                r
            } else {
                let r = Condition::All(cs);
                assert(r@->All_0 =~= conds_view(cs@));
                r
            }
        } else {
            parse_prim_exec(txt)
        }
    }

    /// The wire form of the predicate.
    pub fn to_json(&self) -> (r: Value)
        ensures
            r@ == cond_to_json(self@),
        decreases self,
    {
        match self {
            Condition::Equals(kv) => wire_pair_exec("eq", &kv.key, &kv.value),
            Condition::NotEquals(kv) => wire_pair_exec("neq", &kv.key, &kv.value),
            Condition::Starts(kv) => wire_pair_exec("starts", &kv.key, &kv.value),
            Condition::Elem(kv) => wire_pair_exec("elem", &kv.key, &kv.value),
            Condition::Exists(k) => {
                let mut items: Vec<Value> = Vec::new();
                let e0 = Value::Str(k.clone());
                assert(e0@ == JVal::Str(k@));
                items.push(e0);
                assert(crate::value::items_view(items@) =~= seq![JVal::Str(k@)]);
                let arr = Value::Array(items);
                assert(arr@->Array_0 =~= crate::value::items_view(items@));
                assert(arr@->Array_0 =~= seq![JVal::Str(k@)]);
                single_entry("exists", arr)
            },
            Condition::Any(cs) => {
                assert(self@->Any_0 =~= conds_view(cs@));
                single_entry("any", conds_to_value(cs))
            },
            Condition::All(cs) => {
                assert(self@->All_0 =~= conds_view(cs@));
                single_entry("all", conds_to_value(cs))
            },
            Condition::Always => Value::Null,
        }
    }

    /// Decodes the wire form of a predicate.
    pub fn from_json(j: &Value) -> (r: Option<Condition>)
        ensures
            r is None <==> cond_from_json(j@) is None,
            r matches Some(c) ==> cond_from_json(j@) == Some(c@),
        decreases j,
    {
        match j {
            Value::Null => Some(Condition::Always),
            Value::Object(es) => {
                assert(j@->Object_0 =~= crate::value::entries_view(es@));
                if es.len() != 1 {
                    return None;
                }
                let op = es[0].0.as_str();
                let arg = &es[0].1;
                if eq_str(op, "any") || eq_str(op, "all") {
                    match arg {
                        Value::Array(items) => {
                            assert(arg@->Array_0 =~= crate::value::items_view(items@));
                            match conds_from_value(items) {
                                Some(cs) => {
                                    if eq_str(op, "any") {
                                        let r = Condition::Any(cs);
                                        assert(r@->Any_0 =~= conds_view(cs@));
                                        Some(r)
                                    } else {
                                        let r = Condition::All(cs);
                                        assert(r@->All_0 =~= conds_view(cs@));
                                        Some(r)
                                    }
                                },
                                None => None,
                            }
                        },
                        _ => None,
                    }
                } else if eq_str(op, "exists") {
                    match arg {
                        Value::Array(a) => {
                            assert(arg@->Array_0 =~= crate::value::items_view(a@));
                            if a.len() == 1 {
                                match &a[0] {
                                    Value::Str(k) => Some(Condition::Exists(k.clone())),
                                    _ => None,
                                }
                            } else {
                                None
                            }
                        },
                        _ => None,
                    }
                } else {
                    match str_pair_exec(arg) {
                        Some((k, v)) => {
                            let kv = KeyValue { key: k, value: v };
                            if eq_str(op, "eq") {
                                Some(Condition::Equals(kv))
                            } else if eq_str(op, "neq") {
                                Some(Condition::NotEquals(kv))
                            } else if eq_str(op, "starts") {
                                Some(Condition::Starts(kv))
                            } else if eq_str(op, "elem") {
                                Some(Condition::Elem(kv))
                            } else {
                                None
                            }
                        },
                        None => None,
                    }
                }
            },
            _ => None,
        }
    }

    /// For `addr=X` the address (with `true`); for `name=X` the name (with
    /// `false`): the filters that single out one device.
    pub fn unique_id(&self) -> (r: Option<(String, bool)>)
        ensures
            r == None::<(String, bool)> <==> !(self@ matches Cond::Equals(k, _) && (k == "addr"@ || k
                == "name"@)),
            r matches Some(p) ==> self@ matches Cond::Equals(k, v) && p.0@ == v && p.1 == (k
                == "addr"@),
    {
        match self {
            Condition::Equals(kv) => {
                if eq_str(kv.key.as_str(), "addr") {
                    Some((kv.value.clone(), true))
                } else if eq_str(kv.key.as_str(), "name") {
                    proof { reveal_strlit("addr"); reveal_strlit("name"); }
                    Some((kv.value.clone(), false))
                } else {
                    None
                }
            },
            _ => None,
        }
    }

    /// A copy of the predicate.
    pub fn copy(&self) -> (r: Condition)
        ensures
            r@ == self@,
        decreases self,
    {
        match self {
            Condition::Equals(kv) => Condition::Equals(kv.copy()),
            Condition::NotEquals(kv) => Condition::NotEquals(kv.copy()),
            Condition::Starts(kv) => Condition::Starts(kv.copy()),
            Condition::Elem(kv) => Condition::Elem(kv.copy()),
            Condition::Exists(k) => Condition::Exists(k.clone()),
            Condition::Any(cs) => {
                let c = copy_conds(cs);
                let r = Condition::Any(c);
                assert(r@->Any_0 =~= conds_view(c@));
                assert(self@->Any_0 =~= conds_view(cs@));
                r
            },
            Condition::All(cs) => {
                let c = copy_conds(cs);
                let r = Condition::All(c);
                assert(r@->All_0 =~= conds_view(c@));
                assert(self@->All_0 =~= conds_view(cs@));
                r
            },
            Condition::Always => Condition::Always,
        }
    }
}

fn copy_conds(cs: &Vec<Condition>) -> (r: Vec<Condition>)
    ensures
        conds_view(r@) == conds_view(cs@),
    decreases cs,
{
    let mut r: Vec<Condition> = Vec::new();
    let mut i: usize = 0;
    while i < cs.len()
        invariant
            i <= cs@.len(),
            r@.len() == i,
            forall|k: int| 0 <= k < i ==> r@[k]@ == cs@[k]@,
        decreases cs@.len() - i,
    {
        r.push(cs[i].copy());
        i += 1;
    }
    assert(conds_view(r@) =~= conds_view(cs@));
    r
}


/// The letters of the wire names of the comparisons.
pub proof fn lemma_wire_names()
    ensures
        "eq"@ == seq!['e', 'q'],
        "neq"@ == seq!['n', 'e', 'q'],
        "starts"@ == seq!['s', 't', 'a', 'r', 't', 's'],
        "elem"@ == seq!['e', 'l', 'e', 'm'],
        "exists"@ == seq!['e', 'x', 'i', 's', 't', 's'],
        "any"@ == seq!['a', 'n', 'y'],
        "all"@ == seq!['a', 'l', 'l'],
{
    reveal_strlit("eq");
    reveal_strlit("neq");
    reveal_strlit("starts");
    reveal_strlit("elem");
    reveal_strlit("exists");
    reveal_strlit("any");
    reveal_strlit("all");
    assert("eq"@ =~= seq!['e', 'q']);
    assert("neq"@ =~= seq!['n', 'e', 'q']);
    assert("starts"@ =~= seq!['s', 't', 'a', 'r', 't', 's']);
    assert("elem"@ =~= seq!['e', 'l', 'e', 'm']);
    assert("exists"@ =~= seq!['e', 'x', 'i', 's', 't', 's']);
    assert("any"@ =~= seq!['a', 'n', 'y']);
    assert("all"@ =~= seq!['a', 'l', 'l']);
}

proof fn lemma_pair_decodes(op: Seq<char>, k: Seq<char>, v: Seq<char>)
    ensures
        op == "eq"@ ==> cond_from_json(wire_pair(op, k, v)) == Some(Cond::Equals(k, v)),
        op == "neq"@ ==> cond_from_json(wire_pair(op, k, v)) == Some(Cond::NotEquals(k, v)),
        op == "starts"@ ==> cond_from_json(wire_pair(op, k, v)) == Some(Cond::Starts(k, v)),
        op == "elem"@ ==> cond_from_json(wire_pair(op, k, v)) == Some(Cond::Elem(k, v)),
{
    lemma_wire_names();
    let j = wire_pair(op, k, v);
    assert(j->Object_0.len() == 1);
    assert(j->Object_0[0].0 == op);
    assert(str_pair(j->Object_0[0].1) == Some((k, v)));
}

/// Decoding the wire form of any predicate gives that predicate back.
pub proof fn lemma_cond_wire_round_trip(c: Cond)
    ensures
        cond_from_json(cond_to_json(c)) == Some(c),
    decreases c,
{
    lemma_wire_names();
    match c {
        Cond::Any(cs) => {
            lemma_conds_wire_round_trip(cs);
            let j = cond_to_json(c);
            assert(j->Object_0.len() == 1);
            assert(j->Object_0[0].0 == "any"@);
        },
        Cond::All(cs) => {
            lemma_conds_wire_round_trip(cs);
            let j = cond_to_json(c);
            assert(j->Object_0.len() == 1);
            assert(j->Object_0[0].0 == "all"@);
        },
        Cond::Exists(k) => {
            let j = cond_to_json(c);
            assert(j->Object_0.len() == 1);
            assert(j->Object_0[0].0 == "exists"@);
            let a = j->Object_0[0].1->Array_0;
            assert(a.len() == 1 && a[0] is Str && a[0]->Str_0 == k);
        },
        Cond::Equals(k, v) => lemma_pair_decodes("eq"@, k, v),
        Cond::NotEquals(k, v) => lemma_pair_decodes("neq"@, k, v),
        Cond::Starts(k, v) => lemma_pair_decodes("starts"@, k, v),
        Cond::Elem(k, v) => lemma_pair_decodes("elem"@, k, v),
        Cond::Always => {},
    }
}

pub proof fn lemma_conds_wire_round_trip(cs: Seq<Cond>)
    ensures
        conds_from_json(conds_to_json(cs)) == Some(cs),
    decreases cs,
{
    if cs.len() > 0 {
        lemma_conds_wire_round_trip(cs.drop_last());
        lemma_cond_wire_round_trip(cs.last());
        let js = conds_to_json(cs);
        assert(js.drop_last() =~= conds_to_json(cs.drop_last()));
        assert(cs.drop_last().push(cs.last()) =~= cs);
    }
}

/// A wire value that decodes to a predicate is exactly that predicate's
/// wire form.
pub proof fn lemma_cond_wire_canonical(j: JVal)
    requires
        cond_from_json(j) is Some,
    ensures
        cond_to_json(cond_from_json(j)->0) == j,
    decreases j,
{
    lemma_wire_names();
    match j {
        JVal::Object(es) => {
            let op = es[0].0;
            let arg = es[0].1;
            assert(es =~= seq![(op, arg)]);
            if op == "any"@ || op == "all"@ {
                let items = arg->Array_0;
                lemma_conds_wire_canonical(items);
            } else if op == "exists"@ {
                let a = arg->Array_0;
                assert(a =~= seq![JVal::Str(a[0]->Str_0)]);
            } else {
                let a = arg->Array_0;
                assert(a =~= seq![JVal::Str(a[0]->Str_0), JVal::Str(a[1]->Str_0)]);
            }
        },
        _ => {},
    }
}

pub proof fn lemma_conds_wire_canonical(items: Seq<JVal>)
    requires
        conds_from_json(items) is Some,
    ensures
        conds_to_json(conds_from_json(items)->0) == items,
    decreases items,
{
    if items.len() > 0 {
        lemma_conds_wire_canonical(items.drop_last());
        lemma_cond_wire_canonical(items.last());
        let cs = conds_from_json(items)->0;
        let prev = conds_from_json(items.drop_last())->0;
        assert(cs == prev.push(cond_from_json(items.last())->0));
        assert(cs.drop_last() =~= prev);
        assert(items.drop_last().push(items.last()) =~= items);
    } else {
        assert(items =~= Seq::<JVal>::empty());
    }
}

pub open spec fn no_char(s: Seq<char>, c: char) -> bool {
    forall|j: int| 0 <= j < s.len() ==> s[j] != c
}

pub open spec fn no_ws(s: Seq<char>) -> bool {
    forall|j: int| 0 <= j < s.len() ==> !crate::strutil::is_ws(#[trigger] s[j])
}

/// A key as the filter language writes it: `[A-Za-z0-9-]+`.
pub open spec fn describable_key(k: Seq<char>) -> bool {
    k.len() > 0 && forall|j: int| 0 <= j < k.len() ==> is_key_char(#[trigger] k[j])
}

/// A primitive predicate that its text describes exactly; a `member` of
/// `any`/`all` has no blanks in its value.
pub open spec fn prim_describable(c: Cond, member: bool) -> bool {
    match c {
        Cond::Always => true,
        Cond::Exists(k) => describable_key(k) && k != seq!['n', 'o', 'n', 'e'],
        Cond::Equals(k, v) => describable_key(k) && !(v.len() > 0 && v.last() == '#') && (member ==> no_ws(v)),
        Cond::Starts(k, v) => describable_key(k) && (member ==> no_ws(v)),
        Cond::Elem(k, v) => describable_key(k) && no_char(v, '=') && (member ==> no_ws(v)),
        Cond::NotEquals(k, v) => describable_key(k) && no_char(v, '=') && no_char(v, ':') && (member ==> no_ws(
            v,
        )),
        _ => false,
    }
}

/// A predicate that its text describes exactly: a primitive, or `any` /
/// `all` of primitives.
pub open spec fn describable(c: Cond) -> bool {
    match c {
        Cond::Any(cs) => forall|i: int| 0 <= i < cs.len() ==> prim_describable(#[trigger] cs[i], true),
        Cond::All(cs) => forall|i: int| 0 <= i < cs.len() ==> prim_describable(#[trigger] cs[i], true),
        _ => prim_describable(c, false),
    }
}

/// The text of a primitive predicate.
pub open spec fn render_prim(c: Cond) -> Seq<char> {
    match c {
        Cond::Always => seq!['n', 'o', 'n', 'e'],
        Cond::Exists(k) => k,
        Cond::Equals(k, v) => k + seq!['='] + v,
        Cond::Starts(k, v) => k + seq!['='] + v + seq!['#'],
        Cond::Elem(k, v) => k + seq![':'] + v,
        Cond::NotEquals(k, v) => k + seq!['.', 'n', 'o', 't', '.'] + v,
        _ => Seq::empty(),
    }
}

/// Words joined by single blanks.
pub open spec fn join_words(ws: Seq<Seq<char>>) -> Seq<char>
    decreases ws.len(),
{
    if ws.len() == 0 {
        Seq::empty()
    } else if ws.len() == 1 {
        ws[0]
    } else {
        ws[0] + seq![' '] + join_words(ws.drop_first())
    }
}

pub open spec fn render_members(cs: Seq<Cond>) -> Seq<Seq<char>> {
    Seq::new(cs.len(), |i: int| render_prim(cs[i]))
}

/// The text of a predicate in the filter language.
pub open spec fn render(c: Cond) -> Seq<char> {
    match c {
        Cond::Any(cs) => seq!['a', 'n', 'y', ' '] + join_words(render_members(cs)),
        Cond::All(cs) => seq!['a', 'l', 'l', ' '] + join_words(render_members(cs)),
        _ => render_prim(c),
    }
}

/// The letters of the words of the filter language.
pub proof fn lemma_filter_words()
    ensures
        "none"@ == seq!['n', 'o', 'n', 'e'],
        "any "@ == seq!['a', 'n', 'y', ' '],
        "all "@ == seq!['a', 'l', 'l', ' '],
        "="@ == seq!['='],
        ":"@ == seq![':'],
        ".not."@ == seq!['.', 'n', 'o', 't', '.'],
{
    reveal_strlit("none");
    reveal_strlit("any ");
    reveal_strlit("all ");
    reveal_strlit("=");
    reveal_strlit(":");
    reveal_strlit(".not.");
    assert("none"@ =~= seq!['n', 'o', 'n', 'e']);
    assert("any "@ =~= seq!['a', 'n', 'y', ' ']);
    assert("all "@ =~= seq!['a', 'l', 'l', ' ']);
    assert("="@ =~= seq!['=']);
    assert(":"@ =~= seq![':']);
    assert(".not."@ =~= seq!['.', 'n', 'o', 't', '.']);
}

proof fn lemma_key_has_no(k: Seq<char>, c: char)
    requires
        describable_key(k),
        c == '=' || c == ':' || c == '.' || c == ' ' || c == '#' || crate::strutil::is_ws(c),
    ensures
        no_char(k, c),
{
    assert forall|j: int| 0 <= j < k.len() implies k[j] != c by {
        assert(is_key_char(k[j]));
    }
}

/// The text of a primitive predicate starts with neither `any ` nor `all `.
proof fn lemma_prim_not_list(c: Cond, member: bool)
    requires
        prim_describable(c, member),
    ensures
        !starts_with_spec(render_prim(c), "any "@),
        !starts_with_spec(render_prim(c), "all "@),
{
    lemma_filter_words();
    let t = render_prim(c);
    let a = seq!['a', 'n', 'y', ' '];
    let l = seq!['a', 'l', 'l', ' '];
    match c {
        Cond::Always => {
            assert(t[0] != a[0]);
            if starts_with_spec(t, a) { assert(t.subrange(0, 4)[0] == t[0]); }
            if starts_with_spec(t, l) { assert(t.subrange(0, 4)[0] == t[0]); }
        },
        Cond::Exists(k) => {
            if k.len() >= 4 {
                assert(is_key_char(k[3]));
                if starts_with_spec(t, a) { assert(t.subrange(0, 4)[3] == t[3]); }
                if starts_with_spec(t, l) { assert(t.subrange(0, 4)[3] == t[3]); }
            }
        },
        _ => {
            let k = match c {
                Cond::Equals(k, _) => k,
                Cond::Starts(k, _) => k,
                Cond::Elem(k, _) => k,
                Cond::NotEquals(k, _) => k,
                _ => Seq::empty(),
            };
            assert(t[k.len() as int] == '=' || t[k.len() as int] == ':' || t[k.len() as int] == '.');
            assert forall|j: int| 0 <= j < k.len() implies t[j] == k[j] by {}
            if k.len() >= 4 {
                assert(is_key_char(k[3]));
                if starts_with_spec(t, a) { assert(t.subrange(0, 4)[3] == t[3]); }
                if starts_with_spec(t, l) { assert(t.subrange(0, 4)[3] == t[3]); }
            } else {
                let j = k.len() as int;
                if starts_with_spec(t, a) { assert(t.subrange(0, 4)[j] == t[j]); }
                if starts_with_spec(t, l) { assert(t.subrange(0, 4)[j] == t[j]); }
            }
        },
    }
}

/// Parsing the text of a describable primitive predicate gives it back.
pub proof fn lemma_parse_prim_render(c: Cond, member: bool)
    requires
        prim_describable(c, member),
    ensures
        parse_prim(render_prim(c)) == c,
{
    lemma_filter_words();
    let t = render_prim(c);
    let eq = seq!['='];
    let colon = seq![':'];
    let not = seq!['.', 'n', 'o', 't', '.'];
    match c {
        Cond::Always => {},
        Cond::Exists(k) => {
            lemma_key_has_no(k, '=');
            lemma_key_has_no(k, ':');
            lemma_key_has_no(k, '.');
            crate::text::lemma_find_absent(t, eq, 0);
            crate::text::lemma_find_absent(t, colon, 0);
            crate::text::lemma_find_absent(t, not, 0);
        },
        Cond::Equals(k, v) => {
            lemma_key_has_no(k, '=');
            assert(t != seq!['n', 'o', 'n', 'e']) by {
                if k.len() < 4 { assert(t[k.len() as int] == '='); } else { assert(t.len() >= 5); }
            }
            assert(t =~= k.push('=') + v);
            crate::text::lemma_find_char_after(k, '=', v);
            assert(t.subrange(0, k.len() as int) =~= k);
            assert(t.subrange(k.len() as int + 1, t.len() as int) =~= v);
        },
        Cond::Starts(k, v) => {
            lemma_key_has_no(k, '=');
            assert(t != seq!['n', 'o', 'n', 'e']) by {
                if k.len() < 4 { assert(t[k.len() as int] == '='); } else { assert(t.len() >= 5); }
            }
            assert(t =~= k.push('=') + (v + seq!['#']));
            crate::text::lemma_find_char_after(k, '=', v + seq!['#']);
            assert(t.subrange(0, k.len() as int) =~= k);
            assert(t.subrange(k.len() as int + 1, t.len() as int) =~= v + seq!['#']);
            assert((v + seq!['#']).drop_last() =~= v);
        },
        Cond::Elem(k, v) => {
            lemma_key_has_no(k, '=');
            lemma_key_has_no(k, ':');
            assert(t != seq!['n', 'o', 'n', 'e']) by {
                if k.len() < 4 { assert(t[k.len() as int] == ':'); } else { assert(t.len() >= 5); }
            }
            assert forall|j: int| 0 <= j < t.len() implies t[j] != '=' by {
                if j > k.len() { assert(t[j] == v[j - k.len() - 1]); }
            }
            crate::text::lemma_find_absent(t, eq, 0);
            assert(t =~= k.push(':') + v);
            crate::text::lemma_find_char_after(k, ':', v);
            assert(t.subrange(0, k.len() as int) =~= k);
            assert(t.subrange(k.len() as int + 1, t.len() as int) =~= v);
        },
        Cond::NotEquals(k, v) => {
            lemma_key_has_no(k, '=');
            lemma_key_has_no(k, ':');
            lemma_key_has_no(k, '.');
            assert(t != seq!['n', 'o', 'n', 'e']) by {
                if k.len() < 4 { assert(t[k.len() as int] == '.'); } else { assert(t.len() >= 5); }
            }
            assert forall|j: int| 0 <= j < t.len() implies t[j] != '=' && t[j] != ':' by {
                if j >= k.len() + 5 { assert(t[j] == v[j - k.len() - 5]); }
            }
            crate::text::lemma_find_absent(t, eq, 0);
            crate::text::lemma_find_absent(t, colon, 0);
            assert(t.subrange(k.len() as int, k.len() as int + 5) =~= not);
            crate::text::lemma_find_at(t, not, 0, k.len() as int);
            assert(t.subrange(0, k.len() as int) =~= k);
            assert(t.subrange(k.len() as int + 5, t.len() as int) =~= v);
        },
        _ => {},
    }
}

proof fn lemma_words_single(w: Seq<char>, cur: Seq<char>)
    requires
        no_ws(w),
        (cur + w).len() > 0,
    ensures
        crate::strutil::words_from(w, cur) == seq![cur + w],
    decreases w.len(),
{
    if w.len() == 0 {
        assert(cur + w =~= cur);
    } else {
        assert(!crate::strutil::is_ws(w[0]));
        assert(no_ws(w.drop_first())) by {
            assert forall|j: int| 0 <= j < w.drop_first().len() implies !crate::strutil::is_ws(#[trigger] w.drop_first()[j]) by {
                assert(w.drop_first()[j] == w[j + 1]);
            }
        }
        lemma_words_single(w.drop_first(), cur.push(w[0]));
        assert(cur.push(w[0]) + w.drop_first() =~= cur + w);
    }
}

/// Splitting blank-joined words gives the words back.
pub proof fn lemma_words_join(ws: Seq<Seq<char>>)
    requires
        forall|i: int| 0 <= i < ws.len() ==> (#[trigger] ws[i]).len() > 0 && no_ws(ws[i]),
    ensures
        crate::strutil::words(join_words(ws)) == ws,
    decreases ws.len(),
{
    if ws.len() == 0 {
        assert(ws =~= Seq::<Seq<char>>::empty());
    } else if ws.len() == 1 {
        lemma_words_single(ws[0], Seq::empty());
        assert(Seq::<char>::empty() + ws[0] =~= ws[0]);
        assert(ws =~= seq![ws[0]]);
    } else {
        let rest = ws.drop_first();
        assert forall|i: int| 0 <= i < rest.len() implies (#[trigger] rest[i]).len() > 0 && no_ws(rest[i]) by {
            assert(rest[i] == ws[i + 1]);
        }
        lemma_words_join(rest);
        assert forall|j: int| 0 <= j < ws[0].len() implies !crate::strutil::is_ws(#[trigger] ws[0][j]) by {
            assert(no_ws(ws[0]));
        }
        crate::correlator::lemma_words_word(ws[0], join_words(rest), Seq::empty());
        assert(Seq::<char>::empty() + ws[0] =~= ws[0]);
        assert(seq![ws[0]] + rest =~= ws);
    }
}

proof fn lemma_member_text(c: Cond)
    requires
        prim_describable(c, true),
    ensures
        render_prim(c).len() > 0,
        no_ws(render_prim(c)),
{
    let t = render_prim(c);
    match c {
        Cond::Always => {
            assert forall|j: int| 0 <= j < t.len() implies !crate::strutil::is_ws(#[trigger] t[j]) by {}
        },
        Cond::Exists(k) => {
            assert forall|j: int| 0 <= j < t.len() implies !crate::strutil::is_ws(#[trigger] t[j]) by {
                assert(is_key_char(k[j]));
            }
        },
        Cond::Equals(k, v) => {
            assert forall|j: int| 0 <= j < t.len() implies !crate::strutil::is_ws(#[trigger] t[j]) by {
                if j < k.len() { assert(is_key_char(k[j])); assert(t[j] == k[j]); }
                else if j > k.len() { assert(t[j] == v[j - k.len() - 1]); }
            }
        },
        Cond::Starts(k, v) => {
            assert forall|j: int| 0 <= j < t.len() implies !crate::strutil::is_ws(#[trigger] t[j]) by {
                if j < k.len() { assert(is_key_char(k[j])); assert(t[j] == k[j]); }
                else if j > k.len() && j < k.len() + 1 + v.len() { assert(t[j] == v[j - k.len() - 1]); }
            }
        },
        Cond::Elem(k, v) => {
            assert forall|j: int| 0 <= j < t.len() implies !crate::strutil::is_ws(#[trigger] t[j]) by {
                if j < k.len() { assert(is_key_char(k[j])); assert(t[j] == k[j]); }
                else if j > k.len() { assert(t[j] == v[j - k.len() - 1]); }
            }
        },
        Cond::NotEquals(k, v) => {
            assert forall|j: int| 0 <= j < t.len() implies !crate::strutil::is_ws(#[trigger] t[j]) by {
                if j < k.len() { assert(is_key_char(k[j])); assert(t[j] == k[j]); }
                else if j >= k.len() + 5 { assert(t[j] == v[j - k.len() - 5]); }
            }
        },
        _ => {},
    }
}

/// The text of a describable predicate parses back to it.
pub proof fn lemma_filter_text_round_trip(c: Cond)
    requires
        describable(c),
    ensures
        parse_spec(render(c)) == c,
{
    lemma_filter_words();
    match c {
        Cond::Any(cs) => lemma_list_round_trip(cs, true),
        Cond::All(cs) => lemma_list_round_trip(cs, false),
        _ => {
            lemma_prim_not_list(c, false);
            lemma_parse_prim_render(c, false);
        },
    }
}

proof fn lemma_list_round_trip(cs: Seq<Cond>, any: bool)
    requires
        forall|i: int| 0 <= i < cs.len() ==> prim_describable(#[trigger] cs[i], true),
    ensures
        parse_spec(render(if any { Cond::Any(cs) } else { Cond::All(cs) })) == (if any {
            Cond::Any(cs)
        } else {
            Cond::All(cs)
        }),
{
    lemma_filter_words();
    let head = if any { seq!['a', 'n', 'y', ' '] } else { seq!['a', 'l', 'l', ' '] };
    let ws = render_members(cs);
    let t = head + join_words(ws);
    assert(render(if any { Cond::Any(cs) } else { Cond::All(cs) }) == t);
    assert(t.subrange(0, 4) =~= head);
    if !any {
        assert(!starts_with_spec(t, "any "@)) by {
            if starts_with_spec(t, "any "@) { assert(t.subrange(0, 4)[1] == t[1]); }
        }
    }
    assert(t.subrange(4, t.len() as int) =~= join_words(ws));
    assert forall|i: int| 0 <= i < ws.len() implies (#[trigger] ws[i]).len() > 0 && no_ws(ws[i]) by {
        lemma_member_text(cs[i]);
    }
    lemma_words_join(ws);
    let parsed = Seq::new(ws.len(), |i: int| parse_prim(ws[i]));
    assert forall|i: int| 0 <= i < cs.len() implies parsed[i] == cs[i] by {
        lemma_parse_prim_render(cs[i], true);
    }
    assert(parsed =~= cs);
}

fn render_prim_exec(c: &Condition) -> (r: String)
    requires
        !(c is Any) && !(c is All),
    ensures
        r@ == render_prim(c@),
{
    proof { lemma_filter_words(); }
    match c {
        Condition::Always => lit("none"),
        Condition::Exists(k) => k.clone(),
        Condition::Equals(kv) => {
            let mut r = kv.key.clone();
            crate::text::push_char(&mut r, '=');
            crate::text::push_str(&mut r, kv.value.as_str());
            r
        },
        Condition::Starts(kv) => {
            let mut r = kv.key.clone();
            crate::text::push_char(&mut r, '=');
            crate::text::push_str(&mut r, kv.value.as_str());
            crate::text::push_char(&mut r, '#');
            r
        },
        Condition::Elem(kv) => {
            let mut r = kv.key.clone();
            crate::text::push_char(&mut r, ':');
            crate::text::push_str(&mut r, kv.value.as_str());
            r
        },
        Condition::NotEquals(kv) => {
            let mut r = kv.key.clone();
            crate::text::push_str(&mut r, ".not.");
            crate::text::push_str(&mut r, kv.value.as_str());
            r
        },
        _ => String::new(),
    }
}

proof fn lemma_join_push(ws: Seq<Seq<char>>, w: Seq<char>)
    ensures
        join_words(ws.push(w)) == (if ws.len() == 0 {
            w
        } else {
            join_words(ws) + seq![' '] + w
        }),
    decreases ws.len(),
{
    if ws.len() == 0 {
        assert(ws.push(w)[0] == w);
    } else if ws.len() == 1 {
        assert(ws.push(w).drop_first() =~= seq![w]);
        assert(join_words(seq![w]) == w);
        assert(ws.push(w)[0] == ws[0]);
    } else {
        lemma_join_push(ws.drop_first(), w);
        assert(ws.push(w).drop_first() =~= ws.drop_first().push(w));
        assert(ws.push(w)[0] == ws[0]);
        let a = ws[0];
        let b = join_words(ws.drop_first());
        assert(a + seq![' '] + (b + seq![' '] + w) =~= (a + seq![' '] + b) + seq![' '] + w);
    }
}

impl Condition {
    /// The text of the predicate in the filter language.
    pub fn description(&self) -> (r: String)
        requires
            describable(self@),
        ensures
            r@ == render(self@),
    {
        match self {
            Condition::Any(cs) | Condition::All(cs) => {
                let mut r = if let Condition::Any(_) = self { lit("any ") } else { lit("all ") };
                proof { lemma_filter_words(); }
                let ghost head = r@;
                let ghost v = conds_view(cs@);
                assert(self@ == Cond::Any(v) || self@ == Cond::All(v)) by {
                    if self@ is Any { assert(self@->Any_0 =~= v); } else { assert(self@->All_0 =~= v); }
                }
                assert forall|j: int| 0 <= j < v.len() implies prim_describable(#[trigger] v[j], true) by {
                    if self@ is Any {
                        assert(self@->Any_0[j] == v[j]);
                    } else {
                        assert(self@->All_0[j] == v[j]);
                    }
                }
                let mut i: usize = 0;
                while i < cs.len()
                    invariant
                        v == conds_view(cs@),
                        i <= cs@.len(),
                        forall|j: int| 0 <= j < v.len() ==> prim_describable(#[trigger] v[j], true),
                        r@ == head + join_words(render_members(v.subrange(0, i as int))),
                    decreases cs@.len() - i,
                {
                    assert(prim_describable(v[i as int], true));
                    let t = render_prim_exec(&cs[i]);
                    proof { lemma_join_push(render_members(v.subrange(0, i as int)), t@); }
                    assert(render_members(v.subrange(0, i + 1)) =~= render_members(v.subrange(0, i as int)).push(t@));
                    if i > 0 {
                        crate::text::push_char(&mut r, ' ');
                    } else {
                        assert(render_members(v.subrange(0, 0)) =~= Seq::<Seq<char>>::empty());
                    }
                    crate::text::push_str(&mut r, t.as_str());
                    i += 1;
                }
                assert(v.subrange(0, cs@.len() as int) =~= v);
                r
            },
            _ => render_prim_exec(self),
        }
    }
}

} // verus!

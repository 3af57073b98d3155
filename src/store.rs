//! The per-agent key/value store.
use vstd::prelude::*;
use crate::value::{Value, JVal, entries_view, items_view};
use crate::text::{chars_of, string_of};

verus! {

broadcast use vstd::std_specs::vec::group_vec_axioms;

/// The index of the first entry at or after `i` whose key is `k`.
pub open spec fn first_key_from(m: Seq<(Seq<char>, JVal)>, k: Seq<char>, i: int) -> Option<int>
    decreases m.len() - i,
{
    if i < 0 || i >= m.len() {
        None
    } else if m[i].0 == k {
        Some(i)
    } else {
        first_key_from(m, k, i + 1)
    }
}

/// The value of the first entry whose key is `k`.
pub open spec fn lookup(m: Seq<(Seq<char>, JVal)>, k: Seq<char>) -> Option<JVal> {
    match first_key_from(m, k, 0) {
        Some(i) => Some(m[i].1),
        None => None,
    }
}

/// The entries seen as a map from key to value.
pub open spec fn as_map(m: Seq<(Seq<char>, JVal)>) -> Map<Seq<char>, JVal> {
    Map::new(|k: Seq<char>| lookup(m, k) is Some, |k: Seq<char>| lookup(m, k)->0)
}

pub proof fn lemma_first_key_found(m: Seq<(Seq<char>, JVal)>, k: Seq<char>, i: int)
    requires
        first_key_from(m, k, i) is Some,
    ensures
        i <= first_key_from(m, k, i)->0 < m.len(),
        m[first_key_from(m, k, i)->0].0 == k,
    decreases m.len() - i,
{
    if i < 0 || i >= m.len() {
    } else if m[i].0 == k {
    } else {
        lemma_first_key_found(m, k, i + 1);
    }
}

/// Two entry sequences with the same keys at every position find keys alike.
pub proof fn lemma_same_keys(m: Seq<(Seq<char>, JVal)>, m2: Seq<(Seq<char>, JVal)>, k: Seq<char>, i: int)
    requires
        m.len() == m2.len(),
        forall|j: int| 0 <= j < m.len() ==> m[j].0 == m2[j].0,
    ensures
        first_key_from(m, k, i) == first_key_from(m2, k, i),
    decreases m.len() - i,
{
    if i < 0 || i >= m.len() {
    } else if m[i].0 == k {
    } else {
        lemma_same_keys(m, m2, k, i + 1);
    }
}

pub proof fn lemma_push_key(m: Seq<(Seq<char>, JVal)>, e: (Seq<char>, JVal), k: Seq<char>, i: int)
    requires
        0 <= i <= m.len(),
    ensures
        first_key_from(m.push(e), k, i) == (if first_key_from(m, k, i) is Some {
            first_key_from(m, k, i)
        } else if e.0 == k {
            Some(m.len() as int)
        } else {
            None::<int>
        }),
    decreases m.len() - i,
{
    if i < m.len() {
        assert(m.push(e)[i] == m[i]);
        if m[i].0 != k {
            lemma_push_key(m, e, k, i + 1);
        }
    } else {
        assert(m.push(e)[m.len() as int] == e);
        assert(first_key_from(m.push(e), k, i + 1) is None);
    }
}

pub proof fn lemma_lookup_push(m: Seq<(Seq<char>, JVal)>, e: (Seq<char>, JVal), k: Seq<char>)
    ensures
        lookup(m.push(e), k) == (if lookup(m, k) is Some {
            lookup(m, k)
        } else if e.0 == k {
            Some(e.1)
        } else {
            None::<JVal>
        }),
{
    lemma_push_key(m, e, k, 0);
    if first_key_from(m, k, 0) is Some {
        lemma_first_key_found(m, k, 0);
        let j = first_key_from(m, k, 0)->0;
        assert(m.push(e)[j] == m[j]);
    }
}


/// The parts of `t` between occurrences of `c`; there is always at least one.
pub open spec fn split_char(t: Seq<char>, c: char) -> Seq<Seq<char>>
    decreases t.len(),
{
    if t.len() == 0 {
        seq![Seq::empty()]
    } else {
        let rest = split_char(t.drop_last(), c);
        if t.last() == c {
            rest.push(Seq::empty())
        } else {
            rest.update(rest.len() - 1, rest.last().push(t.last()))
        }
    }
}

/// The member `f` of an object; null for anything else or a missing member.
pub open spec fn field_of(v: JVal, f: Seq<char>) -> JVal {
    match v {
        JVal::Object(es) => match lookup(es, f) {
            Some(x) => x,
            None => JVal::Null,
        },
        _ => JVal::Null,
    }
}

/// Descends through nested objects along `fields`.
pub open spec fn descend(v: JVal, fields: Seq<Seq<char>>) -> JVal
    decreases fields.len(),
{
    if fields.len() == 0 {
        v
    } else {
        descend(field_of(v, fields[0]), fields.drop_first())
    }
}

/// The value at a dotted path `a.b.c`: absent when the first part is not a
/// key of the store, null where a later part is missing.
pub open spec fn get_spec(m: Map<Seq<char>, JVal>, key: Seq<char>) -> Option<JVal> {
    let parts = split_char(key, '.');
    if m.contains_key(parts[0]) {
        Some(descend(m[parts[0]], parts.drop_first()))
    } else {
        None
    }
}

/// Splits a text at every occurrence of a character.
pub fn split_char_exec(t: &[char], c: char) -> (r: Vec<Vec<char>>)
    ensures
        r@.map_values(|p: Vec<char>| p@) == split_char(t@, c),
        r@.len() >= 1,
{
    let mut r: Vec<Vec<char>> = Vec::new();
    r.push(Vec::new());
    let mut i: usize = 0;
    assert(t@.subrange(0, 0) =~= Seq::<char>::empty());
    assert(r@.map_values(|p: Vec<char>| p@) =~= split_char(t@.subrange(0, 0), c));
    while i < t.len()
        invariant
            i <= t@.len(),
            r@.len() >= 1,
            r@.map_values(|p: Vec<char>| p@) == split_char(t@.subrange(0, i as int), c),
        decreases t@.len() - i,
    {
        assert(t@.subrange(0, i + 1).drop_last() =~= t@.subrange(0, i as int));
        let ghost before = r@.map_values(|p: Vec<char>| p@);
        if t[i] == c {
            r.push(Vec::new());
            assert(r@.map_values(|p: Vec<char>| p@) =~= before.push(Seq::empty()));
        } else {
            let last = r.len() - 1;
            let mut part = r[last].clone();
            part.push(t[i]);
            r.set(last, part);
            assert(r@.map_values(|p: Vec<char>| p@) =~= before.update(
                before.len() - 1,
                before.last().push(t@[i as int]),
            ));
        }
        i += 1;
    }
    assert(t@.subrange(0, t@.len() as int) =~= t@);
    r
}

fn object_field(o: &Vec<(String, Value)>, f: &str) -> (r: Value)
    ensures
        r@ == field_of(JVal::Object(entries_view(o@)), f@),
{
    let ghost m = entries_view(o@);
    let mut i: usize = 0;
    while i < o.len()
        invariant
            m == entries_view(o@),
            i <= o@.len(),
            first_key_from(m, f@, 0) == first_key_from(m, f@, i as int),
        decreases o@.len() - i,
    {
        if crate::text::eq_str(o[i].0.as_str(), f) {
            return o[i].1.copy();
        }
        i += 1;
    }
    Value::Null
}

pub(crate) fn field_of_value(v: &Value, f: &str) -> (r: Value)
    ensures
        r@ == field_of(v@, f@),
{
    match v {
        Value::Object(o) => {
            assert(v@->Object_0 =~= entries_view(o@));
            object_field(o, f)
        },
        _ => Value::Null,
    }
}

/// A record of a file announced by the controller and not yet received.
pub struct FilePending {
    pub filename: String,
    pub dest: String,
    pub perms: Option<u32>,
    pub hash: Option<String>,
}

/// The store: string keys mapped to values.
pub struct Config {
    pub values: Vec<(String, Value)>,
    pub pending_file: Option<FilePending>,
}

/// The index of the first item equal to `v`.
pub open spec fn first_index(items: Seq<JVal>, v: JVal) -> int {
    choose|i: int| 0 <= i < items.len() && items[i] == v && forall|j: int| 0 <= j < i ==> items[j] != v
}

/// The items of an array after an idempotent insert, or after removing
/// the first equal item.
pub open spec fn array_update(items: Seq<JVal>, v: JVal, remove: bool) -> Seq<JVal> {
    if remove {
        if items.contains(v) {
            items.remove(first_index(items, v))
        } else {
            items
        }
    } else if items.contains(v) {
        items
    } else {
        items.push(v)
    }
}

/// The items of the array under key `k`, empty when the key is absent.
pub open spec fn array_at(m: Map<Seq<char>, JVal>, k: Seq<char>) -> Seq<JVal> {
    if m.contains_key(k) && m[k] is Array {
        m[k]->Array_0
    } else {
        Seq::empty()
    }
}

/// A store that holds `k` with a value that is not an array.
pub open spec fn non_array_at(m: Map<Seq<char>, JVal>, k: Seq<char>) -> bool {
    m.contains_key(k) && !(m[k] is Array)
}

/// The store after an array insert or removal at `k`; unchanged when the
/// slot holds something other than an array.
pub open spec fn store_array_update(m: Map<Seq<char>, JVal>, k: Seq<char>, v: JVal, remove: bool) -> Map<Seq<char>, JVal> {
    if non_array_at(m, k) {
        m
    } else {
        m.insert(k, JVal::Array(array_update(array_at(m, k), v, remove)))
    }
}

/// Inserting the same item twice leaves the same array as inserting it once,
/// and removing an item that is absent changes nothing.
pub proof fn lemma_array_update_idempotent(items: Seq<JVal>, v: JVal)
    ensures
        array_update(array_update(items, v, false), v, false) == array_update(items, v, false),
        !items.contains(v) ==> array_update(items, v, true) == items,
{
    if !items.contains(v) {
        assert(items.push(v)[items.len() as int] == v);
    }
}

/// On a store, `seta(k, v)` twice gives the same store as once, and `rma`
/// of an item that the array does not hold leaves the store as it was,
/// but for creating an empty array where the key was absent.
pub proof fn lemma_store_seta_idempotent(m: Map<Seq<char>, JVal>, k: Seq<char>, v: JVal)
    ensures
        store_array_update(store_array_update(m, k, v, false), k, v, false)
            == store_array_update(m, k, v, false),
        !array_at(m, k).contains(v) && m.contains_key(k) ==> store_array_update(m, k, v, true) == m,
{
    lemma_array_update_idempotent(array_at(m, k), v);
    let m1 = store_array_update(m, k, v, false);
    if !non_array_at(m, k) {
        assert(m1.contains_key(k) && m1[k] is Array);
        assert(array_at(m1, k) == array_update(array_at(m, k), v, false));
        assert(m1.insert(k, JVal::Array(array_update(array_at(m1, k), v, false))) =~= m1);
    }
    if !array_at(m, k).contains(v) && m.contains_key(k) && !non_array_at(m, k) {
        assert(m.insert(k, JVal::Array(array_at(m, k))) =~= m);
    }
}

impl Config {
    pub open spec fn entries(&self) -> Seq<(Seq<char>, JVal)> {
        entries_view(self.values@)
    }

    /// An empty store.
    pub fn new() -> (r: Config)
        ensures
            r@ == Map::<Seq<char>, JVal>::empty(),
            r.pending_file is None,
    {
        let r = Config { values: Vec::new(), pending_file: None };
        assert(r@ =~= Map::<Seq<char>, JVal>::empty());
        r
    }

    fn key_index(&self, key: &str) -> (r: Option<usize>)
        ensures
            r matches Some(i) ==> first_key_from(self.entries(), key@, 0) == Some(i as int) && i
                < self.values@.len(),
            r is None ==> first_key_from(self.entries(), key@, 0) is None,
    {
        let mut i: usize = 0;
        while i < self.values.len()
            invariant
                i <= self.values@.len(),
                first_key_from(self.entries(), key@, 0) == first_key_from(self.entries(), key@, i as int),
            decreases self.values@.len() - i,
        {
            if crate::text::eq_str(self.values[i].0.as_str(), key) {
                return Some(i);
            }
            i += 1;
        }
        None
    }

    /// The value stored under exactly this key.
    pub fn lookup_key(&self, key: &str) -> (r: Option<&Value>)
        ensures
            r is None <==> !self@.contains_key(key@),
            r matches Some(v) ==> v@ == self@[key@],
    {
        match self.key_index(key) {
            Some(i) => Some(&self.values[i].1),
            None => None,
        }
    }


    /// The value at a dotted path: `None` when its first part is not a key.
    pub fn get(&self, key: &str) -> (r: Option<Value>)
        ensures
            r is None <==> get_spec(self@, key@) is None,
            r matches Some(v) ==> get_spec(self@, key@) == Some(v@),
    {
        let kc = chars_of(key);
        let parts = split_char_exec(kc.as_slice(), '.');
        let ghost ps = parts@.map_values(|p: Vec<char>| p@);
        let base = string_of(parts[0].as_slice());
        let mut cur = match self.lookup_key(base.as_str()) {
            Some(v) => v.copy(),
            None => return None,
        };
        let mut i: usize = 1;
        while i < parts.len()
            invariant
                ps == parts@.map_values(|p: Vec<char>| p@),
                ps == split_char(key@, '.'),
                1 <= i <= ps.len(),
                self@.contains_key(ps[0]),
                descend(cur@, ps.subrange(i as int, ps.len() as int)) == descend(
                    self@[ps[0]],
                    ps.drop_first(),
                ),
            decreases ps.len() - i,
        {
            let f = string_of(parts[i].as_slice());
            assert(ps.subrange(i as int, ps.len() as int).drop_first() =~= ps.subrange(
                i + 1,
                ps.len() as int,
            ));
            cur = field_of_value(&cur, f.as_str());
            i += 1;
        }
        Some(cur)
    }

    /// The value at a dotted path, or `def` when there is none.
    pub fn get_or(&self, key: &str, def: Value) -> (r: Value)
        ensures
            r@ == (match get_spec(self@, key@) {
                Some(v) => v,
                None => def@,
            }),
    {
        match self.get(key) {
            Some(v) => v,
            None => def,
        }
    }

    /// Whether the store holds the key.
    pub fn contains_key(&self, key: &str) -> (r: bool)
        ensures
            r == self@.contains_key(key@),
    {
        self.key_index(key).is_some()
    }

    /// Stores `val` under `key`, replacing what was there.
    pub fn insert_into(&mut self, key: &str, val: Value)
        ensures
            final(self)@ == old(self)@.insert(key@, val@),
            final(self).pending_file == old(self).pending_file,
    {
        let ghost old_entries = self.entries();
        let ghost vv = val@;
        match self.key_index(key) {
            Some(i) => {
                proof { lemma_first_key_found(old_entries, key@, 0); }
                let k = self.values[i].0.clone();
                self.values.set(i, (k, val));
                let ghost m2 = self.entries();
                assert forall|j: int| 0 <= j < old_entries.len() implies old_entries[j].0 == m2[j].0 by {}
                assert forall|k2: Seq<char>| #[trigger] lookup(m2, k2) == (if k2 == key@ {
                    Some(vv)
                } else {
                    lookup(old_entries, k2)
                }) by {
                    lemma_same_keys(old_entries, m2, k2, 0);
                    assert(m2[i as int] == (key@, vv));
                    if first_key_from(old_entries, k2, 0) is Some {
                        lemma_first_key_found(old_entries, k2, 0);
                        let j = first_key_from(old_entries, k2, 0)->0;
                        if j != i {
                            assert(m2[j] == old_entries[j]);
                        }
                    }
                }
            },
            None => {
                let k = crate::text::string_of(crate::text::chars_of(key).as_slice());
                self.values.push((k, val));
                let ghost m2 = self.entries();
                assert(m2 =~= old_entries.push((key@, vv)));
                assert forall|k2: Seq<char>| #[trigger] lookup(m2, k2) == (if k2 == key@ {
                    Some(vv)
                } else {
                    lookup(old_entries, k2)
                }) by {
                    lemma_lookup_push(old_entries, (key@, vv), k2);
                }
            },
        }
        assert(self@ =~= old(self)@.insert(key@, vv));
    }

    /// Removes the key from the store.
    pub fn remove_key(&mut self, key: &str)
        ensures
            final(self)@ == old(self)@.remove(key@),
            final(self).pending_file == old(self).pending_file,
    {
        let ghost m = self.entries();
        let mut kept: Vec<(String, Value)> = Vec::new();
        let mut i: usize = 0;
        let rest = &self.values;
        let ghost orig = rest@;
        assert(entries_view(orig) == m);
        while i < rest.len()
            invariant
                rest@ == orig,
                entries_view(orig) == m,
                i <= orig.len(),
                lookup(entries_view(kept@), key@) is None,
                forall|k2: Seq<char>|
                    k2 != key@ ==> #[trigger] lookup(entries_view(kept@), k2) == lookup(
                        m.subrange(0, i as int),
                        k2,
                    ),
            decreases orig.len() - i,
        {
            let ghost before = entries_view(kept@);
            let ghost e = m[i as int];
            assert(m.subrange(0, i + 1) =~= m.subrange(0, i as int).push(e));
            if !crate::text::eq_str(rest[i].0.as_str(), key) {
                let k = rest[i].0.clone();
                let v = rest[i].1.copy();
                kept.push((k, v));
                assert(entries_view(kept@) =~= before.push(e));
                proof { lemma_lookup_push(before, e, key@); }
                assert forall|k2: Seq<char>| k2 != key@ implies #[trigger] lookup(
                    entries_view(kept@),
                    k2,
                ) == lookup(m.subrange(0, i + 1), k2) by {
                    lemma_lookup_push(before, e, k2);
                    lemma_lookup_push(m.subrange(0, i as int), e, k2);
                }
            } else {
                assert forall|k2: Seq<char>| k2 != key@ implies #[trigger] lookup(
                    entries_view(kept@),
                    k2,
                ) == lookup(m.subrange(0, i + 1), k2) by {
                    lemma_lookup_push(m.subrange(0, i as int), e, k2);
                }
            }
            i += 1;
        }
        assert(m.subrange(0, orig.len() as int) =~= m);
        self.values = kept;
        assert(self@ =~= old(self)@.remove(key@));
    }

    /// Writes a value under a key; a null value deletes the key.
    pub fn insert(&mut self, key: &str, val: &Value)
        ensures
            final(self)@ == (if val@ is Null {
                old(self)@.remove(key@)
            } else {
                old(self)@.insert(key@, val@)
            }),
            final(self).pending_file == old(self).pending_file,
    {
        match val {
            Value::Null => self.remove_key(key),
            _ => self.insert_into(key, val.copy()),
        }
    }

    /// Inserts `val` into the array under `key` unless it is already there,
    /// or, with `remove`, removes the first item equal to it. An absent key
    /// becomes an empty array first. Fails when the key holds a value that
    /// is not an array.
    pub fn insert_array(&mut self, key: &str, val: &Value, remove: bool) -> (r: Result<(), String>)
        ensures
            r is Err <==> non_array_at(old(self)@, key@),
            final(self)@ == store_array_update(old(self)@, key@, val@, remove),
            final(self).pending_file == old(self).pending_file,
    {
        let mut items: Vec<Value> = Vec::new();
        match self.lookup_key(key) {
            Some(v) => match v {
                Value::Array(a) => {
                    items = crate::value::copy_items(a);
                    assert(v@->Array_0 =~= items_view(a@));
                },
                _ => {
                    let mut msg = crate::text::string_of(crate::text::chars_of(key).as_slice());
                    crate::text::push_str(&mut msg, " is not array-valued");
                    return Err(msg);
                },
            },
            None => {},
        }
        let ghost cur = items_view(items@);
        assert(cur == array_at(old(self)@, key@));
        let mut pos: Option<usize> = None;
        let mut i: usize = 0;
        while i < items.len()
            invariant
                cur == items_view(items@),
                i <= items@.len(),
                pos is None ==> forall|j: int| 0 <= j < i ==> cur[j] != val@,
                pos matches Some(p) ==> p < items@.len() && cur[p as int] == val@ && forall|j: int|
                    0 <= j < p ==> cur[j] != val@,
            decreases items@.len() - i,
        {
            if pos.is_none() && items[i].equals(val) {
                pos = Some(i);
            }
            i += 1;
        }
        let ghost upd = array_update(cur, val@, remove);
        match pos {
            Some(p) => {
                assert(cur.contains(val@));
                assert(first_index(cur, val@) == p) by {
                    assert(0 <= p < cur.len() && cur[p as int] == val@ && forall|j: int|
                        0 <= j < p ==> cur[j] != val@);
                    let q = first_index(cur, val@);
                    if q < p {
                        assert(cur[q] == val@);
                    } else if q > p {
                        assert(cur[p as int] == val@);
                    }
                }
                if remove {
                    items.remove(p);
                    assert(items_view(items@) =~= cur.remove(p as int));
                }
            },
            None => {
                assert(!cur.contains(val@));
                if !remove {
                    items.push(val.copy());
                    assert(items_view(items@) =~= cur.push(val@));
                }
            },
        }
        let ghost newv = items_view(items@);
        assert(newv == upd);
        let arr = Value::Array(items);
        assert(arr@->Array_0 =~= upd);
        self.insert_into(key, arr);
        Ok(())
    }
}

impl View for Config {
    type V = Map<Seq<char>, JVal>;

    open spec fn view(&self) -> Map<Seq<char>, JVal> {
        as_map(self.entries())
    }
}

impl Config {
    /// The string at a dotted path.
    pub fn gets(&self, key: &str) -> (r: Option<String>)
        ensures
            r matches Some(x) ==> get_spec(self@, key@) == Some(JVal::Str(x@)),
            r is None ==> !(get_spec(self@, key@) matches Some(JVal::Str(_))),
    {
        match self.get(key) {
            Some(Value::Str(x)) => Some(x),
            _ => None,
        }
    }

    /// The string at a dotted path, or `def`.
    pub fn gets_or(&self, key: &str, def: &str) -> (r: String)
        ensures
            get_spec(self@, key@) matches Some(JVal::Str(x)) ==> r@ == x,
            !(get_spec(self@, key@) matches Some(JVal::Str(_))) ==> r@ == def@,
    {
        match self.gets(key) {
            Some(x) => x,
            None => crate::text::lit(def),
        }
    }

    /// The string under a key, if the key is there; an error if it holds
    /// something else.
    pub fn gets_opt(&self, key: &str) -> (r: Result<Option<String>, String>)
        ensures
            !self@.contains_key(key@) ==> r matches Ok(None),
            self@.contains_key(key@) && self@[key@] is Str ==> (r matches Ok(Some(x)) && x@ == self@[key@]->Str_0),
            self@.contains_key(key@) && !(self@[key@] is Str) ==> r is Err,
    {
        match self.lookup_key(key) {
            None => Ok(None),
            Some(Value::Str(x)) => Ok(Some(x.clone())),
            Some(_) => {
                let mut msg = crate::text::lit(key);
                crate::text::push_str(&mut msg, " must be a string");
                Err(msg)
            },
        }
    }

    /// The integer under a key, or `def` when the key is absent; an error
    /// if it holds something else.
    pub fn geti_or(&self, key: &str, def: i64) -> (r: Result<i64, String>)
        ensures
            !self@.contains_key(key@) ==> r == Ok::<i64, String>(def),
            self@.contains_key(key@) && self@[key@] is Int ==> (r matches Ok(n) && n as int == self@[key@]->Int_0),
            self@.contains_key(key@) && !(self@[key@] is Int) ==> r is Err,
    {
        match self.lookup_key(key) {
            None => Ok(def),
            Some(Value::Int(n)) => Ok(*n),
            Some(_) => {
                let mut msg = crate::text::lit(key);
                crate::text::push_str(&mut msg, " must be an integer");
                Err(msg)
            },
        }
    }
}

/// The member `name` of an object, unless it is missing or null.
pub fn maybe_field(o: &Value, name: &str) -> (r: Option<Value>)
    ensures
        r is None <==> field_of(o@, name@) is Null,
        r matches Some(v) ==> v@ == field_of(o@, name@),
{
    match field_of_value(o, name) {
        Value::Null => None,
        v => Some(v),
    }
}

} // verus!

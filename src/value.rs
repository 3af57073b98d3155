//! The values held by a store and carried on the wire.
use vstd::prelude::*;
use crate::text::{push_char, push_str};

verus! {

broadcast use vstd::std_specs::vec::group_vec_axioms;

/// A JSON-like value.
pub enum Value {
    Null,
    Bool(bool),
    Int(i64),
    Str(String),
    Array(Vec<Value>),
    Object(Vec<(String, Value)>),
}

/// The mathematical form of a [`Value`].
pub enum JVal {
    Null,
    Bool(bool),
    Int(int),
    Str(Seq<char>),
    Array(Seq<JVal>),
    Object(Seq<(Seq<char>, JVal)>),
}

impl View for Value {
    type V = JVal;

    open spec fn view(&self) -> JVal
        decreases self,
    {
        match self {
            Value::Null => JVal::Null,
            Value::Bool(b) => JVal::Bool(*b),
            Value::Int(i) => JVal::Int(*i as int),
            Value::Str(s) => JVal::Str(s@),
            Value::Array(a) => JVal::Array(
                Seq::new(a@.len(), |i: int| if 0 <= i < a@.len() { a@[i].view() } else { JVal::Null }),
            ),
            Value::Object(o) => {
                let vals = Seq::new(
                    o@.len(),
                    |i: int| if 0 <= i < o@.len() { o@[i].1.view() } else { JVal::Null },
                );
                JVal::Object(Seq::new(o@.len(), |i: int| (o@[i].0@, vals[i])))
            },
        }
    }
}

pub open spec fn digit_char(d: int) -> char {
    if d == 0 { '0' } else if d == 1 { '1' } else if d == 2 { '2' } else if d == 3 { '3' }
    else if d == 4 { '4' } else if d == 5 { '5' } else if d == 6 { '6' } else if d == 7 { '7' }
    else if d == 8 { '8' } else { '9' }
}

/// Decimal digits of a natural number.
pub open spec fn nat_text(n: nat) -> Seq<char>
    decreases n,
{
    if n < 10 {
        seq![digit_char(n as int)]
    } else {
        nat_text(n / 10).push(digit_char((n % 10) as int))
    }
}

/// Decimal form of an integer, with a leading minus when negative.
pub open spec fn int_text(i: int) -> Seq<char> {
    if i < 0 {
        seq!['-'] + nat_text((-i) as nat)
    } else {
        nat_text(i as nat)
    }
}

/// A hexadecimal digit, lower case.
pub open spec fn hex_char(d: int) -> char {
    if d < 10 { digit_char(d) } else if d == 10 { 'a' } else if d == 11 { 'b' } else if d == 12 { 'c' }
    else if d == 13 { 'd' } else if d == 14 { 'e' } else { 'f' }
}

/// The escape of one character inside a quoted string, as JSON writes it:
/// `\"`, `\\`, the short forms `\b \t \n \f \r`, and `\u00XX` for the
/// other control characters.
pub open spec fn escape_char(c: char) -> Seq<char> {
    if c == '"' {
        seq!['\\', '"']
    } else if c == '\\' {
        seq!['\\', '\\']
    } else if c == '\u{8}' {
        seq!['\\', 'b']
    } else if c == '\t' {
        seq!['\\', 't']
    } else if c == '\n' {
        seq!['\\', 'n']
    } else if c == '\u{c}' {
        seq!['\\', 'f']
    } else if c == '\r' {
        seq!['\\', 'r']
    } else if (c as u32) < 0x20 {
        seq!['\\', 'u', '0', '0', hex_char((c as u32) as int / 16), hex_char((c as u32) as int % 16)]
    } else {
        seq![c]
    }
}

pub open spec fn escape(s: Seq<char>) -> Seq<char>
    decreases s.len(),
{
    if s.len() == 0 {
        Seq::empty()
    } else {
        escape(s.drop_last()) + escape_char(s.last())
    }
}

pub open spec fn quote(s: Seq<char>) -> Seq<char> {
    seq!['"'] + escape(s) + seq!['"']
}

pub open spec fn null_text() -> Seq<char> {
    seq!['n', 'u', 'l', 'l']
}

pub open spec fn bool_text(b: bool) -> Seq<char> {
    if b {
        seq!['t', 'r', 'u', 'e']
    } else {
        seq!['f', 'a', 'l', 's', 'e']
    }
}

/// Compact JSON text of a value.
pub open spec fn dump(v: JVal) -> Seq<char>
    decreases v,
{
    match v {
        JVal::Null => null_text(),
        JVal::Bool(b) => bool_text(b),
        JVal::Int(i) => int_text(i),
        JVal::Str(s) => quote(s),
        JVal::Array(items) => seq!['['] + dump_items(items) + seq![']'],
        JVal::Object(entries) => seq!['{'] + dump_entries(entries) + seq!['}'],
    }
}

/// The items of an array, separated by commas.
pub open spec fn dump_items(items: Seq<JVal>) -> Seq<char>
    decreases items,
{
    if items.len() == 0 {
        Seq::empty()
    } else if items.len() == 1 {
        dump(items[0])
    } else {
        dump_items(items.drop_last()) + seq![','] + dump(items.last())
    }
}

/// The entries of an object as `"key":value`, separated by commas.
pub open spec fn dump_entries(entries: Seq<(Seq<char>, JVal)>) -> Seq<char>
    decreases entries,
{
    if entries.len() == 0 {
        Seq::empty()
    } else if entries.len() == 1 {
        quote(entries[0].0) + seq![':'] + dump(entries[0].1)
    } else {
        dump_entries(entries.drop_last()) + seq![','] + quote(entries.last().0) + seq![':']
            + dump(entries.last().1)
    }
}

/// The text by which stored values are compared: a string stands for
/// itself, every other value for its JSON text.
pub open spec fn text_of(v: JVal) -> Seq<char> {
    match v {
        JVal::Str(s) => s,
        _ => dump(v),
    }
}

fn digit_of(d: u64) -> (c: char)
    requires
        d < 10,
    ensures
        c == digit_char(d as int),
{
    if d == 0 { '0' } else if d == 1 { '1' } else if d == 2 { '2' } else if d == 3 { '3' }
    else if d == 4 { '4' } else if d == 5 { '5' } else if d == 6 { '6' } else if d == 7 { '7' }
    else if d == 8 { '8' } else { '9' }
}

fn push_nat(out: &mut String, n: u64)
    ensures
        final(out)@ == old(out)@ + nat_text(n as nat),
    decreases n,
{
    if n < 10 {
        push_char(out, digit_of(n));
    } else {
        push_nat(out, n / 10);
        push_char(out, digit_of(n % 10));
    }
}

/// Decimal text of an integer.
pub fn int_to_text(i: i64) -> (r: String)
    ensures
        r@ == int_text(i as int),
{
    let mut r = String::new();
    if i < 0 {
        push_char(&mut r, '-');
        let m: u64 = (-(i as i128)) as u64;
        push_nat(&mut r, m);
    } else {
        push_nat(&mut r, i as u64);
    }
    r
}

fn hex_of(d: u32) -> (c: char)
    requires
        d < 16,
    ensures
        c == hex_char(d as int),
{
    if d < 10 { digit_of(d as u64) } else if d == 10 { 'a' } else if d == 11 { 'b' } else if d == 12 { 'c' }
    else if d == 13 { 'd' } else if d == 14 { 'e' } else { 'f' }
}

fn push_quoted(out: &mut String, s: &str)
    ensures
        final(out)@ == old(out)@ + quote(s@),
{
    let cs = crate::text::chars_of(s);
    let ghost start = out@;
    push_char(out, '"');
    let mut i: usize = 0;
    while i < cs.len()
        invariant
            cs@ == s@,
            i <= cs@.len(),
            out@ == start + seq!['"'] + escape(s@.subrange(0, i as int)),
        decreases cs@.len() - i,
    {
        let c = cs[i];
        if c == '"' {
            push_char(out, '\\');
            push_char(out, '"');
        } else if c == '\\' {
            push_char(out, '\\');
            push_char(out, '\\');
        } else if c == '\u{8}' {
            push_char(out, '\\');
            push_char(out, 'b');
        } else if c == '\t' {
            push_char(out, '\\');
            push_char(out, 't');
        } else if c == '\n' {
            push_char(out, '\\');
            push_char(out, 'n');
        } else if c == '\u{c}' {
            push_char(out, '\\');
            push_char(out, 'f');
        } else if c == '\r' {
            push_char(out, '\\');
            push_char(out, 'r');
        } else if (c as u32) < 0x20 {
            let n = c as u32;
            push_char(out, '\\');
            push_char(out, 'u');
            push_char(out, '0');
            push_char(out, '0');
            push_char(out, hex_of(n / 16));
            push_char(out, hex_of(n % 16));
        } else {
            push_char(out, c);
        }
        assert(s@.subrange(0, i + 1).drop_last() =~= s@.subrange(0, i as int));
        i += 1;
    }
    push_char(out, '"');
    assert(s@.subrange(0, cs@.len() as int) =~= s@);
}

/// The views of the items of an array.
pub open spec fn items_view(a: Seq<Value>) -> Seq<JVal> {
    Seq::new(a.len(), |i: int| a[i]@)
}

/// The views of the entries of an object.
pub open spec fn entries_view(o: Seq<(String, Value)>) -> Seq<(Seq<char>, JVal)> {
    Seq::new(o.len(), |i: int| (o[i].0@, o[i].1@))
}

fn dump_array_into(a: &Vec<Value>, out: &mut String)
    ensures
        final(out)@ == old(out)@ + seq!['['] + dump_items(items_view(a@)) + seq![']'],
    decreases a,
{
    let ghost start = out@;
    let ghost items = items_view(a@);
    push_char(out, '[');
    let mut i: usize = 0;
    while i < a.len()
        invariant
            items == items_view(a@),
            i <= a@.len(),
            out@ == start + seq!['['] + dump_items(items.subrange(0, i as int)),
        decreases a@.len() - i,
    {
        if i > 0 {
            push_char(out, ',');
        }
        a[i].dump_into(out);
        assert(items.subrange(0, i + 1).drop_last() =~= items.subrange(0, i as int));
        i += 1;
    }
    push_char(out, ']');
    assert(items.subrange(0, a@.len() as int) =~= items);
}

fn dump_object_into(o: &Vec<(String, Value)>, out: &mut String)
    ensures
        final(out)@ == old(out)@ + seq!['{'] + dump_entries(entries_view(o@)) + seq!['}'],
    decreases o,
{
    let ghost start = out@;
    let ghost entries = entries_view(o@);
    push_char(out, '{');
    let mut i: usize = 0;
    while i < o.len()
        invariant
            entries == entries_view(o@),
            i <= o@.len(),
            out@ == start + seq!['{'] + dump_entries(entries.subrange(0, i as int)),
        decreases o@.len() - i,
    {
        if i > 0 {
            push_char(out, ',');
        }
        push_quoted(out, o[i].0.as_str());
        push_char(out, ':');
        o[i].1.dump_into(out);
        assert(entries.subrange(0, i + 1).drop_last() =~= entries.subrange(0, i as int));
        i += 1;
    }
    push_char(out, '}');
    assert(entries.subrange(0, o@.len() as int) =~= entries);
}

impl Value {
    fn dump_into(&self, out: &mut String)
        ensures
            final(out)@ == old(out)@ + dump(self@),
        decreases self,
    {
        match self {
            Value::Null => {
                push_str(out, "null");
                proof { reveal_strlit("null"); }
                assert("null"@ =~= null_text());
            },
            Value::Bool(b) => {
                if *b {
                    push_str(out, "true");
                    proof { reveal_strlit("true"); }
                    assert("true"@ =~= bool_text(true));
                } else {
                    push_str(out, "false");
                    proof { reveal_strlit("false"); }
                    assert("false"@ =~= bool_text(false));
                }
            },
            Value::Int(i) => {
                let t = int_to_text(*i);
                push_str(out, t.as_str());
            },
            Value::Str(s) => {
                push_quoted(out, s.as_str());
            },
            Value::Array(a) => {
                dump_array_into(a, out);
                assert(self@->Array_0 =~= items_view(a@));
            },
            Value::Object(o) => {
                dump_object_into(o, out);
                assert forall|k: int| 0 <= k < o@.len() implies #[trigger] self@->Object_0[k]
                    == entries_view(o@)[k] by {
                    let e = o@[k];
                    assert(entries_view(o@)[k] == (e.0@, e.1@));
                }
                assert(self@->Object_0 =~= entries_view(o@));
            },
        }
    }

    /// Compact JSON text of the value.
    pub fn dump(&self) -> (r: String)
        ensures
            r@ == dump(self@),
    {
        let mut r = String::new();
        self.dump_into(&mut r);
        assert(r@ =~= dump(self@));
        r
    }

    /// The text by which the value is compared with the values of a filter.
    pub fn text(&self) -> (r: String)
        ensures
            r@ == text_of(self@),
    {
        match self {
            Value::Str(s) => s.clone(),
            _ => self.dump(),
        }
    }
}

pub(crate) fn copy_items(a: &Vec<Value>) -> (r: Vec<Value>)
    ensures
        items_view(r@) == items_view(a@),
    decreases a,
{
    let mut r: Vec<Value> = Vec::new();
    let mut i: usize = 0;
    while i < a.len()
        invariant
            i <= a@.len(),
            r@.len() == i,
            forall|k: int| 0 <= k < i ==> r@[k]@ == a@[k]@,
        decreases a@.len() - i,
    {
        let x = a[i].copy();
        r.push(x);
        i += 1;
    }
    assert(items_view(r@) =~= items_view(a@));
    r
}

pub(crate) fn copy_entries(o: &Vec<(String, Value)>) -> (r: Vec<(String, Value)>)
    ensures
        entries_view(r@) == entries_view(o@),
    decreases o,
{
    let mut r: Vec<(String, Value)> = Vec::new();
    let mut i: usize = 0;
    while i < o.len()
        invariant
            i <= o@.len(),
            r@.len() == i,
            forall|k: int| 0 <= k < i ==> r@[k].0@ == o@[k].0@ && r@[k].1@ == o@[k].1@,
        decreases o@.len() - i,
    {
        let k = o[i].0.clone();
        let x = o[i].1.copy();
        r.push((k, x));
        i += 1;
    }
    assert(entries_view(r@) =~= entries_view(o@));
    r
}

fn equal_items(a: &Vec<Value>, b: &Vec<Value>) -> (r: bool)
    ensures
        r == (items_view(a@) == items_view(b@)),
    decreases a,
{
    if a.len() != b.len() {
        assert(items_view(a@).len() != items_view(b@).len());
        return false;
    }
    let mut i: usize = 0;
    while i < a.len()
        invariant
            a@.len() == b@.len(),
            i <= a@.len(),
            forall|k: int| 0 <= k < i ==> a@[k]@ == b@[k]@,
        decreases a@.len() - i,
    {
        if !a[i].equals(&b[i]) {
            assert(items_view(a@)[i as int] != items_view(b@)[i as int]);
            return false;
        }
        i += 1;
    }
    assert(items_view(a@) =~= items_view(b@));
    true
}

fn equal_entries(a: &Vec<(String, Value)>, b: &Vec<(String, Value)>) -> (r: bool)
    ensures
        r == (entries_view(a@) == entries_view(b@)),
    decreases a,
{
    if a.len() != b.len() {
        assert(entries_view(a@).len() != entries_view(b@).len());
        return false;
    }
    let mut i: usize = 0;
    while i < a.len()
        invariant
            a@.len() == b@.len(),
            i <= a@.len(),
            forall|k: int| 0 <= k < i ==> a@[k].0@ == b@[k].0@ && a@[k].1@ == b@[k].1@,
        decreases a@.len() - i,
    {
        if a[i].0 != b[i].0 || !a[i].1.equals(&b[i].1) {
            assert(entries_view(a@)[i as int] != entries_view(b@)[i as int]);
            return false;
        }
        i += 1;
    }
    assert(entries_view(a@) =~= entries_view(b@));
    true
}

impl Value {
    /// A copy of the value.
    pub fn copy(&self) -> (r: Value)
        ensures
            r@ == self@,
        decreases self,
    {
        match self {
            Value::Null => Value::Null,
            Value::Bool(b) => Value::Bool(*b),
            Value::Int(i) => Value::Int(*i),
            Value::Str(s) => Value::Str(s.clone()),
            Value::Array(a) => {
                let r = Value::Array(copy_items(a));
                assert(r@->Array_0 =~= items_view(a@));
                assert(self@->Array_0 =~= items_view(a@));
                r
            },
            Value::Object(o) => {
                let c = copy_entries(o);
                let r = Value::Object(c);
                assert(r@->Object_0 =~= entries_view(c@));
                assert(self@->Object_0 =~= entries_view(o@));
                r
            },
        }
    }

    /// Structural equality of two values.
    pub fn equals(&self, other: &Value) -> (r: bool)
        ensures
            r == (self@ == other@),
        decreases self,
    {
        match (self, other) {
            (Value::Null, Value::Null) => true,
            (Value::Bool(a), Value::Bool(b)) => *a == *b,
            (Value::Int(a), Value::Int(b)) => *a == *b,
            (Value::Str(a), Value::Str(b)) => *a == *b,
            (Value::Array(a), Value::Array(b)) => {
                assert(self@->Array_0 =~= items_view(a@));
                assert(other@->Array_0 =~= items_view(b@));
                equal_items(a, b)
            },
            (Value::Object(a), Value::Object(b)) => {
                assert(self@->Object_0 =~= entries_view(a@));
                assert(other@->Object_0 =~= entries_view(b@));
                equal_entries(a, b)
            },
            _ => false,
        }
    }
}

/// An array value holding the given items.
pub fn make_array(items: Vec<Value>) -> (r: Value)
    ensures
        r@ == JVal::Array(items_view(items@)),
{
    let ghost iv = items_view(items@);
    let r = Value::Array(items);
    assert(r@->Array_0 =~= iv);
    r
}

/// An object value holding the given entries.
pub fn make_object(entries: Vec<(String, Value)>) -> (r: Value)
    ensures
        r@ == JVal::Object(entries_view(entries@)),
{
    let ghost ev = entries_view(entries@);
    let r = Value::Object(entries);
    assert forall|k: int| 0 <= k < ev.len() implies #[trigger] r@->Object_0[k] == ev[k] by {}
    assert(r@->Object_0 =~= ev);
    r
}

/// Appends an entry to the entries of an object under construction.
pub fn push_entry(entries: &mut Vec<(String, Value)>, key: &str, v: Value)
    ensures
        entries_view(final(entries)@) == entries_view(old(entries)@).push((key@, v@)),
{
    let ghost before = entries_view(entries@);
    let ghost vv = v@;
    entries.push((crate::text::lit(key), v));
    assert(entries_view(entries@) =~= before.push((key@, vv)));
}

/// An object with the single entry `key: v`.
pub fn single_entry(key: &str, v: Value) -> (r: Value)
    ensures
        r@ == JVal::Object(seq![(key@, v@)]),
{
    let mut es: Vec<(String, Value)> = Vec::new();
    push_entry(&mut es, key, v);
    let r = make_object(es);
    assert(r@->Object_0 =~= seq![(key@, v@)]);
    r
}

/// A string value.
pub fn str_value(s: &str) -> (r: Value)
    ensures
        r@ == JVal::Str(s@),
{
    Value::Str(crate::text::lit(s))
}

} // verus!

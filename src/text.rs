//! Character-level helpers shared by the parsers of the library.
use vstd::prelude::*;

verus! {

/// Relies on std's `String::push`: the character is appended at the end.
#[verifier::external_body]
pub(crate) fn push_char(s: &mut String, c: char)
    ensures
        final(s)@ == old(s)@.push(c),
{
    s.push(c)
}

/// True when `n` occurs in `h` starting at index `i`.
pub open spec fn occurs_at(h: Seq<char>, n: Seq<char>, i: int) -> bool {
    0 <= i && i + n.len() <= h.len() && h.subrange(i, i + n.len()) == n
}

/// The first index at or after `i` where `n` occurs in `h`.
pub open spec fn find_from(h: Seq<char>, n: Seq<char>, i: int) -> Option<int>
    decreases h.len() + 1 - i,
{
    if i < 0 || i + n.len() > h.len() {
        None
    } else if h.subrange(i, i + n.len()) == n {
        Some(i)
    } else {
        find_from(h, n, i + 1)
    }
}

/// The first index where `n` occurs in `h`.
pub open spec fn find_spec(h: Seq<char>, n: Seq<char>) -> Option<int> {
    find_from(h, n, 0)
}

/// The last index where the character `c` occurs in `h`.
pub open spec fn rfind_char_spec(h: Seq<char>, c: char) -> Option<int>
    decreases h.len(),
{
    if h.len() == 0 {
        None
    } else if h.last() == c {
        Some(h.len() - 1)
    } else {
        rfind_char_spec(h.drop_last(), c)
    }
}

pub open spec fn starts_with_spec(h: Seq<char>, p: Seq<char>) -> bool {
    p.len() <= h.len() && h.subrange(0, p.len() as int) == p
}

pub proof fn lemma_find_from_found(h: Seq<char>, n: Seq<char>, i: int)
    requires
        find_from(h, n, i) is Some,
    ensures
        occurs_at(h, n, find_from(h, n, i)->0),
        i <= find_from(h, n, i)->0,
    decreases h.len() + 1 - i,
{
    if i < 0 || i + n.len() > h.len() {
    } else if h.subrange(i, i + n.len()) == n {
    } else {
        lemma_find_from_found(h, n, i + 1);
    }
}

/// The characters of a string, as a vector.
pub fn chars_of(s: &str) -> (r: Vec<char>)
    ensures
        r@ == s@,
{
    let n = s.unicode_len();
    let mut r: Vec<char> = Vec::new();
    let mut i: usize = 0;
    while i < n
        invariant
            n == s@.len(),
            i <= n,
            r@ == s@.subrange(0, i as int),
        decreases n - i,
    {
        r.push(s.get_char(i));
        i += 1;
    }
    assert(r@ =~= s@);
    r
}

/// A string holding exactly the given characters.
pub fn string_of(v: &[char]) -> (r: String)
    ensures
        r@ == v@,
{
    let mut r = String::new();
    let mut i: usize = 0;
    while i < v.len()
        invariant
            i <= v@.len(),
            r@ == v@.subrange(0, i as int),
        decreases v@.len() - i,
    {
        push_char(&mut r, v[i]);
        i += 1;
    }
    assert(r@ =~= v@);
    r
}

/// The characters `v[from..to]` as a string.
pub fn substring(v: &[char], from: usize, to: usize) -> (r: String)
    requires
        from <= to <= v@.len(),
    ensures
        r@ == v@.subrange(from as int, to as int),
{
    let mut r = String::new();
    let mut i: usize = from;
    while i < to
        invariant
            from <= i <= to <= v@.len(),
            r@ == v@.subrange(from as int, i as int),
        decreases to - i,
    {
        push_char(&mut r, v[i]);
        i += 1;
    }
    assert(r@ =~= v@.subrange(from as int, to as int));
    r
}

/// The characters `v[from..to]`.
pub fn sub_chars(v: &[char], from: usize, to: usize) -> (r: Vec<char>)
    requires
        from <= to <= v@.len(),
    ensures
        r@ == v@.subrange(from as int, to as int),
{
    let mut r: Vec<char> = Vec::new();
    let mut i: usize = from;
    while i < to
        invariant
            from <= i <= to <= v@.len(),
            r@ == v@.subrange(from as int, i as int),
        decreases to - i,
    {
        r.push(v[i]);
        i += 1;
    }
    r
}

/// A string holding the characters of a literal.
pub fn lit(s: &str) -> (r: String)
    ensures
        r@ == s@,
{
    String::from_str(s)
}

/// Appends the characters of `t` to `s`.
pub fn push_str(s: &mut String, t: &str)
    ensures
        final(s)@ == old(s)@ + t@,
{
    s.append(t);
}

/// Equality of two strings, character by character.
pub fn eq_str(a: &str, b: &str) -> (r: bool)
    ensures
        r == (a@ == b@),
{
    let n = a.unicode_len();
    let m = b.unicode_len();
    if n != m {
        return false;
    }
    let mut i: usize = 0;
    while i < n
        invariant
            n == a@.len(),
            m == b@.len(),
            n == m,
            i <= n,
            a@.subrange(0, i as int) == b@.subrange(0, i as int),
        decreases n - i,
    {
        if a.get_char(i) != b.get_char(i) {
            assert(a@.subrange(0, i as int + 1)[i as int] != b@.subrange(0, i as int + 1)[i as int]);
            return false;
        }
        assert(a@.subrange(0, i as int + 1) =~= a@.subrange(0, i as int).push(a@[i as int]));
        assert(b@.subrange(0, i as int + 1) =~= b@.subrange(0, i as int).push(b@[i as int]));
        i += 1;
    }
    assert(a@ =~= a@.subrange(0, n as int));
    assert(b@ =~= b@.subrange(0, n as int));
    true
}

/// Whether `n` occurs in `h` at index `i`.
pub fn occurs_at_exec(h: &[char], n: &[char], i: usize) -> (r: bool)
    ensures
        r == occurs_at(h@, n@, i as int),
{
    if n.len() > h.len() || i > h.len() - n.len() {
        return false;
    }
    let mut j: usize = 0;
    while j < n.len()
        invariant
            i + n@.len() <= h@.len(),
            h@.len() <= usize::MAX,
            j <= n@.len(),
            forall|k: int| 0 <= k < j ==> h@[i + k] == n@[k],
        decreases n@.len() - j,
    {
        if h[i + j] != n[j] {
            assert(h@.subrange(i as int, i + n@.len())[j as int] != n@[j as int]);
            return false;
        }
        j += 1;
    }
    assert(h@.subrange(i as int, i + n@.len()) =~= n@);
    true
}

/// The first index where `n` occurs in `h`.
pub fn find(h: &[char], n: &[char]) -> (r: Option<usize>)
    ensures
        r matches Some(i) ==> find_spec(h@, n@) == Some(i as int),
        r is None ==> find_spec(h@, n@) is None,
{
    if n.len() > h.len() {
        return None;
    }
    let last = h.len() - n.len();
    let mut i: usize = 0;
    while i < last
        invariant
            n@.len() <= h@.len(),
            last == h@.len() - n@.len(),
            i <= last,
            find_from(h@, n@, 0) == find_from(h@, n@, i as int),
        decreases last - i,
    {
        if occurs_at_exec(h, n, i) {
            return Some(i);
        }
        i += 1;
    }
    if occurs_at_exec(h, n, last) {
        Some(last)
    } else {
        assert(find_from(h@, n@, last as int + 1) is None);
        None
    }
}

/// The first index where the character `c` occurs in `h`.
pub fn find_char(h: &[char], c: char) -> (r: Option<usize>)
    ensures
        r matches Some(i) ==> find_spec(h@, seq![c]) == Some(i as int),
        r is None ==> find_spec(h@, seq![c]) is None,
{
    let n = vec![c];
    assert(n@ =~= seq![c]);
    find(h, n.as_slice())
}

/// The last index where the character `c` occurs in `h`.
pub fn rfind_char(h: &[char], c: char) -> (r: Option<usize>)
    ensures
        r matches Some(i) ==> rfind_char_spec(h@, c) == Some(i as int),
        r is None ==> rfind_char_spec(h@, c) is None,
{
    let mut i: usize = h.len();
    assert(h@.subrange(0, i as int) =~= h@);
    while i > 0
        invariant
            i <= h@.len(),
            rfind_char_spec(h@, c) == rfind_char_spec(h@.subrange(0, i as int), c),
        decreases i,
    {
        assert(h@.subrange(0, i as int).drop_last() =~= h@.subrange(0, i - 1));
        if h[i - 1] == c {
            return Some(i - 1);
        }
        i -= 1;
    }
    None
}

pub fn starts_with(h: &[char], p: &[char]) -> (r: bool)
    ensures
        r == starts_with_spec(h@, p@),
{
    occurs_at_exec(h, p, 0)
}


/// A character that first occurs at `target`, from `i` on, is found there.
pub proof fn lemma_find_char_at(h: Seq<char>, c: char, i: int, target: int)
    requires
        0 <= i <= target < h.len(),
        h[target] == c,
        forall|j: int| i <= j < target ==> h[j] != c,
    ensures
        find_from(h, seq![c], i) == Some(target),
    decreases target - i,
{
    if i == target {
        assert(h.subrange(i, i + 1) =~= seq![c]);
    } else {
        assert(h.subrange(i, i + 1)[0] != c);
        assert(h.subrange(i, i + 1) != seq![c]);
        lemma_find_char_at(h, c, i + 1, target);
    }
}

/// In `k + c + rest`, where `k` does not hold `c`, the first `c` follows `k`.
pub proof fn lemma_find_char_after(k: Seq<char>, c: char, rest: Seq<char>)
    requires
        forall|j: int| 0 <= j < k.len() ==> k[j] != c,
    ensures
        find_spec(k.push(c) + rest, seq![c]) == Some(k.len() as int),
{
    let h = k.push(c) + rest;
    assert forall|j: int| 0 <= j < k.len() implies h[j] != c by {
        assert(h[j] == k[j]);
    }
    assert(h[k.len() as int] == c);
    lemma_find_char_at(h, c, 0, k.len() as int);
}

/// A needle whose first character does not occur in `h` from `i` up to
/// `target`, and that occurs at `target`, is found there.
pub proof fn lemma_find_at(h: Seq<char>, n: Seq<char>, i: int, target: int)
    requires
        0 <= i <= target,
        n.len() > 0,
        occurs_at(h, n, target),
        forall|j: int| i <= j < target ==> h[j] != n[0],
    ensures
        find_from(h, n, i) == Some(target),
    decreases target - i,
{
    if i < target {
        assert(h.subrange(i, i + n.len())[0] == h[i]);
        lemma_find_at(h, n, i + 1, target);
    }
}

/// A needle whose first character does not occur in `h` from `i` on is
/// not found.
pub proof fn lemma_find_absent(h: Seq<char>, n: Seq<char>, i: int)
    requires
        0 <= i,
        n.len() > 0,
        forall|j: int| i <= j < h.len() ==> h[j] != n[0],
    ensures
        find_from(h, n, i) is None,
    decreases h.len() + 1 - i,
{
    if i + n.len() <= h.len() {
        assert(h.subrange(i, i + n.len())[0] == h[i]);
        lemma_find_absent(h, n, i + 1);
    }
}

} // verus!

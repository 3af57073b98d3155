//! String handling: splitting, and the `$` / `%` substitutions.
use vstd::prelude::*;
use crate::text::{chars_of, find, find_spec, rfind_char, rfind_char_spec, string_of, substring, sub_chars};

verus! {

/// The text before and after the first occurrence of `d` in `t`.
pub open spec fn split_at_delim_spec(t: Seq<char>, d: Seq<char>) -> Option<(Seq<char>, Seq<char>)> {
    match find_spec(t, d) {
        Some(i) => Some((t.subrange(0, i), t.subrange(i + d.len(), t.len() as int))),
        None => None,
    }
}

/// Splits `txt` at the first occurrence of `delim`.
pub fn split_at_delim(txt: &str, delim: &str) -> (r: Option<(String, String)>)
    ensures
        r is None <==> split_at_delim_spec(txt@, delim@) is None,
        r matches Some(p) ==> split_at_delim_spec(txt@, delim@) == Some((p.0@, p.1@)),
{
    let t = chars_of(txt);
    let d = chars_of(delim);
    match find(t.as_slice(), d.as_slice()) {
        Some(i) => {
            proof { crate::text::lemma_find_from_found(t@, d@, 0); }
            assert(crate::text::occurs_at(t@, d@, i as int));
            let n = t.len();
            let dl = d.len();
            let a = substring(t.as_slice(), 0, i);
            let b = substring(t.as_slice(), i + dl, n);
            Some((a, b))
        },
        None => None,
    }
}

pub open spec fn is_ws(c: char) -> bool {
    c == ' ' || c == '\t' || c == '\n' || c == '\r'
}

/// The words of `t` separated by whitespace, with `cur` the word in progress.
pub open spec fn words_from(t: Seq<char>, cur: Seq<char>) -> Seq<Seq<char>>
    decreases t.len(),
{
    if t.len() == 0 {
        if cur.len() > 0 {
            seq![cur]
        } else {
            Seq::empty()
        }
    } else if is_ws(t[0]) {
        (if cur.len() > 0 {
            seq![cur]
        } else {
            Seq::empty()
        }) + words_from(t.drop_first(), Seq::empty())
    } else {
        words_from(t.drop_first(), cur.push(t[0]))
    }
}

/// The words of `t` separated by whitespace.
pub open spec fn words(t: Seq<char>) -> Seq<Seq<char>> {
    words_from(t, Seq::empty())
}

/// The whitespace-separated words of a text.
pub fn split_whitespace(t: &[char]) -> (r: Vec<String>)
    ensures
        r@.map_values(|s: String| s@) == words(t@),
{
    let mut r: Vec<String> = Vec::new();
    let mut cur: Vec<char> = Vec::new();
    let mut i: usize = 0;
    assert(t@.subrange(0, t@.len() as int) =~= t@);
    assert(r@.map_values(|s: String| s@) + words(t@) =~= words(t@));
    while i < t.len()
        invariant
            i <= t@.len(),
            r@.map_values(|s: String| s@) + words_from(t@.subrange(i as int, t@.len() as int), cur@)
                == words(t@),
        decreases t@.len() - i,
    {
        let ghost rest = t@.subrange(i as int, t@.len() as int);
        assert(rest.drop_first() =~= t@.subrange(i + 1, t@.len() as int));
        let c = t[i];
        if c == ' ' || c == '\t' || c == '\n' || c == '\r' {
            if cur.len() > 0 {
                let ghost before = r@.map_values(|s: String| s@);
                let w = string_of(cur.as_slice());
                r.push(w);
                assert(r@.map_values(|s: String| s@) =~= before + seq![cur@]);
                cur = Vec::new();
                assert(before + seq![cur@] + words_from(rest.drop_first(), Seq::empty())
                    =~= before + (seq![cur@] + words_from(rest.drop_first(), Seq::empty())));
            } else {
                assert(words_from(rest, cur@) =~= words_from(rest.drop_first(), Seq::empty()));
                cur = Vec::new();
            }
        } else {
            cur.push(c);
        }
        i += 1;
    }
    if cur.len() > 0 {
        let ghost before = r@.map_values(|s: String| s@);
        let w = string_of(cur.as_slice());
        r.push(w);
        assert(r@.map_values(|s: String| s@) =~= before + seq![cur@]);
    }
    r
}

/// The part of a path after its last `/`.
pub open spec fn basename_spec(t: Seq<char>) -> Seq<char> {
    match rfind_char_spec(t, '/') {
        Some(i) => t.subrange(i + 1, t.len() as int),
        None => t,
    }
}

pub proof fn lemma_rfind_char_bound(h: Seq<char>, c: char)
    ensures
        rfind_char_spec(h, c) matches Some(i) ==> 0 <= i < h.len() && h[i] == c,
    decreases h.len(),
{
    if h.len() > 0 && h.last() != c {
        lemma_rfind_char_bound(h.drop_last(), c);
    }
}

/// A file name without its extension; a `.tar` before the extension goes too.
pub open spec fn filestem_of(b: Seq<char>) -> Seq<char>
    decreases b.len(),
{
    match rfind_char_spec(b, '.') {
        Some(i) => if 0 <= i < b.len() {
            let stem = b.subrange(0, i);
            if stem.len() >= 4 && stem.subrange(stem.len() - 4, stem.len() as int) == seq!['.', 't', 'a', 'r'] {
                filestem_of(stem)
            } else {
                stem
            }
        } else {
            b
        },
        None => b,
    }
}

pub open spec fn filestem_spec(t: Seq<char>) -> Seq<char> {
    filestem_of(basename_spec(t))
}

/// The part of a path after its last `/`.
pub fn basename(arg: &str) -> (r: String)
    ensures
        r@ == basename_spec(arg@),
{
    let t = chars_of(arg);
    proof { lemma_rfind_char_bound(t@, '/'); }
    match rfind_char(t.as_slice(), '/') {
        Some(i) => substring(t.as_slice(), i + 1, t.len()),
        None => string_of(t.as_slice()),
    }
}

fn filestem_chars(b: &Vec<char>) -> (r: Vec<char>)
    ensures
        r@ == filestem_of(b@),
    decreases b@.len(),
{
    proof { lemma_rfind_char_bound(b@, '.'); }
    match rfind_char(b.as_slice(), '.') {
        Some(i) => {
            let stem = sub_chars(b.as_slice(), 0, i);
            let n = stem.len();
            if n >= 4 && stem[n - 4] == '.' && stem[n - 3] == 't' && stem[n - 2] == 'a' && stem[n - 1] == 'r' {
                assert(stem@.subrange(n - 4, n as int) =~= seq!['.', 't', 'a', 'r']);
                filestem_chars(&stem)
            } else {
                assert(n >= 4 ==> stem@.subrange(n - 4, n as int)[0] == stem@[n - 4]);
                assert(n >= 4 ==> stem@.subrange(n - 4, n as int)[1] == stem@[n - 3]);
                assert(n >= 4 ==> stem@.subrange(n - 4, n as int)[2] == stem@[n - 2]);
                assert(n >= 4 ==> stem@.subrange(n - 4, n as int)[3] == stem@[n - 1]);
                stem
            }
        },
        None => b.clone(),
    }
}

/// A file name without directory and extension (`pkg-1.2.tar.gz` gives `pkg-1.2`).
pub fn filestem(arg: &str) -> (r: String)
    ensures
        r@ == filestem_spec(arg@),
{
    let b = basename(arg);
    let bc = chars_of(b.as_str());
    let s = filestem_chars(&bc);
    string_of(s.as_slice())
}

pub open spec fn is_digit(c: char) -> bool {
    '0' <= c && c <= '9'
}

/// The first index at or after `i` of a `-` or `_` followed by a digit.
pub open spec fn version_sep_from(t: Seq<char>, i: int) -> Option<int>
    decreases t.len() - i,
{
    if i < 0 || i + 1 >= t.len() {
        None
    } else if (t[i] == '-' || t[i] == '_') && is_digit(t[i + 1]) {
        Some(i)
    } else {
        version_sep_from(t, i + 1)
    }
}

pub proof fn lemma_version_sep_bound(t: Seq<char>, i: int)
    ensures
        version_sep_from(t, i) matches Some(j) ==> i <= j && j + 1 < t.len(),
    decreases t.len() - i,
{
    if !(i < 0 || i + 1 >= t.len()) && !((t[i] == '-' || t[i] == '_') && is_digit(t[i + 1])) {
        lemma_version_sep_bound(t, i + 1);
    }
}

/// A package file name split into name and version at the first `-` or
/// `_` that a digit follows.
pub open spec fn split_version_spec(name: Seq<char>) -> Option<(Seq<char>, Seq<char>)> {
    let stem = filestem_spec(name);
    match version_sep_from(stem, 0) {
        Some(i) => Some((stem.subrange(0, i), stem.subrange(i + 1, stem.len() as int))),
        None => None,
    }
}

pub fn split_version(name: &str) -> (r: Option<(String, String)>)
    ensures
        r is None <==> split_version_spec(name@) is None,
        r matches Some(p) ==> split_version_spec(name@) == Some((p.0@, p.1@)),
{
    let stem = filestem(name);
    let t = chars_of(stem.as_str());
    let n = t.len();
    let mut i: usize = 0;
    while n > 0 && i < n - 1
        invariant
            t@ == filestem_spec(name@),
            n == t@.len(),
            i <= n,
            version_sep_from(t@, 0) == version_sep_from(t@, i as int),
        decreases n - i,
    {
        let c = t[i];
        let d = t[i + 1];
        if (c == '-' || c == '_') && '0' <= d && d <= '9' {
            return Some((substring(t.as_slice(), 0, i), substring(t.as_slice(), i + 1, n)));
        }
        i += 1;
    }
    None
}

/// The characters of `s` but its dots.
pub open spec fn drop_dots(s: Seq<char>) -> Seq<char>
    decreases s.len(),
{
    if s.len() == 0 {
        s
    } else if s.last() == '.' {
        drop_dots(s.drop_last())
    } else {
        drop_dots(s.drop_last()).push(s.last())
    }
}

/// A name with its dots removed, so that it can serve as a key.
pub fn massage_valid_key(name: &str) -> (r: String)
    ensures
        r@ == drop_dots(name@),
{
    let t = chars_of(name);
    let mut out: Vec<char> = Vec::new();
    let mut i: usize = 0;
    while i < t.len()
        invariant
            t@ == name@,
            i <= t@.len(),
            out@ == drop_dots(t@.subrange(0, i as int)),
        decreases t@.len() - i,
    {
        assert(t@.subrange(0, i + 1).drop_last() =~= t@.subrange(0, i as int));
        if t[i] != '.' {
            out.push(t[i]);
        }
        i += 1;
    }
    assert(t@.subrange(0, t@.len() as int) =~= t@);
    string_of(out.as_slice())
}

/// The views of a sequence of strings.
pub open spec fn strings_view(v: Seq<String>) -> Seq<Seq<char>> {
    v.map_values(|a: String| a@)
}

/// What a `$` or `%` pattern is replaced with: positional arguments, or
/// the address, name and time (in seconds) of an agent.
pub enum Lookup {
    Args(Vec<String>),
    Destination(String, String, i64),
}

/// The mathematical form of a [`Lookup`].
pub enum LookupM {
    Args(Seq<Seq<char>>),
    Destination(Seq<char>, Seq<char>, int),
}

impl View for Lookup {
    type V = LookupM;

    open spec fn view(&self) -> LookupM {
        match self {
            Lookup::Args(args) => LookupM::Args(strings_view(args@)),
            Lookup::Destination(addr, name, time) => LookupM::Destination(addr@, name@, *time as int),
        }
    }
}

pub open spec fn digit_value(c: char) -> int {
    (c as u32) as int - ('0' as u32) as int
}

/// The replacement of `$K` or `$(K:kind)` among positional arguments
/// (`K` counts from 1); `Err` for a bad index or an unknown kind.
pub open spec fn arg_subst(args: Seq<Seq<char>>, ch: char, kind: Option<Seq<char>>) -> Result<Seq<char>, ()> {
    if !is_digit(ch) || digit_value(ch) < 1 || digit_value(ch) > args.len() {
        Err(())
    } else {
        let arg = args[digit_value(ch) - 1];
        match kind {
            None => Ok(arg),
            Some(k) => if k == "package"@ {
                match split_version_spec(arg) {
                    Some(p) => Ok(drop_dots(p.0)),
                    None => Ok(arg),
                }
            } else if k == "version"@ {
                match split_version_spec(arg) {
                    Some(p) => Ok(p.1),
                    None => Ok(Seq::empty()),
                }
            } else if k == "base"@ {
                Ok(basename_spec(arg))
            } else if k == "stem"@ {
                Ok(filestem_spec(arg))
            } else {
                Err(())
            },
        }
    }
}

/// The replacement of `%a`, `%n` or `%t` in a destination path.
pub open spec fn dest_subst(addr: Seq<char>, name: Seq<char>, time: int, ch: char) -> Result<Seq<char>, ()> {
    if ch == 'a' {
        Ok(addr)
    } else if ch == 'n' {
        Ok(name)
    } else if ch == 't' {
        Ok(crate::value::int_text(time))
    } else {
        Err(())
    }
}

pub open spec fn lookup_spec(lk: LookupM, ch: char, kind: Option<Seq<char>>) -> Result<Seq<char>, ()> {
    match lk {
        LookupM::Args(args) => arg_subst(args, ch, kind),
        LookupM::Destination(addr, name, time) => dest_subst(addr, name, time, ch),
    }
}

/// `r` with `p` in front of its success.
pub open spec fn prefixed(p: Seq<char>, r: Result<Seq<char>, ()>) -> Result<Seq<char>, ()> {
    match r {
        Ok(x) => Ok(p + x),
        Err(e) => Err(e),
    }
}

/// The text with every pattern that starts with `c` replaced: `cc` is a
/// literal `c`; `cK` and `c(K:kind)` are looked up.
pub open spec fn subst_spec(s: Seq<char>, c: char, lk: LookupM) -> Result<Seq<char>, ()>
    decreases s.len(),
{
    match find_spec(s, seq![c]) {
        None => Ok(s),
        Some(pos) => if pos < 0 || pos >= s.len() {
            Err(())
        } else {
            let pre = s.subrange(0, pos);
            let t = s.subrange(pos + 1, s.len() as int);
            if t.len() == 0 {
                Err(())
            } else if t[0] == c {
                prefixed(pre.push(c), subst_spec(t.subrange(1, t.len() as int), c, lk))
            } else if t[0] == '(' {
                if t.len() < 3 {
                    Err(())
                } else if t[2] == ':' {
                    match find_spec(t.subrange(3, t.len() as int), seq![')']) {
                        None => Err(()),
                        Some(k) => if k < 0 || 4 + k > t.len() {
                            Err(())
                        } else {
                            match lookup_spec(lk, t[1], Some(t.subrange(3, 3 + k))) {
                                Err(e) => Err(e),
                                Ok(v) => prefixed(pre + v, subst_spec(t.subrange(4 + k, t.len() as int), c, lk)),
                            }
                        },
                    }
                } else {
                    match lookup_spec(lk, t[1], None) {
                        Err(e) => Err(e),
                        Ok(v) => prefixed(pre + v, subst_spec(t.subrange(1, t.len() as int), c, lk)),
                    }
                }
            } else {
                match lookup_spec(lk, t[0], None) {
                    Err(e) => Err(e),
                    Ok(v) => prefixed(pre + v, subst_spec(t.subrange(1, t.len() as int), c, lk)),
                }
            }
        },
    }
}

pub open spec fn opt_view(o: Option<String>) -> Option<Seq<char>> {
    match o {
        Some(s) => Some(s@),
        None => None,
    }
}

fn arg_lookup(args: &Vec<String>, ch: char, kind: Option<String>) -> (r: Result<String, String>)
    ensures
        r is Err <==> arg_subst(strings_view(args@), ch, opt_view(kind)) is Err,
        r matches Ok(v) ==> arg_subst(strings_view(args@), ch, opt_view(kind))
            == Ok::<Seq<char>, ()>(v@),
{
    let ghost av = strings_view(args@);
    if !('0' <= ch && ch <= '9') {
        return Err(crate::text::lit("substitution index is not a digit"));
    }
    let idx: u32 = (ch as u32) - ('0' as u32);
    if idx < 1 || idx as usize > args.len() {
        return Err(crate::text::lit("substitution index out of range"));
    }
    let arg = &args[(idx - 1) as usize];
    assert(av[idx - 1] == arg@);
    match kind {
        None => Ok(arg.clone()),
        Some(k) => {
            if crate::text::eq_str(k.as_str(), "package") {
                match split_version(arg.as_str()) {
                    Some((name, _)) => Ok(massage_valid_key(name.as_str())),
                    None => Ok(arg.clone()),
                }
            } else if crate::text::eq_str(k.as_str(), "version") {
                match split_version(arg.as_str()) {
                    Some((_, vs)) => Ok(vs),
                    None => Ok(String::new()),
                }
            } else if crate::text::eq_str(k.as_str(), "base") {
                Ok(basename(arg.as_str()))
            } else if crate::text::eq_str(k.as_str(), "stem") {
                Ok(filestem(arg.as_str()))
            } else {
                let mut msg = crate::text::lit("substitution invalid kind ");
                crate::text::push_str(&mut msg, k.as_str());
                Err(msg)
            }
        },
    }
}

fn lookup_exec(lk: &Lookup, ch: char, kind: Option<String>) -> (r: Result<String, String>)
    ensures
        r is Err <==> lookup_spec(lk@, ch, opt_view(kind)) is Err,
        r matches Ok(v) ==> lookup_spec(lk@, ch, opt_view(kind)) == Ok::<Seq<char>, ()>(v@),
{
    match lk {
        Lookup::Args(args) => arg_lookup(args, ch, kind),
        Lookup::Destination(addr, name, time) => {
            if ch == 'a' {
                Ok(addr.clone())
            } else if ch == 'n' {
                Ok(name.clone())
            } else if ch == 't' {
                Ok(crate::value::int_to_text(*time))
            } else {
                let mut msg = crate::text::lit("%");
                crate::text::push_char(&mut msg, ch);
                crate::text::push_str(&mut msg, " is not recognized in destination filenames");
                Err(msg)
            }
        },
    }
}

proof fn lemma_prefixed_assoc(a: Seq<char>, b: Seq<char>, x: Result<Seq<char>, ()>)
    ensures
        prefixed(a, prefixed(b, x)) == prefixed(a + b, x),
{
    if let Ok(r) = x {
        assert(a + (b + r) =~= (a + b) + r);
    }
}

/// Replaces the patterns that start with `startc` in `text`, asking
/// `lookup` for each.
pub fn replace_percent_patterns(text: &str, startc: char, lookup: &Lookup) -> (r: Result<String, String>)
    ensures
        r is Err <==> subst_spec(text@, startc, lookup@) is Err,
        r matches Ok(v) ==> subst_spec(text@, startc, lookup@) == Ok::<Seq<char>, ()>(v@),
{
    let mut rest = chars_of(text);
    let mut res = String::new();
    assert(res@ + text@ =~= text@);
    loop
        invariant
            prefixed(res@, subst_spec(rest@, startc, lookup@)) == subst_spec(text@, startc, lookup@),
        decreases rest@.len(),
    {
        let ghost s = rest@;
        let ghost before = res@;
        let n = rest.len();
        match crate::text::find_char(rest.as_slice(), startc) {
            None => {
                let tail = string_of(rest.as_slice());
                crate::text::push_str(&mut res, tail.as_str());
                return Ok(res);
            },
            Some(pos) => {
                proof { crate::text::lemma_find_from_found(s, seq![startc], 0); }
                let pre = substring(rest.as_slice(), 0, pos);
                crate::text::push_str(&mut res, pre.as_str());
                let t = sub_chars(rest.as_slice(), pos + 1, n);
                let tn = t.len();
                if tn == 0 {
                    return Err(crate::text::lit("substitution pattern at end of text"));
                }
                if t[0] == startc {
                    crate::text::push_char(&mut res, startc);
                    rest = sub_chars(t.as_slice(), 1, tn);
                    assert(before + pre@.push(startc) =~= res@);
                    proof { lemma_prefixed_assoc(before, pre@.push(startc), subst_spec(rest@, startc, lookup@)); }
                } else if t[0] == '(' {
                    if tn < 3 {
                        return Err(crate::text::lit("no closing parens"));
                    }
                    if t[2] == ':' {
                        let after = sub_chars(t.as_slice(), 3, tn);
                        match crate::text::find_char(after.as_slice(), ')') {
                            None => {
                                return Err(crate::text::lit("no closing parens"));
                            },
                            Some(k) => {
                                proof { crate::text::lemma_find_from_found(after@, seq![')'], 0); }
                                let kind = substring(t.as_slice(), 3, 3 + k);
                                assert(kind@ =~= t@.subrange(3, 3 + k));
                                match lookup_exec(lookup, t[1], Some(kind)) {
                                    Err(e) => {
                                        return Err(e);
                                    },
                                    Ok(v) => {
                                        crate::text::push_str(&mut res, v.as_str());
                                        rest = sub_chars(t.as_slice(), 4 + k, tn);
                                        assert(before + (pre@ + v@) =~= res@);
                                        proof { lemma_prefixed_assoc(before, pre@ + v@, subst_spec(rest@, startc, lookup@)); }
                                    },
                                }
                            },
                        }
                    } else {
                        match lookup_exec(lookup, t[1], None) {
                            Err(e) => {
                                return Err(e);
                            },
                            Ok(v) => {
                                crate::text::push_str(&mut res, v.as_str());
                                rest = sub_chars(t.as_slice(), 1, tn);
                                assert(before + (pre@ + v@) =~= res@);
                                proof { lemma_prefixed_assoc(before, pre@ + v@, subst_spec(rest@, startc, lookup@)); }
                            },
                        }
                    }
                } else {
                    match lookup_exec(lookup, t[0], None) {
                        Err(e) => {
                            return Err(e);
                        },
                        Ok(v) => {
                            crate::text::push_str(&mut res, v.as_str());
                            rest = sub_chars(t.as_slice(), 1, tn);
                            assert(before + (pre@ + v@) =~= res@);
                            proof { lemma_prefixed_assoc(before, pre@ + v@, subst_spec(rest@, startc, lookup@)); }
                        },
                    }
                }
            },
        }
    }
}

/// Replaces `%a`, `%n` and `%t` in a destination path with the agent's
/// address, name and the time in seconds; `%%` is a literal `%`.
pub fn replace_percent_destination(text: &str, addr: &str, name: &str, now_secs: i64) -> (r: Result<String, String>)
    ensures
        r is Err <==> subst_spec(text@, '%', LookupM::Destination(addr@, name@, now_secs as int)) is Err,
        r matches Ok(v) ==> subst_spec(text@, '%', LookupM::Destination(addr@, name@, now_secs as int))
            == Ok::<Seq<char>, ()>(v@),
{
    let lk = Lookup::Destination(crate::text::lit(addr), crate::text::lit(name), now_secs);
    replace_percent_patterns(text, '%', &lk)
}

/// Replaces `$K`, `$(K:package)`, `$(K:version)`, `$(K:base)` and
/// `$(K:stem)` with the positional arguments; `$$` is a literal `$`.
pub fn replace_dollar_args(text: &str, args: &Vec<String>) -> (r: Result<String, String>)
    ensures
        r is Err <==> subst_spec(text@, '$', LookupM::Args(strings_view(args@))) is Err,
        r matches Ok(v) ==> subst_spec(text@, '$', LookupM::Args(strings_view(args@))) == Ok::<Seq<char>, ()>(v@),
{
    let lk = Lookup::Args(args.clone());
    replace_percent_patterns(text, '$', &lk)
}

/// Applies [`replace_dollar_args`] to each text; fails at the first failure.
pub fn replace_dollar_args_array(strings: &Vec<String>, args: &Vec<String>) -> (r: Result<Vec<String>, String>)
    ensures
        r is Err <==> exists|i: int|
            0 <= i < strings@.len() && #[trigger] subst_spec(
                strings@[i]@,
                '$',
                LookupM::Args(strings_view(args@)),
            ) is Err,
        r matches Ok(v) ==> v@.len() == strings@.len() && forall|i: int|
            0 <= i < strings@.len() ==> #[trigger] subst_spec(
                strings@[i]@,
                '$',
                LookupM::Args(strings_view(args@)),
            ) == Ok::<Seq<char>, ()>(v@[i]@),
{
    let ghost lk = LookupM::Args(strings_view(args@));
    let mut res: Vec<String> = Vec::new();
    let mut i: usize = 0;
    while i < strings.len()
        invariant
            lk == LookupM::Args(strings_view(args@)),
            i <= strings@.len(),
            res@.len() == i,
            forall|j: int| 0 <= j < i ==> #[trigger] subst_spec(strings@[j]@, '$', lk) == Ok::<
                Seq<char>,
                (),
            >(res@[j]@),
        decreases strings@.len() - i,
    {
        match replace_dollar_args(strings[i].as_str(), args) {
            Ok(v) => res.push(v),
            Err(e) => {
                assert(subst_spec(strings@[i as int]@, '$', lk) is Err);
                return Err(e);
            },
        }
        i += 1;
    }
    Ok(res)
}

/// The value of a string of decimal digits.
pub open spec fn digits_value(d: Seq<char>) -> int
    decreases d.len(),
{
    if d.len() == 0 {
        0
    } else {
        digits_value(d.drop_last()) * 10 + digit_value(d.last())
    }
}

/// Whether a text reads as a `u32`: an optional `+`, then decimal digits
/// whose value fits.
pub open spec fn reads_as_u32(p: Seq<char>) -> bool {
    digits_fit_u32(unsigned_part(p))
}

/// The text without one leading `+`.
pub open spec fn unsigned_part(p: Seq<char>) -> Seq<char> {
    if p.len() > 0 && p[0] == '+' {
        p.drop_first()
    } else {
        p
    }
}

/// Decimal digits, at least one, whose value fits in a `u32`.
pub open spec fn digits_fit_u32(d: Seq<char>) -> bool {
    d.len() > 0 && (forall|i: int| 0 <= i < d.len() ==> is_digit(#[trigger] d[i])) && digits_value(d)
        <= u32::MAX
}

fn reads_as_u32_exec(p: &Vec<char>) -> (r: bool)
    ensures
        r == reads_as_u32(p@),
{
    let start: usize = if p.len() > 0 && p[0] == '+' { 1 } else { 0 };
    let ghost d = unsigned_part(p@);
    assert(d =~= p@.subrange(start as int, p@.len() as int));
    if start >= p.len() {
        return false;
    }
    let mut acc: u64 = 0;
    let mut big = false;
    let mut i: usize = start;
    while i < p.len()
        invariant
            d == p@.subrange(start as int, p@.len() as int),
            start <= i <= p@.len(),
            forall|j: int| start <= j < i ==> is_digit(#[trigger] p@[j]),
            d == unsigned_part(p@),
            !big ==> acc as int == digits_value(p@.subrange(start as int, i as int)),
            big ==> digits_value(p@.subrange(start as int, i as int)) > u32::MAX,
            acc <= u32::MAX,
            digits_value(p@.subrange(start as int, i as int)) >= 0,
        decreases p@.len() - i,
    {
        let c = p[i];
        if !('0' <= c && c <= '9') {
            assert(d[i - start] == c);
            assert(!is_digit(d[i - start]));
            return false;
        }
        let ghost prev = p@.subrange(start as int, i as int);
        assert(p@.subrange(start as int, i + 1).drop_last() =~= prev);
        let dv: u64 = ((c as u32) - ('0' as u32)) as u64;
        if !big {
            let next = acc * 10 + dv;
            if next > 0xFFFF_FFFF {
                big = true;
            } else {
                acc = next;
            }
        }
        i += 1;
    }
    assert(p@.subrange(start as int, p@.len() as int) == d);
    assert forall|j: int| 0 <= j < d.len() implies is_digit(#[trigger] d[j]) by {
        assert(d[j] == p@[j + start]);
    }
    !big
}

/// Whether every `.`-separated part of the text reads as a `u32`.
pub open spec fn is_ipv4_spec(addr: Seq<char>) -> bool {
    forall|i: int| 0 <= i < crate::store::split_char(addr, '.').len() ==> reads_as_u32(
        #[trigger] crate::store::split_char(addr, '.')[i],
    )
}

/// Whether every `.`-separated part of the text reads as a `u32`.
pub fn is_ipv4(addr: &str) -> (r: bool)
    ensures
        r == is_ipv4_spec(addr@),
{
    let t = chars_of(addr);
    let parts = crate::store::split_char_exec(t.as_slice(), '.');
    let ghost pv = parts@.map_values(|p: Vec<char>| p@);
    let mut i: usize = 0;
    while i < parts.len()
        invariant
            pv == parts@.map_values(|p: Vec<char>| p@),
            pv == crate::store::split_char(addr@, '.'),
            i <= pv.len(),
            forall|j: int| 0 <= j < i ==> reads_as_u32(#[trigger] pv[j]),
        decreases pv.len() - i,
    {
        if !reads_as_u32_exec(&parts[i]) {
            assert(!reads_as_u32(pv[i as int]));
            return false;
        }
        i += 1;
    }
    true
}

} // verus!

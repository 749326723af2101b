//! A small JSON text layer: quoted strings with escapes, arrays of strings
//! and objects of string pairs.
//!
//! This is exactly what the persisted store documents (manifest, runtime
//! configuration, cache index) need.  Rendering is compact; parsing skips
//! whitespace between tokens, so pretty-printed documents load as well.
//! Rendering then parsing gives back the rendered value, which the
//! round-trip lemmas state.

use vstd::prelude::*;
use vstd::string::*;
use crate::strutil::{
    chars_string, find_nonspace, is_space, lemma_skip_spaces_bounds, push_char, skip_spaces,
    string_views,
};

verus! {

/// How one character appears inside a rendered JSON string.
pub open spec fn escape_char(c: char) -> Seq<char> {
    if c == '"' {
        seq!['\\', '"']
    } else if c == '\\' {
        seq!['\\', '\\']
    } else if c == '\n' {
        seq!['\\', 'n']
    } else if c == '\r' {
        seq!['\\', 'r']
    } else if c == '\t' {
        seq!['\\', 't']
    } else {
        seq![c]
    }
}

/// The character an escape letter stands for, if it is a known escape.
pub open spec fn unescape_char(c: char) -> Option<char> {
    if c == '"' {
        Some('"')
    } else if c == '\\' {
        Some('\\')
    } else if c == 'n' {
        Some('\n')
    } else if c == 'r' {
        Some('\r')
    } else if c == 't' {
        Some('\t')
    } else {
        None
    }
}

/// A text with every character escaped as JSON requires.
pub open spec fn escape_of(s: Seq<char>) -> Seq<char>
    decreases s.len(),
{
    if s.len() == 0 {
        Seq::empty()
    } else {
        escape_char(s.first()) + escape_of(s.drop_first())
    }
}

pub proof fn lemma_escape_of_push(s: Seq<char>, c: char)
    ensures
        escape_of(s.push(c)) == escape_of(s) + escape_char(c),
    decreases s.len(),
{
    if s.len() == 0 {
        assert(s.push(c).len() == 1);
        assert(s.push(c).first() == c);
        assert(s.push(c).drop_first() =~= Seq::<char>::empty());
        assert(escape_of(s.push(c)) == escape_char(c) + escape_of(Seq::<char>::empty()));
        assert(escape_char(c) + Seq::<char>::empty() =~= escape_char(c));
        assert(Seq::<char>::empty() + escape_char(c) =~= escape_char(c));
        assert(escape_of(s.push(c)) =~= escape_of(s) + escape_char(c));
    } else {
        assert(s.push(c).first() == s.first());
        assert(s.push(c).drop_first() =~= s.drop_first().push(c));
        lemma_escape_of_push(s.drop_first(), c);
        assert(escape_of(s.push(c)) == escape_char(s.first()) + (escape_of(s.drop_first())
            + escape_char(c)));
        assert(escape_char(s.first()) + (escape_of(s.drop_first()) + escape_char(c))
            =~= (escape_char(s.first()) + escape_of(s.drop_first())) + escape_char(c));
        assert(escape_of(s.push(c)) =~= escape_of(s) + escape_char(c));
    }
}

/// The text with its leading whitespace dropped.
pub open spec fn skip_ws(s: Seq<char>) -> Seq<char> {
    s.skip(skip_spaces(s, 0))
}

pub proof fn lemma_skip_ws_nonspace(s: Seq<char>)
    requires
        s.len() > 0 ==> !is_space(s.first()),
    ensures
        skip_ws(s) == s,
{
    assert(skip_spaces(s, 0) == 0);
    assert(s.skip(0) =~= s);
}

pub proof fn lemma_skip_spaces_offset(s: Seq<char>, i: int, k: int)
    requires
        0 <= i <= s.len(),
        0 <= k <= s.len() - i,
    ensures
        skip_spaces(s.skip(i), k) == skip_spaces(s, i + k) - i,
    decreases s.len() - i - k,
{
    if i + k < s.len() {
        assert(s.skip(i)[k] == s[i + k]);
        if is_space(s[i + k]) {
            lemma_skip_spaces_offset(s, i, k + 1);
        }
    }
}

/// Dropping leading whitespace from a suffix is taking a later suffix.
pub proof fn lemma_skip_ws_suffix(s: Seq<char>, i: int)
    requires
        0 <= i <= s.len(),
    ensures
        skip_ws(s.skip(i)) == s.skip(skip_spaces(s, i)),
        i <= skip_spaces(s, i) <= s.len(),
{
    lemma_skip_spaces_offset(s, i, 0);
    lemma_skip_spaces_bounds(s, i);
    assert(s.skip(i).skip(skip_spaces(s, i) - i) =~= s.skip(skip_spaces(s, i)));
}

/// Parse the body of a JSON string, after its opening quote: the unescaped
/// content and the text after the closing quote.
pub open spec fn parse_str_body(s: Seq<char>) -> Option<(Seq<char>, Seq<char>)>
    decreases s.len(),
{
    if s.len() == 0 {
        None
    } else if s.first() == '"' {
        Some((Seq::empty(), s.drop_first()))
    } else if s.first() == '\\' {
        if s.len() >= 2 {
            match unescape_char(s[1]) {
                None => None,
                Some(c) => match parse_str_body(s.skip(2)) {
                    None => None,
                    Some((t, r)) => Some((seq![c] + t, r)),
                },
            }
        } else {
            None
        }
    } else {
        match parse_str_body(s.drop_first()) {
            None => None,
            Some((t, r)) => Some((seq![s.first()] + t, r)),
        }
    }
}

/// A successful string body always consumes at least its closing quote.
pub proof fn lemma_str_body_consumes(s: Seq<char>)
    ensures
        parse_str_body(s) matches Some((t, r)) ==> r.len() < s.len(),
    decreases s.len(),
{
    if s.len() > 0 && s.first() != '"' {
        if s.first() == '\\' {
            if s.len() >= 2 {
                lemma_str_body_consumes(s.skip(2));
            }
        } else {
            lemma_str_body_consumes(s.drop_first());
        }
    }
}

/// The rendered form of a string: quoted and escaped.
pub open spec fn render_jstr(s: Seq<char>) -> Seq<char> {
    seq!['"'] + escape_of(s) + seq!['"']
}

/// Parsing a rendered string body gives back the string and what follows
/// the closing quote.
pub proof fn lemma_str_body_round(s: Seq<char>, rest: Seq<char>)
    ensures
        parse_str_body(escape_of(s) + seq!['"'] + rest) == Some((s, rest)),
    decreases s.len(),
{
    let u = escape_of(s) + seq!['"'] + rest;
    if s.len() == 0 {
        assert(u =~= seq!['"'] + rest);
        assert(u.first() == '"');
        assert(u.drop_first() =~= rest);
    } else {
        let c = s.first();
        let tail = s.drop_first();
        lemma_str_body_round(tail, rest);
        let v = escape_of(tail) + seq!['"'] + rest;
        assert(u =~= escape_char(c) + v);
        if c == '"' || c == '\\' || c == '\n' || c == '\r' || c == '\t' {
            assert(escape_char(c).len() == 2);
            assert(u.first() == '\\');
            assert(unescape_char(u[1]) == Some(c));
            assert(u.skip(2) =~= v);
            assert(seq![c] + tail =~= s);
        } else {
            assert(escape_char(c) =~= seq![c]);
            assert(u.first() == c);
            assert(u.drop_first() =~= v);
            assert(seq![c] + tail =~= s);
        }
    }
}

/// Parse a JSON string token: leading whitespace, a quote, the body.
pub open spec fn parse_string(s: Seq<char>) -> Option<(Seq<char>, Seq<char>)> {
    let t = skip_ws(s);
    if t.len() > 0 && t.first() == '"' {
        parse_str_body(t.drop_first())
    } else {
        None
    }
}

pub proof fn lemma_parse_string_consumes(s: Seq<char>)
    ensures
        parse_string(s) matches Some((t, r)) ==> r.len() < s.len(),
{
    let t = skip_ws(s);
    lemma_skip_spaces_bounds(s, 0);
    if t.len() > 0 && t.first() == '"' {
        lemma_str_body_consumes(t.drop_first());
    }
}

/// Parsing a rendered string gives back the string and the rest.
pub proof fn lemma_parse_string_round(s: Seq<char>, rest: Seq<char>)
    ensures
        parse_string(render_jstr(s) + rest) == Some((s, rest)),
{
    let u = render_jstr(s) + rest;
    assert(u.first() == '"');
    lemma_skip_ws_nonspace(u);
    assert(u.drop_first() =~= escape_of(s) + seq!['"'] + rest);
    lemma_str_body_round(s, rest);
}

/// Append the rendered form of a string to an output buffer.
pub fn render_string_into(out: &mut String, s: &str)
    ensures
        final(out)@ == old(out)@ + render_jstr(s@),
{
    push_char(out, '"');
    let n = s.unicode_len();
    let mut i: usize = 0;
    while i < n
        invariant
            n == s@.len(),
            i <= n,
            out@ == old(out)@ + seq!['"'] + escape_of(s@.subrange(0, i as int)),
        decreases n - i,
    {
        let c = s.get_char(i);
        if c == '"' {
            push_char(out, '\\');
            push_char(out, '"');
        } else if c == '\\' {
            push_char(out, '\\');
            push_char(out, '\\');
        } else if c == '\n' {
            push_char(out, '\\');
            push_char(out, 'n');
        } else if c == '\r' {
            push_char(out, '\\');
            push_char(out, 'r');
        } else if c == '\t' {
            push_char(out, '\\');
            push_char(out, 't');
        } else {
            push_char(out, c);
        }
        proof {
            lemma_escape_of_push(s@.subrange(0, i as int), s@[i as int]);
            assert(s@.subrange(0, i as int).push(s@[i as int]) =~= s@.subrange(0, i + 1 as int));
            assert(out@ =~= old(out)@ + seq!['"'] + escape_of(s@.subrange(0, i + 1 as int)));
        }
        i += 1;
    }
    push_char(out, '"');
    proof {
        assert(s@.subrange(0, s@.len() as int) =~= s@);
        assert(out@ =~= old(out)@ + render_jstr(s@));
    }
}

/// Skip whitespace, starting at `i`; the returned index begins the
/// whitespace-free suffix.
pub fn scan_ws(v: &Vec<char>, i: usize) -> (r: usize)
    requires
        i <= v@.len(),
    ensures
        i <= r <= v@.len(),
        r as int == skip_spaces(v@, i as int),
        v@.skip(r as int) == skip_ws(v@.skip(i as int)),
{
    proof {
        lemma_skip_ws_suffix(v@, i as int);
    }
    find_nonspace(v, i)
}

/// Scan a JSON string body starting at `i` (just after the opening quote).
pub fn scan_str_body(v: &Vec<char>, i: usize) -> (r: Option<(Vec<char>, usize)>)
    requires
        i <= v@.len(),
    ensures
        match r {
            None => parse_str_body(v@.skip(i as int)) is None,
            Some((t, j)) => {
                &&& i < j <= v@.len()
                &&& parse_str_body(v@.skip(i as int)) == Some((t@, v@.skip(j as int)))
            },
        },
    decreases v@.len() - i,
{
    let ghost s = v@.skip(i as int);
    if i == v.len() {
        assert(s.len() == 0);
        return None;
    }
    assert(s.first() == v@[i as int]);
    let c = v[i];
    if c == '"' {
        assert(s.drop_first() =~= v@.skip(i + 1 as int));
        return Some((Vec::new(), i + 1));
    }
    if c == '\\' {
        if i + 1 == v.len() {
            assert(s.len() == 1);
            return None;
        }
        assert(s[1] == v@[i + 1 as int]);
        let e = v[i + 1];
        let u: char = if e == '"' {
            '"'
        } else if e == '\\' {
            '\\'
        } else if e == 'n' {
            '\n'
        } else if e == 'r' {
            '\r'
        } else if e == 't' {
            '\t'
        } else {
            assert(unescape_char(s[1]) is None);
            return None;
        };
        assert(unescape_char(s[1]) == Some(u));
        assert(s.skip(2) =~= v@.skip(i + 2 as int));
        match scan_str_body(v, i + 2) {
            None => {
                return None;
            },
            Some((mut t, j)) => {
                let ghost t0 = t@;
                t.insert(0, u);
                assert(t@ =~= seq![u] + t0);
                return Some((t, j));
            },
        }
    }
    assert(s.drop_first() =~= v@.skip(i + 1 as int));
    match scan_str_body(v, i + 1) {
        None => None,
        Some((mut t, j)) => {
            let ghost t0 = t@;
            t.insert(0, c);
            assert(t@ =~= seq![c] + t0);
            Some((t, j))
        },
    }
}

/// Scan a JSON string token starting at `i`.
pub fn scan_string(v: &Vec<char>, i: usize) -> (r: Option<(Vec<char>, usize)>)
    requires
        i <= v@.len(),
    ensures
        match r {
            None => parse_string(v@.skip(i as int)) is None,
            Some((t, j)) => {
                &&& i < j <= v@.len()
                &&& parse_string(v@.skip(i as int)) == Some((t@, v@.skip(j as int)))
            },
        },
{
    let a = scan_ws(v, i);
    if a == v.len() {
        return None;
    }
    assert(v@.skip(a as int).first() == v@[a as int]);
    if v[a] != '"' {
        return None;
    }
    assert(v@.skip(a as int).drop_first() =~= v@.skip(a + 1 as int));
    scan_str_body(v, a + 1)
}

/// The text after one expected punctuation token, whitespace skipped.
pub open spec fn after_tok(s: Seq<char>, c: char) -> Option<Seq<char>> {
    let t = skip_ws(s);
    if t.len() > 0 && t.first() == c {
        Some(t.drop_first())
    } else {
        None
    }
}

/// Reading an expected non-whitespace token consumes exactly it.
pub proof fn lemma_after_tok(c: char, rest: Seq<char>)
    requires
        !is_space(c),
    ensures
        after_tok(seq![c] + rest, c) == Some(rest),
{
    let u = seq![c] + rest;
    lemma_skip_ws_nonspace(u);
    assert(u.first() == c);
    assert(u.drop_first() =~= rest);
}

/// Scan one expected punctuation token starting at `i`.
pub fn scan_after_tok(v: &Vec<char>, i: usize, c: char) -> (r: Option<usize>)
    requires
        i <= v@.len(),
    ensures
        match r {
            None => after_tok(v@.skip(i as int), c) is None,
            Some(j) => {
                &&& i < j <= v@.len()
                &&& after_tok(v@.skip(i as int), c) == Some(v@.skip(j as int))
            },
        },
{
    let a = scan_ws(v, i);
    if a == v.len() {
        return None;
    }
    assert(v@.skip(a as int).first() == v@[a as int]);
    if v[a] != c {
        return None;
    }
    assert(v@.skip(a as int).drop_first() =~= v@.skip(a + 1 as int));
    Some(a + 1)
}

/// Parse the remaining items of a string array, one already read.
pub open spec fn parse_list_more(s: Seq<char>, acc: Seq<Seq<char>>) -> Option<
    (Seq<Seq<char>>, Seq<char>),
>
    decreases s.len(),
    via parse_list_more_decreases
{
    let t = skip_ws(s);
    if t.len() > 0 && t.first() == ',' {
        match parse_string(t.drop_first()) {
            None => None,
            Some((x, r)) => parse_list_more(r, acc.push(x)),
        }
    } else if t.len() > 0 && t.first() == ']' {
        Some((acc, t.drop_first()))
    } else {
        None
    }
}

#[via_fn]
proof fn parse_list_more_decreases(s: Seq<char>, acc: Seq<Seq<char>>) {
    lemma_skip_spaces_bounds(s, 0);
    let t = skip_ws(s);
    if t.len() > 0 && t.first() == ',' {
        lemma_parse_string_consumes(t.drop_first());
    }
}

/// Parse a JSON array of strings.
pub open spec fn parse_str_list(s: Seq<char>) -> Option<(Seq<Seq<char>>, Seq<char>)> {
    let t = skip_ws(s);
    if t.len() > 0 && t.first() == '[' {
        let u = skip_ws(t.drop_first());
        if u.len() > 0 && u.first() == ']' {
            Some((Seq::empty(), u.drop_first()))
        } else {
            match parse_string(t.drop_first()) {
                None => None,
                Some((x, r)) => parse_list_more(r, seq![x]),
            }
        }
    } else {
        None
    }
}

/// The items of an array after the first, each preceded by a comma.
pub open spec fn render_more_items(items: Seq<Seq<char>>) -> Seq<char>
    decreases items.len(),
{
    if items.len() == 0 {
        Seq::empty()
    } else {
        seq![','] + render_jstr(items.first()) + render_more_items(items.drop_first())
    }
}

pub proof fn lemma_render_more_push(items: Seq<Seq<char>>, x: Seq<char>)
    ensures
        render_more_items(items.push(x)) == render_more_items(items) + seq![','] + render_jstr(x),
    decreases items.len(),
{
    if items.len() == 0 {
        assert(items.push(x).first() == x);
        assert(items.push(x).drop_first() =~= Seq::<Seq<char>>::empty());
        assert(render_more_items(items.push(x)) == seq![','] + render_jstr(x)
            + render_more_items(Seq::<Seq<char>>::empty()));
        assert(render_more_items(Seq::<Seq<char>>::empty()) == Seq::<char>::empty());
        assert(seq![','] + render_jstr(x) + Seq::<char>::empty() =~= render_more_items(items)
            + seq![','] + render_jstr(x));
    } else {
        assert(items.push(x).first() == items.first());
        assert(items.push(x).drop_first() =~= items.drop_first().push(x));
        lemma_render_more_push(items.drop_first(), x);
        assert(render_more_items(items.push(x)) == seq![','] + render_jstr(items.first()) + (
        render_more_items(items.drop_first()) + seq![','] + render_jstr(x)));
        assert(seq![','] + render_jstr(items.first()) + (render_more_items(items.drop_first())
            + seq![','] + render_jstr(x)) =~= render_more_items(items) + seq![','] + render_jstr(
            x,
        ));
    }
}

/// The rendered form of an array of strings.
pub open spec fn render_str_list(items: Seq<Seq<char>>) -> Seq<char> {
    if items.len() == 0 {
        seq!['[', ']']
    } else {
        seq!['['] + render_jstr(items.first()) + render_more_items(items.drop_first())
            + seq![']']
    }
}

pub proof fn lemma_list_more_round(items: Seq<Seq<char>>, acc: Seq<Seq<char>>, rest: Seq<char>)
    ensures
        parse_list_more(render_more_items(items) + seq![']'] + rest, acc) == Some(
            (acc + items, rest),
        ),
    decreases items.len(),
{
    let u = render_more_items(items) + seq![']'] + rest;
    if items.len() == 0 {
        assert(u =~= seq![']'] + rest);
        lemma_skip_ws_nonspace(u);
        assert(u.first() == ']');
        assert(u.drop_first() =~= rest);
        assert(acc + items =~= acc);
    } else {
        let h = items.first();
        let tail2 = render_more_items(items.drop_first()) + seq![']'] + rest;
        assert(u =~= seq![','] + (render_jstr(h) + tail2));
        lemma_skip_ws_nonspace(u);
        assert(u.first() == ',');
        assert(u.drop_first() =~= render_jstr(h) + tail2);
        lemma_parse_string_round(h, tail2);
        lemma_list_more_round(items.drop_first(), acc.push(h), rest);
        assert(acc.push(h) + items.drop_first() =~= acc + items);
    }
}

pub proof fn lemma_str_list_round(items: Seq<Seq<char>>, rest: Seq<char>)
    ensures
        parse_str_list(render_str_list(items) + rest) == Some((items, rest)),
{
    let u = render_str_list(items) + rest;
    lemma_skip_ws_nonspace(u);
    if items.len() == 0 {
        assert(u =~= seq!['[', ']'] + rest);
        assert(u.first() == '[');
        assert(u.drop_first() =~= seq![']'] + rest);
        lemma_skip_ws_nonspace(u.drop_first());
        assert(u.drop_first().drop_first() =~= rest);
    } else {
        let h = items.first();
        let tail2 = render_more_items(items.drop_first()) + seq![']'] + rest;
        assert(u.first() == '[');
        assert(u.drop_first() =~= render_jstr(h) + tail2);
        lemma_skip_ws_nonspace(u.drop_first());
        assert(u.drop_first().first() == '"');
        lemma_parse_string_round(h, tail2);
        lemma_list_more_round(items.drop_first(), seq![h], rest);
        assert(seq![h] + items.drop_first() =~= items);
    }
}

/// Scan a JSON array of strings starting at `i`.
pub fn scan_str_list(v: &Vec<char>, i: usize) -> (r: Option<(Vec<String>, usize)>)
    requires
        i <= v@.len(),
    ensures
        match r {
            None => parse_str_list(v@.skip(i as int)) is None,
            Some((items, j)) => {
                &&& i < j <= v@.len()
                &&& parse_str_list(v@.skip(i as int)) == Some(
                    (string_views(items@), v@.skip(j as int)),
                )
            },
        },
{
    let ghost s = v@.skip(i as int);
    let a = scan_ws(v, i);
    if a == v.len() {
        return None;
    }
    assert(v@.skip(a as int).first() == v@[a as int]);
    if v[a] != '[' {
        return None;
    }
    assert(v@.skip(a as int).drop_first() =~= v@.skip(a + 1 as int));
    let b = scan_ws(v, a + 1);
    if b < v.len() {
        assert(v@.skip(b as int).first() == v@[b as int]);
        if v[b] == ']' {
            let items: Vec<String> = Vec::new();
            proof {
                assert(string_views(items@) =~= Seq::<Seq<char>>::empty());
                assert(v@.skip(b as int).drop_first() =~= v@.skip(b + 1 as int));
            }
            return Some((items, b + 1));
        }
    }
    match scan_string(v, a + 1) {
        None => None,
        Some((x, j0)) => {
            let mut items: Vec<String> = Vec::new();
            items.push(chars_string(&x));
            proof {
                assert(string_views(items@) =~= seq![x@]);
            }
            let mut j: usize = j0;
            loop
                invariant_except_break
                    i < j <= v@.len(),
                    parse_str_list(v@.skip(i as int)) == parse_list_more(
                        v@.skip(j as int),
                        string_views(items@),
                    ),
                ensures
                    ({
                        let res = parse_str_list(v@.skip(i as int));
                        match res {
                            Some((xs, rest)) => {
                                &&& xs == string_views(items@)
                                &&& rest == v@.skip(j as int)
                                &&& i < j <= v@.len()
                            },
                            None => false,
                        }
                    }),
                decreases v@.len() - j,
            {
                let ghost t = skip_ws(v@.skip(j as int));
                let c = scan_ws(v, j);
                if c == v.len() {
                    assert(t.len() == 0);
                    return None;
                }
                assert(t.first() == v@[c as int]);
                assert(t.drop_first() =~= v@.skip(c + 1 as int));
                let ch = v[c];
                if ch == ']' {
                    j = c + 1;
                    break;
                }
                if ch != ',' {
                    return None;
                }
                match scan_string(v, c + 1) {
                    None => {
                        return None;
                    },
                    Some((x2, j2)) => {
                        let ghost items0 = string_views(items@);
                        items.push(chars_string(&x2));
                        proof {
                            assert(string_views(items@) =~= items0.push(x2@));
                        }
                        j = j2;
                    },
                }
            }
            Some((items, j))
        },
    }
}

/// One `"key": "value"` pair.
pub open spec fn parse_pair(s: Seq<char>) -> Option<((Seq<char>, Seq<char>), Seq<char>)> {
    match parse_string(s) {
        None => None,
        Some((k, r)) => {
            let t = skip_ws(r);
            if t.len() > 0 && t.first() == ':' {
                match parse_string(t.drop_first()) {
                    None => None,
                    Some((w, r2)) => Some(((k, w), r2)),
                }
            } else {
                None
            }
        },
    }
}

pub proof fn lemma_parse_pair_consumes(s: Seq<char>)
    ensures
        parse_pair(s) matches Some((kv, r2)) ==> r2.len() < s.len(),
{
    lemma_parse_string_consumes(s);
    match parse_string(s) {
        None => {},
        Some((k, r)) => {
            let t = skip_ws(r);
            lemma_skip_spaces_bounds(r, 0);
            if t.len() > 0 && t.first() == ':' {
                lemma_parse_string_consumes(t.drop_first());
            }
        },
    }
}

/// Parse the remaining pairs of an object, one already read.
pub open spec fn parse_pairs_more(
    s: Seq<char>,
    acc: Seq<(Seq<char>, Seq<char>)>,
) -> Option<(Seq<(Seq<char>, Seq<char>)>, Seq<char>)>
    decreases s.len(),
    via parse_pairs_more_decreases
{
    let t = skip_ws(s);
    if t.len() > 0 && t.first() == ',' {
        match parse_pair(t.drop_first()) {
            None => None,
            Some((kv, r)) => parse_pairs_more(r, acc.push(kv)),
        }
    } else if t.len() > 0 && t.first() == '}' {
        Some((acc, t.drop_first()))
    } else {
        None
    }
}

#[via_fn]
proof fn parse_pairs_more_decreases(s: Seq<char>, acc: Seq<(Seq<char>, Seq<char>)>) {
    lemma_skip_spaces_bounds(s, 0);
    let t = skip_ws(s);
    if t.len() > 0 && t.first() == ',' {
        lemma_parse_pair_consumes(t.drop_first());
    }
}

/// Parse a JSON object of string pairs.
pub open spec fn parse_pairs(s: Seq<char>) -> Option<(Seq<(Seq<char>, Seq<char>)>, Seq<char>)> {
    let t = skip_ws(s);
    if t.len() > 0 && t.first() == '{' {
        let u = skip_ws(t.drop_first());
        if u.len() > 0 && u.first() == '}' {
            Some((Seq::empty(), u.drop_first()))
        } else {
            match parse_pair(t.drop_first()) {
                None => None,
                Some((kv, r)) => parse_pairs_more(r, seq![kv]),
            }
        }
    } else {
        None
    }
}

/// The rendered form of one pair.
pub open spec fn render_pair(kv: (Seq<char>, Seq<char>)) -> Seq<char> {
    render_jstr(kv.0) + seq![':'] + render_jstr(kv.1)
}

/// The pairs of an object after the first, each preceded by a comma.
pub open spec fn render_more_pairs(entries: Seq<(Seq<char>, Seq<char>)>) -> Seq<char>
    decreases entries.len(),
{
    if entries.len() == 0 {
        Seq::empty()
    } else {
        seq![','] + render_pair(entries.first()) + render_more_pairs(entries.drop_first())
    }
}

pub proof fn lemma_render_more_pairs_push(
    entries: Seq<(Seq<char>, Seq<char>)>,
    kv: (Seq<char>, Seq<char>),
)
    ensures
        render_more_pairs(entries.push(kv)) == render_more_pairs(entries) + seq![',']
            + render_pair(kv),
    decreases entries.len(),
{
    if entries.len() == 0 {
        assert(entries.push(kv).first() == kv);
        assert(entries.push(kv).drop_first() =~= Seq::<(Seq<char>, Seq<char>)>::empty());
        assert(render_more_pairs(entries.push(kv)) == seq![','] + render_pair(kv)
            + render_more_pairs(Seq::<(Seq<char>, Seq<char>)>::empty()));
        assert(render_more_pairs(Seq::<(Seq<char>, Seq<char>)>::empty()) == Seq::<char>::empty());
        assert(seq![','] + render_pair(kv) + Seq::<char>::empty() =~= render_more_pairs(entries)
            + seq![','] + render_pair(kv));
    } else {
        assert(entries.push(kv).first() == entries.first());
        assert(entries.push(kv).drop_first() =~= entries.drop_first().push(kv));
        lemma_render_more_pairs_push(entries.drop_first(), kv);
        assert(render_more_pairs(entries.push(kv)) == seq![','] + render_pair(entries.first()) + (
        render_more_pairs(entries.drop_first()) + seq![','] + render_pair(kv)));
        assert(seq![','] + render_pair(entries.first()) + (render_more_pairs(entries.drop_first())
            + seq![','] + render_pair(kv)) =~= render_more_pairs(entries) + seq![','] + render_pair(
            kv,
        ));
    }
}

/// The rendered form of an object of string pairs.
pub open spec fn render_pairs(entries: Seq<(Seq<char>, Seq<char>)>) -> Seq<char> {
    if entries.len() == 0 {
        seq!['{', '}']
    } else {
        seq!['{'] + render_pair(entries.first()) + render_more_pairs(entries.drop_first())
            + seq!['}']
    }
}

pub proof fn lemma_parse_pair_round(kv: (Seq<char>, Seq<char>), rest: Seq<char>)
    ensures
        parse_pair(render_pair(kv) + rest) == Some((kv, rest)),
{
    let tail = seq![':'] + render_jstr(kv.1) + rest;
    assert(render_pair(kv) + rest =~= render_jstr(kv.0) + tail);
    lemma_parse_string_round(kv.0, tail);
    lemma_skip_ws_nonspace(tail);
    assert(tail.first() == ':');
    assert(tail.drop_first() =~= render_jstr(kv.1) + rest);
    lemma_parse_string_round(kv.1, rest);
}

pub proof fn lemma_pairs_more_round(
    entries: Seq<(Seq<char>, Seq<char>)>,
    acc: Seq<(Seq<char>, Seq<char>)>,
    rest: Seq<char>,
)
    ensures
        parse_pairs_more(render_more_pairs(entries) + seq!['}'] + rest, acc) == Some(
            (acc + entries, rest),
        ),
    decreases entries.len(),
{
    let u = render_more_pairs(entries) + seq!['}'] + rest;
    if entries.len() == 0 {
        assert(u =~= seq!['}'] + rest);
        lemma_skip_ws_nonspace(u);
        assert(u.first() == '}');
        assert(u.drop_first() =~= rest);
        assert(acc + entries =~= acc);
    } else {
        let h = entries.first();
        let tail2 = render_more_pairs(entries.drop_first()) + seq!['}'] + rest;
        assert(u =~= seq![','] + (render_pair(h) + tail2));
        lemma_skip_ws_nonspace(u);
        assert(u.first() == ',');
        assert(u.drop_first() =~= render_pair(h) + tail2);
        lemma_parse_pair_round(h, tail2);
        lemma_pairs_more_round(entries.drop_first(), acc.push(h), rest);
        assert(acc.push(h) + entries.drop_first() =~= acc + entries);
    }
}

pub proof fn lemma_pairs_round(entries: Seq<(Seq<char>, Seq<char>)>, rest: Seq<char>)
    ensures
        parse_pairs(render_pairs(entries) + rest) == Some((entries, rest)),
{
    let u = render_pairs(entries) + rest;
    lemma_skip_ws_nonspace(u);
    if entries.len() == 0 {
        assert(u =~= seq!['{', '}'] + rest);
        assert(u.first() == '{');
        assert(u.drop_first() =~= seq!['}'] + rest);
        lemma_skip_ws_nonspace(u.drop_first());
        assert(u.drop_first().drop_first() =~= rest);
    } else {
        let h = entries.first();
        let tail2 = render_more_pairs(entries.drop_first()) + seq!['}'] + rest;
        assert(u.first() == '{');
        assert(u.drop_first() =~= render_pair(h) + tail2);
        lemma_skip_ws_nonspace(u.drop_first());
        assert(u.drop_first().first() == '"');
        lemma_parse_pair_round(h, tail2);
        lemma_pairs_more_round(entries.drop_first(), seq![h], rest);
        assert(seq![h] + entries.drop_first() =~= entries);
    }
}

/// The texts of a sequence of string pairs.
pub open spec fn pair_views(s: Seq<(String, String)>) -> Seq<(Seq<char>, Seq<char>)> {
    s.map_values(|p: (String, String)| (p.0@, p.1@))
}

/// Scan one `"key": "value"` pair starting at `i`.
pub fn scan_pair(v: &Vec<char>, i: usize) -> (r: Option<((String, String), usize)>)
    requires
        i <= v@.len(),
    ensures
        match r {
            None => parse_pair(v@.skip(i as int)) is None,
            Some((kv, j)) => {
                &&& i < j <= v@.len()
                &&& parse_pair(v@.skip(i as int)) == Some(((kv.0@, kv.1@), v@.skip(j as int)))
            },
        },
{
    match scan_string(v, i) {
        None => None,
        Some((k, j)) => {
            let c = scan_ws(v, j);
            if c == v.len() {
                return None;
            }
            assert(v@.skip(c as int).first() == v@[c as int]);
            if v[c] != ':' {
                return None;
            }
            assert(v@.skip(c as int).drop_first() =~= v@.skip(c + 1 as int));
            match scan_string(v, c + 1) {
                None => None,
                Some((w, j2)) => Some(((chars_string(&k), chars_string(&w)), j2)),
            }
        },
    }
}

/// Scan a JSON object of string pairs starting at `i`.
pub fn scan_pairs(v: &Vec<char>, i: usize) -> (r: Option<(Vec<(String, String)>, usize)>)
    requires
        i <= v@.len(),
    ensures
        match r {
            None => parse_pairs(v@.skip(i as int)) is None,
            Some((entries, j)) => {
                &&& i < j <= v@.len()
                &&& parse_pairs(v@.skip(i as int)) == Some(
                    (pair_views(entries@), v@.skip(j as int)),
                )
            },
        },
{
    let a = scan_ws(v, i);
    if a == v.len() {
        return None;
    }
    assert(v@.skip(a as int).first() == v@[a as int]);
    if v[a] != '{' {
        return None;
    }
    assert(v@.skip(a as int).drop_first() =~= v@.skip(a + 1 as int));
    let b = scan_ws(v, a + 1);
    if b < v.len() {
        assert(v@.skip(b as int).first() == v@[b as int]);
        if v[b] == '}' {
            let entries: Vec<(String, String)> = Vec::new();
            proof {
                assert(pair_views(entries@) =~= Seq::<(Seq<char>, Seq<char>)>::empty());
                assert(v@.skip(b as int).drop_first() =~= v@.skip(b + 1 as int));
            }
            return Some((entries, b + 1));
        }
    }
    match scan_pair(v, a + 1) {
        None => None,
        Some((kv, j0)) => {
            let mut entries: Vec<(String, String)> = Vec::new();
            let ghost kv0 = (kv.0@, kv.1@);
            entries.push(kv);
            proof {
                assert(pair_views(entries@) =~= seq![kv0]);
            }
            let mut j: usize = j0;
            loop
                invariant_except_break
                    i < j <= v@.len(),
                    parse_pairs(v@.skip(i as int)) == parse_pairs_more(
                        v@.skip(j as int),
                        pair_views(entries@),
                    ),
                ensures
                    ({
                        let res = parse_pairs(v@.skip(i as int));
                        match res {
                            Some((xs, rest)) => {
                                &&& xs == pair_views(entries@)
                                &&& rest == v@.skip(j as int)
                                &&& i < j <= v@.len()
                            },
                            None => false,
                        }
                    }),
                decreases v@.len() - j,
            {
                let ghost t = skip_ws(v@.skip(j as int));
                let c = scan_ws(v, j);
                if c == v.len() {
                    assert(t.len() == 0);
                    return None;
                }
                assert(t.first() == v@[c as int]);
                assert(t.drop_first() =~= v@.skip(c + 1 as int));
                let ch = v[c];
                if ch == '}' {
                    j = c + 1;
                    break;
                }
                if ch != ',' {
                    return None;
                }
                match scan_pair(v, c + 1) {
                    None => {
                        return None;
                    },
                    Some((kv2, j2)) => {
                        let ghost es0 = pair_views(entries@);
                        let ghost kv2v = (kv2.0@, kv2.1@);
                        entries.push(kv2);
                        proof {
                            assert(pair_views(entries@) =~= es0.push(kv2v));
                        }
                        j = j2;
                    },
                }
            }
            Some((entries, j))
        },
    }
}

/// Append the rendered form of a string array to an output buffer.
pub fn render_str_list_into(out: &mut String, items: &Vec<String>)
    ensures
        final(out)@ == old(out)@ + render_str_list(string_views(items@)),
{
    push_char(out, '[');
    if items.len() > 0 {
        render_string_into(out, items[0].as_str());
        let mut k: usize = 1;
        while k < items.len()
            invariant
                1 <= k <= items@.len(),
                out@ == old(out)@ + seq!['['] + render_jstr(items@[0]@) + render_more_items(
                    string_views(items@).subrange(1, k as int),
                ),
            decreases items@.len() - k,
        {
            let ghost done = string_views(items@).subrange(1, k as int);
            push_char(out, ',');
            render_string_into(out, items[k].as_str());
            proof {
                lemma_render_more_push(done, items@[k as int]@);
                assert(done.push(items@[k as int]@) =~= string_views(items@).subrange(
                    1,
                    k + 1 as int,
                ));
                assert(out@ =~= old(out)@ + seq!['['] + render_jstr(items@[0]@)
                    + render_more_items(string_views(items@).subrange(1, k + 1 as int)));
            }
            k += 1;
        }
        proof {
            assert(string_views(items@).subrange(1, items@.len() as int) =~= string_views(
                items@,
            ).drop_first());
        }
    }
    push_char(out, ']');
    proof {
        if items@.len() == 0 {
            assert(string_views(items@).len() == 0);
            assert(out@ =~= old(out)@ + render_str_list(string_views(items@)));
        } else {
            assert(string_views(items@).first() == items@[0]@);
            assert(out@ =~= old(out)@ + render_str_list(string_views(items@)));
        }
    }
}

/// Append the rendered form of an object of string pairs to an output buffer.
pub fn render_pairs_into(out: &mut String, entries: &Vec<(String, String)>)
    ensures
        final(out)@ == old(out)@ + render_pairs(pair_views(entries@)),
{
    push_char(out, '{');
    if entries.len() > 0 {
        render_string_into(out, entries[0].0.as_str());
        push_char(out, ':');
        render_string_into(out, entries[0].1.as_str());
        proof {
            assert(out@ =~= old(out)@ + seq!['{'] + render_pair(
                (entries@[0].0@, entries@[0].1@),
            ));
        }
        let mut k: usize = 1;
        while k < entries.len()
            invariant
                1 <= k <= entries@.len(),
                out@ == old(out)@ + seq!['{'] + render_pair((entries@[0].0@, entries@[0].1@))
                    + render_more_pairs(pair_views(entries@).subrange(1, k as int)),
            decreases entries@.len() - k,
        {
            let ghost done = pair_views(entries@).subrange(1, k as int);
            push_char(out, ',');
            render_string_into(out, entries[k].0.as_str());
            push_char(out, ':');
            render_string_into(out, entries[k].1.as_str());
            proof {
                let kv = (entries@[k as int].0@, entries@[k as int].1@);
                lemma_render_more_pairs_push(done, kv);
                assert(done.push(kv) =~= pair_views(entries@).subrange(1, k + 1 as int));
                assert(out@ =~= old(out)@ + seq!['{'] + render_pair(
                    (entries@[0].0@, entries@[0].1@),
                ) + render_more_pairs(pair_views(entries@).subrange(1, k + 1 as int)));
            }
            k += 1;
        }
        proof {
            assert(pair_views(entries@).subrange(1, entries@.len() as int) =~= pair_views(
                entries@,
            ).drop_first());
        }
    }
    push_char(out, '}');
    proof {
        if entries@.len() == 0 {
            assert(pair_views(entries@).len() == 0);
            assert(out@ =~= old(out)@ + render_pairs(pair_views(entries@)));
        } else {
            assert(pair_views(entries@).first() == (entries@[0].0@, entries@[0].1@));
            assert(out@ =~= old(out)@ + render_pairs(pair_views(entries@)));
        }
    }
}

} // verus!

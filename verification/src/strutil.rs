//! Character-level string utilities.
//!
//! The parsers and renderers in this crate work over `Vec<char>` so that
//! every step has a direct `Seq<char>` model.  This module provides the
//! conversions between `String` / `&str` and `Vec<char>`, plus the small
//! splitting and trimming primitives that the build-file grammar needs.

use vstd::prelude::*;
use vstd::string::*;

verus! {

/// Relies on `String::push`: appends exactly one character.
#[verifier::external_body]
pub(crate) fn push_char(s: &mut String, c: char)
    ensures
        final(s)@ == old(s)@.push(c),
{
    s.push(c);
}

/// Collect the characters of a string slice into a vector.
pub fn str_chars(s: &str) -> (r: Vec<char>)
    ensures
        r@ == s@,
{
    let n = s.unicode_len();
    let mut r: Vec<char> = Vec::new();
    let mut i: usize = 0;
    while i < n
        invariant
            n == s@.len(),
            i <= n,
            r@ == s@.subrange(0, i as int),
        decreases n - i,
    {
        r.push(s.get_char(i));
        assert(r@ =~= s@.subrange(0, i + 1 as int));
        i += 1;
    }
    assert(r@ =~= s@);
    r
}

/// Build a `String` out of a character vector.
pub fn chars_string(v: &Vec<char>) -> (r: String)
    ensures
        r@ == v@,
{
    let mut r = String::new();
    let mut i: usize = 0;
    while i < v.len()
        invariant
            i <= v@.len(),
            r@ == v@.subrange(0, i as int),
        decreases v@.len() - i,
    {
        push_char(&mut r, v[i]);
        assert(r@ =~= v@.subrange(0, i + 1 as int));
        i += 1;
    }
    assert(r@ =~= v@);
    r
}

/// Copy a subrange of a character vector.
pub fn subvec(v: &Vec<char>, a: usize, b: usize) -> (r: Vec<char>)
    requires
        a <= b <= v@.len(),
    ensures
        r@ == v@.subrange(a as int, b as int),
{
    let mut r: Vec<char> = Vec::new();
    let mut i: usize = a;
    while i < b
        invariant
            a <= i <= b <= v@.len(),
            r@ == v@.subrange(a as int, i as int),
        decreases b - i,
    {
        r.push(v[i]);
        assert(r@ =~= v@.subrange(a as int, i + 1 as int));
        i += 1;
    }
    r
}

/// The whitespace characters that line trimming recognises.
pub open spec fn is_space(c: char) -> bool {
    c == ' ' || c == '\t' || c == '\r' || c == '\n'
}

/// First index at or after `i` holding `c`, or the length if there is none.
pub open spec fn first_at(s: Seq<char>, i: int, c: char) -> int
    decreases s.len() - i,
{
    if i < 0 || i >= s.len() {
        s.len() as int
    } else if s[i] == c {
        i
    } else {
        first_at(s, i + 1, c)
    }
}

pub proof fn lemma_first_at_bounds(s: Seq<char>, i: int, c: char)
    requires
        0 <= i <= s.len(),
    ensures
        i <= first_at(s, i, c) <= s.len(),
        first_at(s, i, c) < s.len() ==> s[first_at(s, i, c)] == c,
        forall|k: int| i <= k < first_at(s, i, c) ==> s[k] != c,
    decreases s.len() - i,
{
    if i < s.len() && s[i] != c {
        lemma_first_at_bounds(s, i + 1, c);
    }
}

pub fn find_at(v: &Vec<char>, start: usize, c: char) -> (r: usize)
    requires
        start <= v@.len(),
    ensures
        r as int == first_at(v@, start as int, c),
{
    let mut i: usize = start;
    while i < v.len()
        invariant
            start <= i <= v@.len(),
            first_at(v@, start as int, c) == first_at(v@, i as int, c),
        decreases v@.len() - i,
    {
        if v[i] == c {
            return i;
        }
        assert(first_at(v@, i as int, c) == first_at(v@, i + 1 as int, c));
        i += 1;
    }
    i
}

/// First index at or after `i` holding something other than `c`.
pub open spec fn skip_char(s: Seq<char>, i: int, c: char) -> int
    decreases s.len() - i,
{
    if i < 0 || i >= s.len() {
        s.len() as int
    } else if s[i] == c {
        skip_char(s, i + 1, c)
    } else {
        i
    }
}

pub proof fn lemma_skip_char_bounds(s: Seq<char>, i: int, c: char)
    requires
        0 <= i <= s.len(),
    ensures
        i <= skip_char(s, i, c) <= s.len(),
    decreases s.len() - i,
{
    if i < s.len() && s[i] == c {
        lemma_skip_char_bounds(s, i + 1, c);
    }
}

pub fn find_not(v: &Vec<char>, start: usize, c: char) -> (r: usize)
    requires
        start <= v@.len(),
    ensures
        r as int == skip_char(v@, start as int, c),
{
    let mut i: usize = start;
    while i < v.len()
        invariant
            start <= i <= v@.len(),
            skip_char(v@, start as int, c) == skip_char(v@, i as int, c),
        decreases v@.len() - i,
    {
        if v[i] != c {
            return i;
        }
        assert(skip_char(v@, i as int, c) == skip_char(v@, i + 1 as int, c));
        i += 1;
    }
    i
}

/// First whitespace index at or after `i`, or the length.
pub open spec fn first_space(s: Seq<char>, i: int) -> int
    decreases s.len() - i,
{
    if i < 0 || i >= s.len() {
        s.len() as int
    } else if is_space(s[i]) {
        i
    } else {
        first_space(s, i + 1)
    }
}

pub proof fn lemma_first_space_bounds(s: Seq<char>, i: int)
    requires
        0 <= i <= s.len(),
    ensures
        i <= first_space(s, i) <= s.len(),
        i < s.len() && !is_space(s[i]) ==> first_space(s, i) > i,
    decreases s.len() - i,
{
    if i < s.len() && !is_space(s[i]) {
        lemma_first_space_bounds(s, i + 1);
    }
}

pub fn find_space(v: &Vec<char>, start: usize) -> (r: usize)
    requires
        start <= v@.len(),
    ensures
        r as int == first_space(v@, start as int),
{
    let mut i: usize = start;
    while i < v.len()
        invariant
            start <= i <= v@.len(),
            first_space(v@, start as int) == first_space(v@, i as int),
        decreases v@.len() - i,
    {
        let c = v[i];
        if c == ' ' || c == '\t' || c == '\r' || c == '\n' {
            return i;
        }
        assert(first_space(v@, i as int) == first_space(v@, i + 1 as int));
        i += 1;
    }
    i
}

/// First non-whitespace index at or after `i`, or the length.
pub open spec fn skip_spaces(s: Seq<char>, i: int) -> int
    decreases s.len() - i,
{
    if i < 0 || i >= s.len() {
        s.len() as int
    } else if is_space(s[i]) {
        skip_spaces(s, i + 1)
    } else {
        i
    }
}

pub proof fn lemma_skip_spaces_bounds(s: Seq<char>, i: int)
    requires
        0 <= i <= s.len(),
    ensures
        i <= skip_spaces(s, i) <= s.len(),
        skip_spaces(s, i) < s.len() ==> !is_space(s[skip_spaces(s, i)]),
    decreases s.len() - i,
{
    if i < s.len() && is_space(s[i]) {
        lemma_skip_spaces_bounds(s, i + 1);
    }
}

pub fn find_nonspace(v: &Vec<char>, start: usize) -> (r: usize)
    requires
        start <= v@.len(),
    ensures
        r as int == skip_spaces(v@, start as int),
{
    let mut i: usize = start;
    while i < v.len()
        invariant
            start <= i <= v@.len(),
            skip_spaces(v@, start as int) == skip_spaces(v@, i as int),
        decreases v@.len() - i,
    {
        let c = v[i];
        if !(c == ' ' || c == '\t' || c == '\r' || c == '\n') {
            return i;
        }
        assert(skip_spaces(v@, i as int) == skip_spaces(v@, i + 1 as int));
        i += 1;
    }
    i
}

/// Index just past the last non-whitespace character strictly before `j`.
pub open spec fn trim_end_space(s: Seq<char>, j: int) -> int
    decreases j,
{
    if j <= 0 || j > s.len() {
        0
    } else if is_space(s[j - 1]) {
        trim_end_space(s, j - 1)
    } else {
        j
    }
}

pub proof fn lemma_trim_end_space_bounds(s: Seq<char>, j: int)
    requires
        0 <= j <= s.len(),
    ensures
        0 <= trim_end_space(s, j) <= j,
    decreases j,
{
    if 0 < j && is_space(s[j - 1]) {
        lemma_trim_end_space_bounds(s, j - 1);
    }
}

pub fn find_trim_end(v: &Vec<char>, from: usize) -> (r: usize)
    requires
        from <= v@.len(),
    ensures
        r as int == trim_end_space(v@, from as int),
{
    let mut j: usize = from;
    while j > 0
        invariant
            j <= from <= v@.len(),
            trim_end_space(v@, from as int) == trim_end_space(v@, j as int),
        decreases j,
    {
        let c = v[j - 1];
        if !(c == ' ' || c == '\t' || c == '\r' || c == '\n') {
            return j;
        }
        assert(trim_end_space(v@, j as int) == trim_end_space(v@, j - 1 as int));
        j -= 1;
    }
    0
}

/// Index just past the last character strictly before `j` that is not `c`.
pub open spec fn trim_end_char(s: Seq<char>, j: int, c: char) -> int
    decreases j,
{
    if j <= 0 || j > s.len() {
        0
    } else if s[j - 1] == c {
        trim_end_char(s, j - 1, c)
    } else {
        j
    }
}

pub proof fn lemma_trim_end_char_bounds(s: Seq<char>, j: int, c: char)
    requires
        0 <= j <= s.len(),
    ensures
        0 <= trim_end_char(s, j, c) <= j,
    decreases j,
{
    if 0 < j && s[j - 1] == c {
        lemma_trim_end_char_bounds(s, j - 1, c);
    }
}

pub fn find_trim_end_char(v: &Vec<char>, from: usize, c: char) -> (r: usize)
    requires
        from <= v@.len(),
    ensures
        r as int == trim_end_char(v@, from as int, c),
{
    let mut j: usize = from;
    while j > 0
        invariant
            j <= from <= v@.len(),
            trim_end_char(v@, from as int, c) == trim_end_char(v@, j as int, c),
        decreases j,
    {
        if v[j - 1] != c {
            return j;
        }
        assert(trim_end_char(v@, j as int, c) == trim_end_char(v@, j - 1 as int, c));
        j -= 1;
    }
    0
}

/// The text with leading and trailing whitespace removed.
pub open spec fn trim_of(s: Seq<char>) -> Seq<char> {
    let a = skip_spaces(s, 0);
    let b = trim_end_space(s, s.len() as int);
    if a <= b {
        s.subrange(a, b)
    } else {
        Seq::empty()
    }
}

pub fn trim_chars(v: &Vec<char>) -> (r: Vec<char>)
    ensures
        r@ == trim_of(v@),
{
    proof {
        lemma_skip_spaces_bounds(v@, 0);
        lemma_trim_end_space_bounds(v@, v@.len() as int);
    }
    let a = find_nonspace(v, 0);
    let b = find_trim_end(v, v.len());
    if a <= b {
        subvec(v, a, b)
    } else {
        Vec::new()
    }
}

/// The text with every leading and trailing `c` removed.
pub open spec fn strip_char(s: Seq<char>, c: char) -> Seq<char> {
    let a = skip_char(s, 0, c);
    let b = trim_end_char(s, s.len() as int, c);
    if a <= b {
        s.subrange(a, b)
    } else {
        Seq::empty()
    }
}

pub fn strip_char_chars(v: &Vec<char>, c: char) -> (r: Vec<char>)
    ensures
        r@ == strip_char(v@, c),
{
    proof {
        lemma_skip_char_bounds(v@, 0, c);
        lemma_trim_end_char_bounds(v@, v@.len() as int, c);
    }
    let a = find_not(v, 0, c);
    let b = find_trim_end_char(v, v.len(), c);
    if a <= b {
        subvec(v, a, b)
    } else {
        Vec::new()
    }
}

/// The ASCII upper-case image of a character.
pub open spec fn upper_char(c: char) -> char {
    if 'a' <= c && c <= 'z' {
        ((c as u8) - 32) as char
    } else {
        c
    }
}

/// The ASCII upper-case image of a text.
pub open spec fn upper_of(s: Seq<char>) -> Seq<char> {
    s.map_values(|c: char| upper_char(c))
}

pub fn upper_chars(v: &Vec<char>) -> (r: Vec<char>)
    ensures
        r@ == upper_of(v@),
{
    let mut r: Vec<char> = Vec::new();
    let mut i: usize = 0;
    while i < v.len()
        invariant
            i <= v@.len(),
            r@ == upper_of(v@.subrange(0, i as int)),
        decreases v@.len() - i,
    {
        let c = v[i];
        if c >= 'a' && c <= 'z' {
            r.push(((c as u8) - 32) as char);
        } else {
            r.push(c);
        }
        assert(r@ =~= upper_of(v@.subrange(0, i + 1 as int)));
        i += 1;
    }
    assert(v@.subrange(0, v@.len() as int) =~= v@);
    r
}

/// The texts spelled by a sequence of strings.
pub open spec fn string_views(s: Seq<String>) -> Seq<Seq<char>> {
    s.map_values(|x: String| x@)
}

/// The texts spelled by a sequence of character vectors.
pub open spec fn views_of(s: Seq<Vec<char>>) -> Seq<Seq<char>> {
    s.map_values(|v: Vec<char>| v@)
}

/// Whitespace-separated tokens of `s`, starting the scan at `i`.
pub open spec fn tokens_from(s: Seq<char>, i: int) -> Seq<Seq<char>>
    decreases s.len() - i,
    via tokens_from_decreases
{
    let a = skip_spaces(s, i);
    if a >= s.len() {
        Seq::empty()
    } else {
        let b = first_space(s, a);
        seq![s.subrange(a, b)] + tokens_from(s, b)
    }
}

#[via_fn]
proof fn tokens_from_decreases(s: Seq<char>, i: int) {
    let a = skip_spaces(s, i);
    if a < s.len() {
        if i < 0 {
            assert(skip_spaces(s, i) == s.len() as int);
        } else {
            lemma_skip_spaces_bounds(s, i);
            lemma_first_space_bounds(s, a);
        }
    }
}

pub fn ws_tokens(v: &Vec<char>) -> (r: Vec<Vec<char>>)
    ensures
        views_of(r@) == tokens_from(v@, 0),
{
    let mut r: Vec<Vec<char>> = Vec::new();
    let mut i: usize = 0;
    loop
        invariant_except_break
            i <= v@.len(),
            tokens_from(v@, 0) == views_of(r@) + tokens_from(v@, i as int),
        ensures
            views_of(r@) == tokens_from(v@, 0),
        decreases v@.len() - i,
    {
        proof {
            lemma_skip_spaces_bounds(v@, i as int);
        }
        let a = find_nonspace(v, i);
        if a >= v.len() {
            proof {
                assert(tokens_from(v@, i as int) =~= Seq::<Seq<char>>::empty());
                assert(views_of(r@) + tokens_from(v@, i as int) =~= views_of(r@));
            }
            break;
        }
        proof {
            lemma_first_space_bounds(v@, a as int);
        }
        let b = find_space(v, a);
        let tok = subvec(v, a, b);
        proof {
            assert(tokens_from(v@, i as int) == seq![v@.subrange(a as int, b as int)]
                + tokens_from(v@, b as int));
            assert(views_of(r@.push(tok)) =~= views_of(r@) + seq![tok@]);
            assert(views_of(r@) + tokens_from(v@, i as int) =~= (views_of(r@) + seq![tok@])
                + tokens_from(v@, b as int));
        }
        r.push(tok);
        i = b;
    }
    r
}

/// The pieces of `s` from `i` on, split at every occurrence of `c`.
pub open spec fn split_from(s: Seq<char>, i: int, c: char) -> Seq<Seq<char>>
    decreases s.len() - i,
    via split_from_decreases
{
    if i < 0 || i > s.len() {
        Seq::empty()
    } else {
        let j = first_at(s, i, c);
        if j >= s.len() {
            seq![s.subrange(i, s.len() as int)]
        } else {
            seq![s.subrange(i, j)] + split_from(s, j + 1, c)
        }
    }
}

#[via_fn]
proof fn split_from_decreases(s: Seq<char>, i: int, c: char) {
    if 0 <= i <= s.len() {
        lemma_first_at_bounds(s, i, c);
    }
}

pub fn split_chars(v: &Vec<char>, c: char) -> (r: Vec<Vec<char>>)
    ensures
        views_of(r@) == split_from(v@, 0, c),
{
    let mut r: Vec<Vec<char>> = Vec::new();
    let mut i: usize = 0;
    loop
        invariant_except_break
            i <= v@.len(),
            split_from(v@, 0, c) == views_of(r@) + split_from(v@, i as int, c),
        ensures
            views_of(r@) == split_from(v@, 0, c),
        decreases v@.len() - i,
    {
        proof {
            lemma_first_at_bounds(v@, i as int, c);
        }
        let j = find_at(v, i, c);
        if j >= v.len() {
            let tok = subvec(v, i, v.len());
            proof {
                assert(split_from(v@, i as int, c) == seq![v@.subrange(i as int, v@.len() as int)]);
                assert(views_of(r@.push(tok)) =~= views_of(r@) + seq![tok@]);
                assert(views_of(r@.push(tok)) =~= split_from(v@, 0, c));
            }
            r.push(tok);
            break;
        }
        let tok = subvec(v, i, j);
        proof {
            assert(split_from(v@, i as int, c) == seq![v@.subrange(i as int, j as int)]
                + split_from(v@, j + 1 as int, c));
            assert(views_of(r@.push(tok)) =~= views_of(r@) + seq![tok@]);
            assert(views_of(r@) + split_from(v@, i as int, c) =~= (views_of(r@) + seq![tok@])
                + split_from(v@, j + 1 as int, c));
        }
        r.push(tok);
        i = j + 1;
    }
    r
}

/// The decimal digit character of a value below ten.
pub open spec fn dec_digit(n: int) -> char {
    if n == 0 { '0' } else if n == 1 { '1' } else if n == 2 { '2' } else if n == 3 { '3' }
    else if n == 4 { '4' } else if n == 5 { '5' } else if n == 6 { '6' } else if n == 7 { '7' }
    else if n == 8 { '8' } else { '9' }
}

/// The decimal text of a natural number.
pub open spec fn dec_of(n: int) -> Seq<char>
    decreases n,
{
    if n < 10 {
        seq![dec_digit(n)]
    } else {
        dec_of(n / 10).push(dec_digit(n % 10))
    }
}

/// Render a number in decimal.
pub fn u64_to_string(n: u64) -> (r: String)
    ensures
        r@ == dec_of(n as int),
{
    let mut digits: Vec<char> = Vec::new();
    let mut m: u64 = n;
    proof {
        assert(dec_of(n as int) =~= dec_of(n as int) + digits@);
    }
    loop
        invariant_except_break
            dec_of(n as int) == dec_of(m as int) + digits@,
        ensures
            digits@ == dec_of(n as int),
        decreases m,
    {
        let d: u64 = m % 10;
        let c: char = if d == 0 { '0' } else if d == 1 { '1' } else if d == 2 { '2' }
            else if d == 3 { '3' } else if d == 4 { '4' } else if d == 5 { '5' }
            else if d == 6 { '6' } else if d == 7 { '7' } else if d == 8 { '8' } else { '9' };
        let ghost before = digits@;
        digits.insert(0, c);
        proof {
            assert(c == dec_digit(m as int % 10));
            assert(digits@ =~= seq![c] + before);
        }
        if m < 10 {
            proof {
                assert(dec_of(m as int) =~= seq![c]);
                assert(dec_of(m as int) + before =~= seq![c] + before);
            }
            break;
        }
        proof {
            assert(dec_of(m as int) == dec_of(m as int / 10).push(dec_digit(m as int % 10)));
            assert(dec_of(m as int / 10).push(c) + before =~= dec_of(m as int / 10) + (seq![c]
                + before));
        }
        m = m / 10;
    }
    chars_string(&digits)
}

/// Whether `s` begins with `prefix`.
pub open spec fn begins_with(s: Seq<char>, prefix: Seq<char>) -> bool {
    s.len() >= prefix.len() && s.subrange(0, prefix.len() as int) == prefix
}

pub fn str_starts_with(s: &str, prefix: &str) -> (r: bool)
    ensures
        r == begins_with(s@, prefix@),
{
    let n = s.unicode_len();
    let m = prefix.unicode_len();
    if n < m {
        return false;
    }
    let mut i: usize = 0;
    while i < m
        invariant
            n == s@.len(),
            m == prefix@.len(),
            m <= n,
            i <= m,
            forall|k: int| 0 <= k < i ==> s@[k] == prefix@[k],
        decreases m - i,
    {
        if s.get_char(i) != prefix.get_char(i) {
            proof {
                assert(s@.subrange(0, m as int)[i as int] != prefix@[i as int]);
            }
            return false;
        }
        i += 1;
    }
    proof {
        assert(s@.subrange(0, m as int) =~= prefix@);
    }
    true
}

/// Whether two string slices spell the same text.
pub fn streq(a: &str, b: &str) -> (r: bool)
    ensures
        r == (a@ == b@),
{
    let n = a.unicode_len();
    let m = b.unicode_len();
    if n != m {
        return false;
    }
    let mut i: usize = 0;
    while i < n
        invariant
            n == a@.len(),
            n == b@.len(),
            i <= n,
            forall|k: int| 0 <= k < i ==> a@[k] == b@[k],
        decreases n - i,
    {
        if a.get_char(i) != b.get_char(i) {
            return false;
        }
        i += 1;
    }
    proof {
        assert(a@ =~= b@);
    }
    true
}

/// Copy a vector of strings.
pub fn clone_strings(v: &Vec<String>) -> (r: Vec<String>)
    ensures
        r@ == v@,
{
    let mut r: Vec<String> = Vec::new();
    let mut i: usize = 0;
    while i < v.len()
        invariant
            i <= v@.len(),
            r@ == v@.subrange(0, i as int),
        decreases v@.len() - i,
    {
        r.push(v[i].clone());
        assert(r@ =~= v@.subrange(0, i + 1 as int));
        i += 1;
    }
    assert(r@ =~= v@);
    r
}

/// Whether a character vector spells the same text as a string slice.
pub fn chars_eq_str(v: &Vec<char>, s: &str) -> (r: bool)
    ensures
        r == (v@ == s@),
{
    let n = s.unicode_len();
    if v.len() != n {
        return false;
    }
    let mut i: usize = 0;
    while i < n
        invariant
            n == s@.len(),
            n == v@.len(),
            i <= n,
            forall|k: int| 0 <= k < i ==> v@[k] == s@[k],
        decreases n - i,
    {
        if v[i] != s.get_char(i) {
            return false;
        }
        i += 1;
    }
    proof {
        assert(v@ =~= s@);
    }
    true
}

} // verus!

//! Strings as sequences of characters: comparing, splitting, trimming, lines and
//! letter case. Most functions here work on character slices; `chars_of` and
//! `string_of` lead from and to strings.

use vstd::prelude::*;
use vstd::slice::slice_subrange;
use vstd::utf8::{decode_utf8, valid_utf8};

verus! {

/// `String::push` appends one character at the end of the string.
pub assume_specification[ String::push ](s: &mut String, c: char)
    ensures
        final(s)@ == old(s)@.push(c),
;

/// The characters of each string of a list.
pub open spec fn texts(v: Seq<String>) -> Seq<Seq<char>> {
    v.map_values(|s: String| s@)
}

/// The contents of each vector of a list.
pub open spec fn pieces<T>(v: Seq<Vec<T>>) -> Seq<Seq<T>> {
    v.map_values(|x: Vec<T>| x@)
}

/// The characters of a string, in order.
pub fn chars_of(s: &str) -> (v: Vec<char>)
    ensures
        v@ == s@,
{
    let mut v: Vec<char> = Vec::new();
    for c in iter: s.chars()
        invariant
            iter.seq() == s@,
            v@ == s@.take(iter.index() as int),
    {
        v.push(c);
    }
    v
}

/// The string made of the given characters.
pub fn string_of(v: &[char]) -> (s: String)
    ensures
        s@ == v@,
{
    let mut s = String::new();
    let mut i: usize = 0;
    while i < v.len()
        invariant
            i <= v@.len(),
            s@ == v@.take(i as int),
        decreases v@.len() - i,
    {
        s.push(v[i]);
        i += 1;
    }
    s
}

/// The characters as a vector of their own.
pub fn to_vec(v: &[char]) -> (r: Vec<char>)
    ensures
        r@ == v@,
{
    let mut r: Vec<char> = Vec::new();
    let mut i: usize = 0;
    while i < v.len()
        invariant
            i <= v@.len(),
            r@ == v@.take(i as int),
        decreases v@.len() - i,
    {
        r.push(v[i]);
        i += 1;
    }
    r
}

/// Two character slices hold the same characters.
pub fn same(a: &[char], b: &[char]) -> (r: bool)
    ensures
        r == (a@ == b@),
{
    if a.len() != b.len() {
        return false;
    }
    let mut i: usize = 0;
    while i < a.len()
        invariant
            i <= a@.len(),
            a@.len() == b@.len(),
            forall|j: int| 0 <= j < i ==> a@[j] == b@[j],
        decreases a@.len() - i,
    {
        if a[i] != b[i] {
            return false;
        }
        i += 1;
    }
    assert(a@ =~= b@);
    true
}

/// Two string slices hold the same text.
pub fn same_str(a: &str, b: &str) -> (r: bool)
    ensures
        r == (a@ == b@),
{
    let x = chars_of(a);
    let y = chars_of(b);
    same(&x, &y)
}

// ---- searching -------------------------------------------------------------

/// Where `c` occurs first in `s`; the length of `s` if it does not occur.
pub open spec fn find(s: Seq<char>, c: char) -> int
    decreases s.len(),
{
    if s.len() == 0 || s[0] == c {
        0
    } else {
        1 + find(s.drop_first(), c)
    }
}

pub proof fn lemma_find(s: Seq<char>, c: char)
    ensures
        0 <= find(s, c) <= s.len(),
        forall|j: int| 0 <= j < find(s, c) ==> s[j] != c,
        find(s, c) < s.len() ==> s[find(s, c)] == c,
        find(s, c) < s.len() <==> s.contains(c),
    decreases s.len(),
{
    if s.len() > 0 && s[0] != c {
        let rest = s.drop_first();
        lemma_find(rest, c);
        assert forall|j: int| 0 <= j < find(s, c) implies s[j] != c by {
            if j > 0 {
                assert(s[j] == rest[j - 1]);
            }
        }
    }
    if s.contains(c) {
        let k = choose|k: int| 0 <= k < s.len() && s[k] == c;
        assert(s[k] == c);
    }
}

pub proof fn lemma_find_is(s: Seq<char>, c: char, i: int)
    requires
        0 <= i <= s.len(),
        forall|j: int| 0 <= j < i ==> s[j] != c,
        i < s.len() ==> s[i] == c,
    ensures
        find(s, c) == i,
{
    lemma_find(s, c);
}

/// Where a character occurs first.
pub fn find_char(s: &[char], c: char) -> (r: usize)
    ensures
        r == find(s@, c),
        r <= s@.len(),
{
    let mut i: usize = 0;
    while i < s.len()
        invariant_except_break
            i <= s@.len(),
            forall|j: int| 0 <= j < i ==> s@[j] != c,
        ensures
            i <= s@.len(),
            forall|j: int| 0 <= j < i ==> s@[j] != c,
            i < s@.len() ==> s@[i as int] == c,
        decreases s@.len() - i,
    {
        if s[i] == c {
            break;
        }
        i += 1;
    }
    proof {
        lemma_find_is(s@, c, i as int);
    }
    i
}

/// The character occurs in the slice.
pub fn has_char(s: &[char], c: char) -> (r: bool)
    ensures
        r == s@.contains(c),
{
    proof {
        lemma_find(s@, c);
    }
    find_char(s, c) < s.len()
}

/// `s` begins with `p`.
pub open spec fn starts_with(s: Seq<char>, p: Seq<char>) -> bool {
    p.len() <= s.len() && s.take(p.len() as int) == p
}

pub fn has_prefix(s: &[char], p: &[char]) -> (r: bool)
    ensures
        r == starts_with(s@, p@),
{
    if p.len() > s.len() {
        return false;
    }
    let head = slice_subrange(s, 0, p.len());
    proof {
        assert(head@ =~= s@.take(p@.len() as int));
    }
    same(head, p)
}

/// `s` ends with `p`.
pub open spec fn ends_with(s: Seq<char>, p: Seq<char>) -> bool {
    p.len() <= s.len() && s.skip(s.len() - p.len()) == p
}

pub fn has_suffix(s: &[char], p: &[char]) -> (r: bool)
    ensures
        r == ends_with(s@, p@),
{
    if p.len() > s.len() {
        return false;
    }
    let tail = slice_subrange(s, s.len() - p.len(), s.len());
    proof {
        assert(tail@ =~= s@.skip(s@.len() - p@.len()));
    }
    same(tail, p)
}

// ---- splitting -------------------------------------------------------------

/// The pieces of `s` between the occurrences of `sep`: one more than there are
/// separators, empty pieces included.
pub open spec fn split(s: Seq<char>, sep: char) -> Seq<Seq<char>>
    decreases s.len(),
{
    let i = find(s, sep);
    if 0 <= i < s.len() {
        seq![s.take(i)] + split(s.skip(i + 1), sep)
    } else {
        seq![s]
    }
}

pub fn split_on(s: &[char], sep: char) -> (r: Vec<Vec<char>>)
    ensures
        pieces(r@) == split(s@, sep),
        r@.len() >= 1,
{
    let mut out: Vec<Vec<char>> = Vec::new();
    let mut rest: &[char] = s;
    proof {
        assert(pieces(out@) + split(rest@, sep) =~= split(s@, sep));
    }
    loop
        invariant
            pieces(out@) + split(rest@, sep) == split(s@, sep),
        decreases rest@.len(),
    {
        let i: usize = find_char(rest, sep);
        let head = to_vec(slice_subrange(rest, 0, i));
        proof {
            assert(head@ =~= rest@.take(i as int));
        }
        let ghost before = out@;
        out.push(head);
        proof {
            assert(pieces(out@) =~= pieces(before).push(head@));
        }
        if i == rest.len() {
            proof {
                assert(head@ =~= rest@);
                assert(pieces(out@) =~= pieces(before) + split(rest@, sep));
            }
            return out;
        }
        let tail = slice_subrange(rest, i + 1, rest.len());
        proof {
            assert(tail@ =~= rest@.skip(i + 1));
            assert(pieces(out@) + split(tail@, sep) =~= pieces(before) + split(rest@, sep));
        }
        rest = tail;
    }
}

/// A separator joins what splitting at it parts: no piece holds it.
pub proof fn lemma_split_free(s: Seq<char>, sep: char)
    ensures
        split(s, sep).len() >= 1,
        forall|i: int| 0 <= i < split(s, sep).len() ==> !(#[trigger] split(s, sep)[i]).contains(sep),
    decreases s.len(),
{
    lemma_find(s, sep);
    let i = find(s, sep);
    if i < s.len() {
        lemma_split_free(s.skip(i + 1), sep);
        assert(!s.take(i).contains(sep));
        assert forall|k: int| 0 <= k < split(s, sep).len() implies !(#[trigger] split(
            s,
            sep,
        )[k]).contains(sep) by {
            if k > 0 {
                assert(split(s, sep)[k] == split(s.skip(i + 1), sep)[k - 1]);
            }
        }
    }
}

/// The pieces with a separator between each two of them.
pub open spec fn join(parts: Seq<Seq<char>>, sep: char) -> Seq<char>
    decreases parts.len(),
{
    if parts.len() == 0 {
        seq![]
    } else if parts.len() == 1 {
        parts[0]
    } else {
        parts[0] + seq![sep] + join(parts.drop_first(), sep)
    }
}

/// Joining what was split gives the text back.
pub proof fn lemma_join_split(s: Seq<char>, sep: char)
    ensures
        join(split(s, sep), sep) == s,
    decreases s.len(),
{
    lemma_find(s, sep);
    lemma_split_free(s, sep);
    let i = find(s, sep);
    let parts = split(s, sep);
    if i < s.len() {
        let rest = s.skip(i + 1);
        lemma_join_split(rest, sep);
        lemma_split_free(rest, sep);
        assert(parts.drop_first() =~= split(rest, sep));
        assert(parts[0] == s.take(i));
        assert(s =~= s.take(i) + seq![sep] + rest);
    } else {
        assert(parts =~= seq![s]);
    }
}

/// What comes before the first separator is the first piece, the rest is split
/// on its own.
pub proof fn lemma_split_first(head: Seq<char>, rest: Seq<char>, sep: char)
    requires
        !head.contains(sep),
    ensures
        split(head + seq![sep] + rest, sep) == seq![head] + split(rest, sep),
        split(head, sep) == seq![head],
{
    let s = head + seq![sep] + rest;
    assert forall|j: int| 0 <= j < head.len() implies s[j] != sep by {
        assert(s[j] == head[j]);
        assert(head.contains(head[j]));
    }
    lemma_find_is(s, sep, head.len() as int);
    assert(s.take(head.len() as int) =~= head);
    assert(s.skip(head.len() as int + 1) =~= rest);
    lemma_find(head, sep);
}

/// Splitting what was joined gives the pieces back, provided that there is one
/// and that none holds the separator.
pub proof fn lemma_split_join(parts: Seq<Seq<char>>, sep: char)
    requires
        parts.len() > 0,
        forall|i: int| 0 <= i < parts.len() ==> !(#[trigger] parts[i]).contains(sep),
    ensures
        split(join(parts, sep), sep) == parts,
    decreases parts.len(),
{
    let tail = parts.drop_first();
    assert(!parts[0].contains(sep));
    if parts.len() == 1 {
        lemma_split_first(parts[0], seq![], sep);
        assert(parts =~= seq![parts[0]]);
    } else {
        assert forall|i: int| 0 <= i < tail.len() implies !(#[trigger] tail[i]).contains(sep) by {
            assert(tail[i] == parts[i + 1]);
        }
        lemma_split_join(tail, sep);
        lemma_split_first(parts[0], join(tail, sep), sep);
        assert(seq![parts[0]] + tail =~= parts);
    }
}

// ---- white space -----------------------------------------------------------

/// The characters with the Unicode property `White_Space`.
pub open spec fn is_white(c: char) -> bool {
    let u = c as u32;
    ||| 9 <= u <= 13
    ||| u == 0x20
    ||| u == 0x85
    ||| u == 0xA0
    ||| u == 0x1680
    ||| 0x2000 <= u <= 0x200A
    ||| u == 0x2028
    ||| u == 0x2029
    ||| u == 0x202F
    ||| u == 0x205F
    ||| u == 0x3000
}

pub fn is_whitespace(c: char) -> (r: bool)
    ensures
        r == is_white(c),
{
    let u: u32 = c as u32;
    (9 <= u && u <= 13) || u == 0x20 || u == 0x85 || u == 0xA0 || u == 0x1680 || (0x2000 <= u && u
        <= 0x200A) || u == 0x2028 || u == 0x2029 || u == 0x202F || u == 0x205F || u == 0x3000
}

/// `s` without the white space it begins with.
pub open spec fn trim_start(s: Seq<char>) -> Seq<char>
    decreases s.len(),
{
    if s.len() > 0 && is_white(s[0]) {
        trim_start(s.drop_first())
    } else {
        s
    }
}

/// `s` without the white space it ends with.
pub open spec fn trim_end(s: Seq<char>) -> Seq<char>
    decreases s.len(),
{
    if s.len() > 0 && is_white(s.last()) {
        trim_end(s.drop_last())
    } else {
        s
    }
}

/// `s` without the white space at both ends.
pub open spec fn trim(s: Seq<char>) -> Seq<char> {
    trim_end(trim_start(s))
}

pub fn trimmed_start(s: &[char]) -> (r: &[char])
    ensures
        r@ == trim_start(s@),
{
    let mut i: usize = 0;
    proof {
        assert(s@.skip(0) =~= s@);
    }
    while i < s.len() && is_whitespace(s[i])
        invariant
            i <= s@.len(),
            trim_start(s@.skip(i as int)) == trim_start(s@),
        decreases s@.len() - i,
    {
        proof {
            assert(s@.skip(i as int)[0] == s@[i as int]);
            assert(s@.skip(i as int).drop_first() =~= s@.skip(i + 1));
        }
        i += 1;
    }
    let r = slice_subrange(s, i, s.len());
    proof {
        assert(r@ =~= s@.skip(i as int));
    }
    r
}

pub fn trimmed_end(s: &[char]) -> (r: &[char])
    ensures
        r@ == trim_end(s@),
{
    let mut i: usize = s.len();
    proof {
        assert(s@.take(i as int) =~= s@);
    }
    while i > 0 && is_whitespace(s[i - 1])
        invariant
            i <= s@.len(),
            trim_end(s@.take(i as int)) == trim_end(s@),
        decreases i,
    {
        proof {
            assert(s@.take(i as int).last() == s@[i - 1]);
            assert(s@.take(i as int).drop_last() =~= s@.take(i - 1));
        }
        i -= 1;
    }
    let r = slice_subrange(s, 0, i);
    proof {
        assert(r@ =~= s@.take(i as int));
    }
    r
}

pub fn trimmed(s: &[char]) -> (r: &[char])
    ensures
        r@ == trim(s@),
{
    trimmed_end(trimmed_start(s))
}

/// The text of a string without the white space at both ends.
pub fn trimmed_str(s: &str) -> (r: String)
    ensures
        r@ == trim(s@),
{
    let v = chars_of(s);
    string_of(trimmed(&v))
}

/// How many characters stand before the first white space.
pub open spec fn word_len(s: Seq<char>) -> int
    decreases s.len(),
{
    if s.len() == 0 || is_white(s[0]) {
        0
    } else {
        1 + word_len(s.drop_first())
    }
}

/// The first run of characters that are not white space, if there is one.
pub open spec fn first_word(s: Seq<char>) -> Option<Seq<char>> {
    let t = trim_start(s);
    if t.len() == 0 {
        None
    } else {
        Some(t.take(word_len(t)))
    }
}

fn word_end(s: &[char]) -> (r: usize)
    ensures
        r == word_len(s@),
        r <= s@.len(),
{
    let mut i: usize = 0;
    proof {
        assert(s@.skip(0) =~= s@);
    }
    while i < s.len() && !is_whitespace(s[i])
        invariant
            i <= s@.len(),
            i + word_len(s@.skip(i as int)) == word_len(s@),
        decreases s@.len() - i,
    {
        proof {
            assert(s@.skip(i as int)[0] == s@[i as int]);
            assert(s@.skip(i as int).drop_first() =~= s@.skip(i + 1));
        }
        i += 1;
    }
    proof {
        if i < s@.len() {
            assert(s@.skip(i as int)[0] == s@[i as int]);
        }
    }
    i
}

pub fn first_word_of(s: &[char]) -> (r: Option<&[char]>)
    ensures
        match r {
            Some(w) => first_word(s@) == Some(w@),
            None => first_word(s@) is None,
        },
{
    let t = trimmed_start(s);
    if t.len() == 0 {
        return None;
    }
    let n: usize = word_end(t);
    let w = slice_subrange(t, 0, n);
    proof {
        assert(w@ =~= t@.take(n as int));
    }
    Some(w)
}

// ---- order -----------------------------------------------------------------

/// One text comes before another, or is the same: characters are compared one by
/// one, by code point, and a text comes before its continuations.
pub open spec fn text_le(a: Seq<char>, b: Seq<char>) -> bool
    decreases a.len(),
{
    if a.len() == 0 {
        true
    } else if b.len() == 0 {
        false
    } else if a[0] != b[0] {
        a[0] < b[0]
    } else {
        text_le(a.drop_first(), b.drop_first())
    }
}

pub fn comes_before(a: &[char], b: &[char]) -> (r: bool)
    ensures
        r == text_le(a@, b@),
{
    let mut i: usize = 0;
    proof {
        assert(a@.skip(0) =~= a@);
        assert(b@.skip(0) =~= b@);
    }
    while i < a.len() && i < b.len()
        invariant
            i <= a@.len(),
            i <= b@.len(),
            text_le(a@, b@) == text_le(a@.skip(i as int), b@.skip(i as int)),
        decreases a@.len() - i,
    {
        proof {
            assert(a@.skip(i as int)[0] == a@[i as int]);
            assert(b@.skip(i as int)[0] == b@[i as int]);
            assert(a@.skip(i as int).drop_first() =~= a@.skip(i + 1));
            assert(b@.skip(i as int).drop_first() =~= b@.skip(i + 1));
        }
        if a[i] != b[i] {
            return a[i] < b[i];
        }
        i += 1;
    }
    i == a.len()
}

/// Of two texts, one comes before the other.
pub proof fn lemma_text_le_total(a: Seq<char>, b: Seq<char>)
    ensures
        text_le(a, b) || text_le(b, a),
    decreases a.len(),
{
    if a.len() > 0 && b.len() > 0 && a[0] == b[0] {
        lemma_text_le_total(a.drop_first(), b.drop_first());
    }
}

pub proof fn lemma_text_le_transitive(a: Seq<char>, b: Seq<char>, c: Seq<char>)
    requires
        text_le(a, b),
        text_le(b, c),
    ensures
        text_le(a, c),
    decreases a.len(),
{
    if a.len() > 0 && b.len() > 0 && c.len() > 0 && a[0] == b[0] && b[0] == c[0] {
        lemma_text_le_transitive(a.drop_first(), b.drop_first(), c.drop_first());
    }
}

// ---- bytes -----------------------------------------------------------------

/// What `std::str::Utf8Error` says of bytes that are not UTF-8.
pub uninterp spec fn utf8_error(bytes: Seq<u8>) -> Seq<char>;

/// `std::str::from_utf8`: the text that bytes encode, if they are valid UTF-8,
/// else what the error says. The same bytes give the same message.
#[verifier::external_body]
pub(crate) fn utf8_text(bytes: &[u8]) -> (r: Result<String, String>)
    ensures
        match r {
            Ok(s) => valid_utf8(bytes@) && s@ == decode_utf8(bytes@),
            Err(e) => !valid_utf8(bytes@) && e@ == utf8_error(bytes@),
        },
{
    match std::str::from_utf8(bytes) {
        Ok(s) => Ok(s.to_owned()),
        Err(e) => Err(e.to_string()),
    }
}

// ---- lines -----------------------------------------------------------------

/// A line without the carriage return that it may end with.
pub open spec fn strip_cr(s: Seq<char>) -> Seq<char> {
    if s.len() > 0 && s.last() == '\r' {
        s.drop_last()
    } else {
        s
    }
}

/// The lines of a text. Each ends at a line feed, which is no part of it; a
/// last line need not end with one. A carriage return before the line feed is
/// no part of the line either.
pub open spec fn lines(s: Seq<char>) -> Seq<Seq<char>>
    decreases s.len(),
{
    let i = find(s, '\n');
    if s.len() == 0 {
        seq![]
    } else if 0 <= i < s.len() {
        seq![strip_cr(s.take(i))] + lines(s.skip(i + 1))
    } else {
        seq![s]
    }
}

pub fn lines_of(s: &[char]) -> (r: Vec<Vec<char>>)
    ensures
        pieces(r@) == lines(s@),
{
    let mut out: Vec<Vec<char>> = Vec::new();
    let mut rest: &[char] = s;
    proof {
        assert(pieces(out@) + lines(rest@) =~= lines(s@));
    }
    while rest.len() > 0
        invariant
            pieces(out@) + lines(rest@) == lines(s@),
        decreases rest@.len(),
    {
        let i: usize = find_char(rest, '\n');
        let ghost before = out@;
        if i == rest.len() {
            let last = to_vec(rest);
            out.push(last);
            proof {
                assert(pieces(out@) =~= pieces(before).push(last@));
                assert(pieces(out@) =~= pieces(before) + lines(rest@));
            }
            return out;
        }
        let mut end: usize = i;
        if i > 0 && rest[i - 1] == '\r' {
            end = i - 1;
        }
        let line = to_vec(slice_subrange(rest, 0, end));
        let tail = slice_subrange(rest, i + 1, rest.len());
        out.push(line);
        proof {
            if i > 0 {
                assert(rest@.take(i as int).last() == rest@[i - 1]);
            }
            assert(line@ =~= strip_cr(rest@.take(i as int)));
            assert(tail@ =~= rest@.skip(i + 1));
            assert(pieces(out@) =~= pieces(before).push(line@));
            assert(pieces(out@) + lines(tail@) =~= pieces(before) + lines(rest@));
        }
        rest = tail;
    }
    proof {
        assert(pieces(out@) =~= lines(s@));
    }
    out
}

// ---- letter case -----------------------------------------------------------

/// An ASCII capital as the small letter, any other character as it is.
pub open spec fn lower(c: char) -> char {
    match c {
        'A' => 'a',
        'B' => 'b',
        'C' => 'c',
        'D' => 'd',
        'E' => 'e',
        'F' => 'f',
        'G' => 'g',
        'H' => 'h',
        'I' => 'i',
        'J' => 'j',
        'K' => 'k',
        'L' => 'l',
        'M' => 'm',
        'N' => 'n',
        'O' => 'o',
        'P' => 'p',
        'Q' => 'q',
        'R' => 'r',
        'S' => 's',
        'T' => 't',
        'U' => 'u',
        'V' => 'v',
        'W' => 'w',
        'X' => 'x',
        'Y' => 'y',
        'Z' => 'z',
        _ => c,
    }
}

/// Every ASCII capital of a text made small.
pub open spec fn lowercase(s: Seq<char>) -> Seq<char> {
    s.map_values(|c: char| lower(c))
}

pub fn lower_char(c: char) -> (r: char)
    ensures
        r == lower(c),
{
    match c {
        'A' => 'a',
        'B' => 'b',
        'C' => 'c',
        'D' => 'd',
        'E' => 'e',
        'F' => 'f',
        'G' => 'g',
        'H' => 'h',
        'I' => 'i',
        'J' => 'j',
        'K' => 'k',
        'L' => 'l',
        'M' => 'm',
        'N' => 'n',
        'O' => 'o',
        'P' => 'p',
        'Q' => 'q',
        'R' => 'r',
        'S' => 's',
        'T' => 't',
        'U' => 'u',
        'V' => 'v',
        'W' => 'w',
        'X' => 'x',
        'Y' => 'y',
        'Z' => 'z',
        _ => c,
    }
}

pub fn lowercased(s: &[char]) -> (r: Vec<char>)
    ensures
        r@ == lowercase(s@),
{
    let mut r: Vec<char> = Vec::new();
    let mut i: usize = 0;
    while i < s.len()
        invariant
            i <= s@.len(),
            r@ == lowercase(s@.take(i as int)),
        decreases s@.len() - i,
    {
        r.push(lower_char(s[i]));
        i += 1;
        proof {
            assert(r@ =~= lowercase(s@.take(i as int)));
        }
    }
    proof {
        assert(s@.take(i as int) =~= s@);
    }
    r
}

/// The two texts differ in the case of ASCII letters at most.
pub fn same_ignoring_case(a: &[char], b: &[char]) -> (r: bool)
    ensures
        r == (lowercase(a@) == lowercase(b@)),
{
    let x = lowercased(a);
    let y = lowercased(b);
    same(&x, &y)
}

/// Making letters small a second time changes nothing.
pub proof fn lemma_lowercase_idempotent(s: Seq<char>)
    ensures
        lowercase(lowercase(s)) == lowercase(s),
{
    assert(lowercase(lowercase(s)) =~= lowercase(s));
}

// ---- laws ------------------------------------------------------------------

/// A text begins with another exactly if something can be put behind the other to
/// make it.
pub proof fn lemma_starts_with(s: Seq<char>, p: Seq<char>)
    ensures
        starts_with(s, p) <==> exists|rest: Seq<char>| s == #[trigger] (p + rest),
{
    if starts_with(s, p) {
        assert(s =~= p + s.skip(p.len() as int));
    }
    if exists|rest: Seq<char>| s == #[trigger] (p + rest) {
        let rest = choose|rest: Seq<char>| s == #[trigger] (p + rest);
        assert(s.take(p.len() as int) =~= p);
    }
}

/// A text ends with another exactly if something can be put in front of the other
/// to make it.
pub proof fn lemma_ends_with(s: Seq<char>, p: Seq<char>)
    ensures
        ends_with(s, p) <==> exists|front: Seq<char>| s == #[trigger] (front + p),
{
    if ends_with(s, p) {
        assert(s =~= s.take(s.len() - p.len()) + p);
    }
    if exists|front: Seq<char>| s == #[trigger] (front + p) {
        let front = choose|front: Seq<char>| s == #[trigger] (front + p);
        assert(s.skip(s.len() - p.len()) =~= p);
    }
}

/// Small letters stand 32 places behind the large ones. Only the 26 letters of
/// ASCII change, each character by itself.
pub proof fn lemma_lowercase(s: Seq<char>, i: int)
    requires
        0 <= i < s.len(),
    ensures
        lowercase(s).len() == s.len(),
        65 <= s[i] as int <= 90 ==> lowercase(s)[i] as int == s[i] as int + 32,
        !(65 <= s[i] as int <= 90) ==> lowercase(s)[i] == s[i],
{
}

/// White space is the blank, what moves the carriage, and the spaces of Unicode;
/// nothing that shows in ASCII.
pub proof fn lemma_white_space(c: char)
    ensures
        is_white(c) <==> seq![
            0x9int,
            0xa,
            0xb,
            0xc,
            0xd,
            0x20,
            0x85,
            0xa0,
            0x1680,
            0x2000,
            0x2001,
            0x2002,
            0x2003,
            0x2004,
            0x2005,
            0x2006,
            0x2007,
            0x2008,
            0x2009,
            0x200a,
            0x2028,
            0x2029,
            0x202f,
            0x205f,
            0x3000,
        ].contains(c as int),
        33 <= c as int <= 126 ==> !is_white(c),
{
    let all = seq![
        0x9int,
        0xa,
        0xb,
        0xc,
        0xd,
        0x20,
        0x85,
        0xa0,
        0x1680,
        0x2000,
        0x2001,
        0x2002,
        0x2003,
        0x2004,
        0x2005,
        0x2006,
        0x2007,
        0x2008,
        0x2009,
        0x200a,
        0x2028,
        0x2029,
        0x202f,
        0x205f,
        0x3000,
    ];
    let u = c as int;
    if is_white(c) {
        let i = if u <= 13 {
            u - 9
        } else if u == 0x20 {
            5
        } else if u == 0x85 {
            6
        } else if u == 0xa0 {
            7
        } else if u == 0x1680 {
            8
        } else if u <= 0x200a {
            9 + (u - 0x2000)
        } else if u == 0x2028 {
            20
        } else if u == 0x2029 {
            21
        } else if u == 0x202f {
            22
        } else if u == 0x205f {
            23
        } else {
            24int
        };
        assert(all[i] == u);
    }
}

/// Trimming takes white space from both ends and nothing else: what is left is
/// what stands between, and it neither begins nor ends with white space.
pub proof fn lemma_trim(s: Seq<char>)
    ensures
        exists|a: Seq<char>, b: Seq<char>| #![trigger a + trim(s) + b]
            {
                &&& s == a + trim(s) + b
                &&& forall|i: int| 0 <= i < a.len() ==> is_white(#[trigger] a[i])
                &&& forall|i: int| 0 <= i < b.len() ==> is_white(#[trigger] b[i])
            },
        trim(s).len() > 0 ==> !is_white(trim(s)[0]) && !is_white(trim(s).last()),
{
    let t = trim_start(s);
    lemma_trim_start(s);
    lemma_trim_end(t);
    let a = choose|a: Seq<char>|
        s == #[trigger] (a + t) && forall|i: int| 0 <= i < a.len() ==> is_white(#[trigger] a[i]);
    let b = choose|b: Seq<char>|
        t == #[trigger] (trim_end(t) + b) && forall|i: int|
            0 <= i < b.len() ==> is_white(#[trigger] b[i]);
    assert(s =~= a + trim(s) + b);
    if trim(s).len() > 0 {
        assert(trim(s)[0] == t[0]);
    }
}

proof fn lemma_trim_start(s: Seq<char>)
    ensures
        exists|a: Seq<char>|
            s == #[trigger] (a + trim_start(s)) && forall|i: int|
                0 <= i < a.len() ==> is_white(#[trigger] a[i]),
        trim_start(s).len() > 0 ==> !is_white(trim_start(s)[0]),
    decreases s.len(),
{
    if s.len() > 0 && is_white(s[0]) {
        let rest = s.drop_first();
        lemma_trim_start(rest);
        let a = choose|a: Seq<char>|
            rest == #[trigger] (a + trim_start(rest)) && forall|i: int|
                0 <= i < a.len() ==> is_white(#[trigger] a[i]);
        let b = seq![s[0]] + a;
        assert(rest == a + trim_start(rest));
        assert(s =~= seq![s[0]] + rest);
        assert(b + trim_start(rest) =~= seq![s[0]] + (a + trim_start(rest)));
        assert(s == b + trim_start(s));
        assert forall|i: int| 0 <= i < b.len() implies is_white(#[trigger] b[i]) by {
            if i > 0 {
                assert(b[i] == a[i - 1]);
            }
        }
    } else {
        assert(s =~= Seq::<char>::empty() + trim_start(s));
    }
}

proof fn lemma_trim_end(s: Seq<char>)
    ensures
        exists|b: Seq<char>|
            s == #[trigger] (trim_end(s) + b) && forall|i: int|
                0 <= i < b.len() ==> is_white(#[trigger] b[i]),
        trim_end(s).len() > 0 ==> !is_white(trim_end(s).last()),
    decreases s.len(),
{
    if s.len() > 0 && is_white(s.last()) {
        let rest = s.drop_last();
        lemma_trim_end(rest);
        let b = choose|b: Seq<char>|
            rest == #[trigger] (trim_end(rest) + b) && forall|i: int|
                0 <= i < b.len() ==> is_white(#[trigger] b[i]);
        let c = b.push(s.last());
        assert(rest == trim_end(rest) + b);
        assert(s =~= rest.push(s.last()));
        assert(trim_end(rest) + c =~= (trim_end(rest) + b).push(s.last()));
        assert(s == trim_end(s) + c);
        assert forall|i: int| 0 <= i < c.len() implies is_white(#[trigger] c[i]) by {
            if i < b.len() {
                assert(c[i] == b[i]);
            }
        }
    } else {
        assert(s =~= trim_end(s) + Seq::<char>::empty());
    }
}

/// The first word stands behind nothing but white space, holds none, and goes on
/// as far as it can.
pub proof fn lemma_first_word(s: Seq<char>)
    ensures
        match first_word(s) {
            Some(w) => w.len() > 0 && (forall|i: int| 0 <= i < w.len() ==> !is_white(#[trigger] w[i]))
                && exists|a: Seq<char>, rest: Seq<char>| #![trigger a + w + rest]
                {
                    &&& s == a + w + rest
                    &&& forall|i: int| 0 <= i < a.len() ==> is_white(#[trigger] a[i])
                    &&& rest.len() > 0 ==> is_white(rest[0])
                },
            None => forall|i: int| 0 <= i < s.len() ==> is_white(#[trigger] s[i]),
        },
{
    let t = trim_start(s);
    lemma_trim_start(s);
    lemma_word_len(t);
    let a = choose|a: Seq<char>|
        s == #[trigger] (a + t) && forall|i: int| 0 <= i < a.len() ==> is_white(#[trigger] a[i]);
    if t.len() > 0 {
        let w = t.take(word_len(t));
        let rest = t.skip(word_len(t));
        assert(w.len() > 0) by {
            assert(!is_white(t[0]));
        }
        assert(s =~= a + w + rest);
        if rest.len() > 0 {
            assert(rest[0] == t[word_len(t)]);
        }
    } else {
        assert(s =~= a);
    }
}

proof fn lemma_word_len(s: Seq<char>)
    ensures
        0 <= word_len(s) <= s.len(),
        forall|i: int| 0 <= i < word_len(s) ==> !is_white(#[trigger] s[i]),
        word_len(s) < s.len() ==> is_white(s[word_len(s)]),
    decreases s.len(),
{
    if s.len() > 0 && !is_white(s[0]) {
        let rest = s.drop_first();
        lemma_word_len(rest);
        assert forall|i: int| 0 <= i < word_len(s) implies !is_white(#[trigger] s[i]) by {
            if i > 0 {
                assert(s[i] == rest[i - 1]);
            }
        }
    }
}

/// A text falls into lines at line feeds; a carriage return in front of one goes
/// with it; behind the last one only what is left is a line.
pub proof fn lemma_lines(line: Seq<char>, rest: Seq<char>)
    requires
        !line.contains('\n'),
        line.len() > 0 ==> line.last() != '\r',
    ensures
        lines(line + seq!['\n'] + rest) == seq![line] + lines(rest),
        lines(line + seq!['\r', '\n'] + rest) == seq![line] + lines(rest),
        line.len() > 0 ==> lines(line) == seq![line],
        lines(Seq::<char>::empty()).len() == 0,
{
    let s = line + seq!['\n'] + rest;
    assert forall|j: int| 0 <= j < line.len() implies line[j] != '\n' by {
        assert(line.contains(line[j]));
    }
    lemma_find_is(s, '\n', line.len() as int);
    assert(s.take(line.len() as int) =~= line);
    assert(s.skip(line.len() as int + 1) =~= rest);
    let t = line + seq!['\r', '\n'] + rest;
    assert forall|j: int| 0 <= j < line.len() as int + 1 implies t[j] != '\n' by {
        if j < line.len() {
            assert(t[j] == line[j]);
        }
    }
    lemma_find_is(t, '\n', line.len() as int + 1);
    assert(t.take(line.len() as int + 1) =~= line.push('\r'));
    assert(line.push('\r').drop_last() =~= line);
    assert(t.skip(line.len() as int + 2) =~= rest);
    lemma_find_is(line, '\n', line.len() as int);
}

/// Texts are ordered like words in a dictionary: the first place where they differ
/// decides, and a text stands in front of those that go on from it.
pub proof fn lemma_text_order(
    head: Seq<char>,
    a: char,
    b: char,
    rest: Seq<char>,
    other: Seq<char>,
)
    ensures
        a as int != b as int ==> (text_le(head + seq![a] + rest, head + seq![b] + other) <==> (
        a as int) < b as int),
        text_le(head, head + rest),
        rest.len() > 0 ==> !text_le(head + rest, head),
    decreases head.len(),
{
    let x = head + seq![a] + rest;
    let y = head + seq![b] + other;
    if head.len() > 0 {
        let tail = head.drop_first();
        lemma_text_order(tail, a, b, rest, other);
        assert(x.drop_first() =~= tail + seq![a] + rest);
        assert(y.drop_first() =~= tail + seq![b] + other);
        assert((head + rest).drop_first() =~= tail + rest);
    } else {
        assert(head + rest =~= rest);
    }
}

/// Two texts that each stand in front of the other are the same.
pub proof fn lemma_text_le_antisymmetric(a: Seq<char>, b: Seq<char>)
    requires
        text_le(a, b),
        text_le(b, a),
    ensures
        a == b,
    decreases a.len(),
{
    if a.len() > 0 && b.len() > 0 {
        if a[0] == b[0] {
            lemma_text_le_antisymmetric(a.drop_first(), b.drop_first());
            assert(a =~= seq![a[0]] + a.drop_first());
            assert(b =~= seq![b[0]] + b.drop_first());
        }
    } else {
        assert(a =~= b);
    }
}

/// Where two texts are joined by a separator, the pieces are those of the first
/// followed by those of the second.
pub proof fn lemma_split_of_two(a: Seq<char>, b: Seq<char>, sep: char)
    ensures
        split(a + seq![sep] + b, sep) == split(a, sep) + split(b, sep),
    decreases a.len(),
{
    let s = a + seq![sep] + b;
    lemma_find(a, sep);
    let end = find(a, sep);
    assert forall|j: int| 0 <= j < end implies s[j] != sep by {
        assert(s[j] == a[j]);
    }
    assert(s[end] == sep);
    lemma_find_is(s, sep, end);
    assert(s.take(end) =~= a.take(end));
    if end < a.len() {
        lemma_split_of_two(a.skip(end + 1), b, sep);
        assert(s.skip(end + 1) =~= a.skip(end + 1) + seq![sep] + b);
        assert(split(s, sep) =~= split(a, sep) + split(b, sep));
    } else {
        assert(s.skip(end + 1) =~= b);
        assert(a.take(end) =~= a);
        assert(split(a, sep) == seq![a]);
        assert(split(s, sep) == seq![a] + split(b, sep));
        assert(split(s, sep) =~= split(a, sep) + split(b, sep));
    }
}

/// A text without the separator is a single piece.
pub proof fn lemma_split_of_one(s: Seq<char>, sep: char)
    requires
        forall|i: int| 0 <= i < s.len() ==> s[i] != sep,
    ensures
        split(s, sep) == seq![s],
{
    lemma_find_is(s, sep, s.len() as int);
    assert(s.take(s.len() as int) =~= s);
}

/// The texts of a list of strings, and the pieces of a list of lists, are one
/// for each, in order.
pub proof fn lemma_texts<T>(v: Seq<String>, w: Seq<Vec<T>>)
    ensures
        texts(v).len() == v.len(),
        forall|i: int| 0 <= i < v.len() ==> #[trigger] texts(v)[i] == v[i]@,
        pieces(w).len() == w.len(),
        forall|i: int| 0 <= i < w.len() ==> #[trigger] pieces(w)[i] == w[i]@,
{
}

/// Joined texts stand next to each other with the separator between them.
pub proof fn lemma_join(parts: Seq<Seq<char>>, last: Seq<char>, sep: char)
    ensures
        join(seq![], sep) == Seq::<char>::empty(),
        join(seq![last], sep) == last,
        parts.len() > 0 ==> join(parts.push(last), sep) == join(parts, sep) + seq![sep] + last,
    decreases parts.len(),
{
    if parts.len() > 0 {
        let all = parts.push(last);
        let tail = parts.drop_first();
        assert(all.drop_first() =~= tail.push(last));
        if tail.len() > 0 {
            lemma_join(tail, last, sep);
            assert(join(all, sep) =~= join(parts, sep) + seq![sep] + last);
        } else {
            assert(tail.push(last) =~= seq![last]);
            assert(parts =~= seq![parts[0]]);
            assert(join(seq![last], sep) == last);
            assert(join(all, sep) =~= join(parts, sep) + seq![sep] + last);
        }
    }
}

} // verus!

//! Slash-separated paths as text.

use vstd::prelude::*;
use vstd::slice::slice_subrange;
use vstd::string::StringExecFns;

use crate::text::{
    chars_of, lemma_split_free, lemma_split_of_one, lemma_split_of_two, pieces, split, split_on,
    string_of, to_vec,
};

verus! {

/// A piece of a path that names something: neither empty nor `.`.
pub open spec fn names_entry(c: Seq<char>) -> bool {
    c.len() > 0 && c != seq!['.']
}

/// The entries that a path names, in order.
pub open spec fn components(p: Seq<char>) -> Seq<Seq<char>> {
    split(p, '/').filter(|c: Seq<char>| names_entry(c))
}

/// Each entry behind a slash.
pub open spec fn slashed(parts: Seq<Seq<char>>) -> Seq<char>
    decreases parts.len(),
{
    if parts.len() == 0 {
        seq![]
    } else {
        slashed(parts.drop_last()).push('/') + parts.last()
    }
}

/// The text of an absolute path without the slashes and dots that change
/// nothing.
pub open spec fn normal_absolute(p: Seq<char>) -> Seq<char> {
    if components(p).len() == 0 {
        seq!['/']
    } else {
        slashed(components(p))
    }
}

/// The path starts at the root.
pub open spec fn is_absolute(p: Seq<char>) -> bool {
    p.len() > 0 && p[0] == '/'
}

/// Two dots follow each other somewhere in the text.
pub open spec fn has_dot_dot(s: Seq<char>) -> bool {
    exists|i: int| 0 <= i && i + 1 < s.len() && s[i] == '.' && #[trigger] s[i + 1] == '.'
}

pub fn contains_dot_dot(s: &[char]) -> (r: bool)
    ensures
        r == has_dot_dot(s@),
{
    let mut i: usize = 1;
    while i < s.len()
        invariant
            1 <= i,
            forall|k: int| 0 <= k && k + 1 < i && k + 1 < s@.len() ==> !(s@[k] == '.' && #[trigger] s@[k
                + 1] == '.'),
        decreases s@.len() - i,
    {
        if s[i - 1] == '.' && s[i] == '.' {
            proof {
                let k = i - 1;
                assert(s@[k] == '.' && s@[k + 1] == '.');
            }
            return true;
        }
        i += 1;
    }
    false
}

fn is_entry(c: &[char]) -> (r: bool)
    ensures
        r == names_entry(c@),
{
    proof {
        if c@.len() == 1 && c@[0] == '.' {
            assert(c@ =~= seq!['.']);
        }
    }
    c.len() > 0 && !(c.len() == 1 && c[0] == '.')
}

pub fn components_of(p: &[char]) -> (r: Vec<Vec<char>>)
    ensures
        pieces(r@) == components(p@),
{
    let all = split_on(p, '/');
    let mut out: Vec<Vec<char>> = Vec::new();
    let mut i: usize = 0;
    let ghost keep = |c: Seq<char>| names_entry(c);
    proof {
        reveal(Seq::filter);
        assert(pieces(all@).take(0).filter(keep) =~= seq![]);
        assert(pieces(out@) =~= seq![]);
    }
    while i < all.len()
        invariant
            keep == (|c: Seq<char>| names_entry(c)),
            pieces(out@) == pieces(all@).take(i as int).filter(keep),
            i <= all@.len(),
        decreases all@.len() - i,
    {
        let part = to_vec(&all[i]);
        let ghost whole = pieces(all@);
        let ghost before = out@;
        proof {
            reveal(Seq::filter);
            assert(whole.take(i + 1).drop_last() =~= whole.take(i as int));
            assert(whole.take(i + 1).last() == part@);
        }
        if is_entry(&part) {
            out.push(part);
            proof {
                assert(pieces(out@) =~= pieces(before).push(part@));
            }
        }
        assert(pieces(out@) == whole.take(i + 1).filter(keep));
        i += 1;
    }
    proof {
        assert(pieces(all@).take(i as int) =~= pieces(all@));
    }
    out
}

/// The text of an absolute path, made plain.
pub fn normalise_absolute(p: &[char]) -> (r: Vec<char>)
    ensures
        r@ == normal_absolute(p@),
{
    let parts = components_of(p);
    let mut out: Vec<char> = Vec::new();
    if parts.len() == 0 {
        out.push('/');
        proof {
            assert(out@ =~= seq!['/']);
        }
        return out;
    }
    let mut i: usize = 0;
    while i < parts.len()
        invariant
            i <= parts@.len(),
            out@ == slashed(pieces(parts@).take(i as int)),
        decreases parts@.len() - i,
    {
        let ghost whole = pieces(parts@);
        proof {
            assert(whole.take(i + 1).drop_last() =~= whole.take(i as int));
            assert(whole.take(i + 1).last() == parts@[i as int]@);
        }
        out.push('/');
        let mut rest: Vec<char> = to_vec(&parts[i]);
        out.append(&mut rest);
        i += 1;
    }
    proof {
        assert(pieces(parts@).take(i as int) =~= pieces(parts@));
    }
    out
}

/// Where `c` occurs last in `s`; -1 if it does not occur.
pub open spec fn find_last(s: Seq<char>, c: char) -> int
    decreases s.len(),
{
    if s.len() == 0 {
        -1
    } else if s.last() == c {
        s.len() - 1
    } else {
        find_last(s.drop_last(), c)
    }
}

/// A file name without its extension. A dot that the name begins with starts no
/// extension.
pub open spec fn stem(name: Seq<char>) -> Seq<char> {
    let i = find_last(name, '.');
    if i <= 0 {
        name
    } else {
        name.take(i)
    }
}

/// The name of the file that a path leads to, without its extension. A path
/// that names nothing, or ends by going up, leads to no file.
pub open spec fn file_stem(p: Seq<char>) -> Option<Seq<char>> {
    let parts = components(p);
    if parts.len() == 0 || parts.last() == seq!['.', '.'] {
        None
    } else {
        Some(stem(parts.last()))
    }
}

/// Where the extension of a file name begins: the place of its dot, 0 if it has
/// none.
fn extension_dot(name: &[char]) -> (r: usize)
    ensures
        r < name@.len() || r == 0,
        r == (if find_last(name@, '.') <= 0 {
            0
        } else {
            find_last(name@, '.')
        }),
{
    let mut i: usize = name.len();
    proof {
        assert(name@.take(i as int) =~= name@);
    }
    while i > 0
        invariant
            i <= name@.len(),
            find_last(name@, '.') == find_last(name@.take(i as int), '.'),
        decreases i,
    {
        proof {
            assert(name@.take(i as int).last() == name@[i - 1]);
            assert(name@.take(i as int).drop_last() =~= name@.take(i - 1));
        }
        if name[i - 1] == '.' {
            return i - 1;
        }
        i -= 1;
    }
    0
}

fn stem_of(name: &[char]) -> (r: String)
    ensures
        r@ == stem(name@),
{
    let i: usize = extension_dot(name);
    if i == 0 {
        return string_of(name);
    }
    let head = slice_subrange(name, 0, i);
    proof {
        assert(head@ =~= name@.take(i as int));
    }
    string_of(head)
}

/// The extension of the file that a path leads to. A dot that the name begins
/// with starts no extension.
pub open spec fn extension(p: Seq<char>) -> Option<Seq<char>> {
    let parts = components(p);
    let name = parts.last();
    if parts.len() == 0 || name == seq!['.', '.'] || find_last(name, '.') <= 0 {
        None
    } else {
        Some(name.skip(find_last(name, '.') + 1))
    }
}

/// The last component of a path, unless it goes up.
fn file_name_of(p: &str) -> (r: Option<Vec<char>>)
    ensures
        match r {
            Some(n) => components(p@).len() > 0 && components(p@).last() == n@ && n@ != seq![
                '.',
                '.',
            ],
            None => components(p@).len() == 0 || components(p@).last() == seq!['.', '.'],
        },
{
    let v = chars_of(p);
    let mut parts = components_of(&v);
    match parts.pop() {
        None => None,
        Some(last) => {
            proof {
                assert(components(p@).last() == last@);
                if last@.len() == 2 && last@[0] == '.' && last@[1] == '.' {
                    assert(last@ =~= seq!['.', '.']);
                }
            }
            if last.len() == 2 && last[0] == '.' && last[1] == '.' {
                return None;
            }
            Some(last)
        },
    }
}

pub fn extension_of(p: &str) -> (r: Option<String>)
    ensures
        match r {
            Some(e) => extension(p@) == Some(e@),
            None => extension(p@) is None,
        },
{
    match file_name_of(p) {
        None => None,
        Some(name) => {
            let n: usize = name.len();
            let i: usize = extension_dot(&name);
            if i == 0 {
                return None;
            }
            let tail = slice_subrange(&name, i + 1, n);
            proof {
                assert(tail@ =~= name@.skip(i + 1));
            }
            Some(string_of(tail))
        },
    }
}

pub fn file_stem_of(p: &str) -> (r: Option<String>)
    ensures
        match r {
            Some(s) => file_stem(p@) == Some(s@),
            None => file_stem(p@) is None,
        },
{
    match file_name_of(p) {
        None => None,
        Some(name) => Some(stem_of(&name)),
    }
}

/// A path below another. One that begins at the root stands for itself.
pub open spec fn joined(base: Seq<char>, part: Seq<char>) -> Seq<char> {
    if part.len() > 0 && part[0] == '/' {
        part
    } else if base.len() == 0 || base.last() == '/' {
        base + part
    } else {
        base + "/"@ + part
    }
}

pub fn join_path(base: &str, part: &str) -> (r: String)
    ensures
        r@ == joined(base@, part@),
{
    let b = chars_of(base);
    let p = chars_of(part);
    if p.len() > 0 && p[0] == '/' {
        return String::from_str(part);
    }
    let mut r = String::from_str(base);
    if b.len() > 0 && b[b.len() - 1] != '/' {
        r.append("/");
    }
    r.append(part);
    r
}

// ---- laws ------------------------------------------------------------------

/// A path without slashes names one entry, unless it is empty or a single dot;
/// what two paths with a slash between them name is what the first names, then
/// what the second names.
pub proof fn lemma_components(one: Seq<char>, a: Seq<char>, b: Seq<char>)
    requires
        forall|i: int| 0 <= i < one.len() ==> one[i] != '/',
    ensures
        components(one) == if one.len() == 0 || one == seq!['.'] {
            seq![]
        } else {
            seq![one]
        },
        components(a + seq!['/'] + b) == components(a) + components(b),
{
    lemma_split_of_one(one, '/');
    let f = |c: Seq<char>| names_entry(c);
    let single = seq![one];
    assert(single.drop_last() =~= seq![]);
    reveal(Seq::filter);
    assert(single.drop_last().filter(f) =~= seq![]);
    assert(components(one) =~= if one.len() == 0 || one == seq!['.'] {
        seq![]
    } else {
        seq![one]
    });
    lemma_split_of_two(a, b, '/');
    Seq::filter_distributes_over_add(split(a, '/'), split(b, '/'), f);
}

/// The normal form of an absolute path: a slash before each entry, and a single
/// slash where there is none.
pub proof fn lemma_normal_absolute(p: Seq<char>, parts: Seq<Seq<char>>, last: Seq<char>)
    ensures
        slashed(seq![]) == Seq::<char>::empty(),
        slashed(parts.push(last)) == slashed(parts) + seq!['/'] + last,
        components(p).len() == 0 ==> normal_absolute(p) == seq!['/'],
        components(p).len() > 0 ==> normal_absolute(p) == slashed(components(p)),
{
    assert(parts.push(last).drop_last() =~= parts);
    assert(slashed(parts).push('/') + last =~= slashed(parts) + seq!['/'] + last);
}

proof fn lemma_components_of_slashed(parts: Seq<Seq<char>>)
    requires
        forall|i: int, j: int|
            0 <= i < parts.len() && 0 <= j < parts[i].len() ==> #[trigger] parts[i][j] != '/',
        forall|i: int| 0 <= i < parts.len() ==> names_entry(#[trigger] parts[i]),
    ensures
        components(slashed(parts)) == parts,
    decreases parts.len(),
{
    if parts.len() == 0 {
        lemma_components(seq![], seq![], seq![]);
        assert(components(slashed(parts)) =~= parts);
    } else {
        let front = parts.drop_last();
        let last = parts.last();
        assert forall|i: int, j: int| 0 <= i < front.len() && 0 <= j < front[i].len() implies
            #[trigger] front[i][j] != '/' by {
            assert(parts[i][j] != '/');
        }
        assert forall|i: int| 0 <= i < front.len() implies names_entry(#[trigger] front[i]) by {
            assert(names_entry(parts[i]));
        }
        lemma_components_of_slashed(front);
        assert forall|j: int| 0 <= j < last.len() implies last[j] != '/' by {
            assert(parts[parts.len() - 1][j] != '/');
        }
        assert(names_entry(parts[parts.len() - 1]));
        lemma_components(last, slashed(front), last);
        assert(slashed(parts) =~= slashed(front) + seq!['/'] + last);
        assert(components(slashed(parts)) =~= parts);
    }
}

/// Two paths have the same normal form exactly if they name the same entries,
/// and the normal form names them too.
pub proof fn lemma_same_place(p: Seq<char>, q: Seq<char>)
    ensures
        components(normal_absolute(p)) == components(p),
        normal_absolute(p) == normal_absolute(q) <==> components(p) == components(q),
        is_absolute(normal_absolute(p)),
{
    lemma_normal_names_the_same(p);
    lemma_normal_names_the_same(q);
}

proof fn lemma_normal_names_the_same(p: Seq<char>)
    ensures
        components(normal_absolute(p)) == components(p),
        is_absolute(normal_absolute(p)),
{
    let parts = components(p);
    let f = |c: Seq<char>| names_entry(c);
    lemma_split_free(p, '/');
    assert forall|i: int| 0 <= i < parts.len() implies names_entry(#[trigger] parts[i]) && !parts[i].contains('/') by {
        split(p, '/').lemma_filter_contains_rev(f, parts[i]);
        let k = choose|k: int| 0 <= k < split(p, '/').len() && split(p, '/')[k] == parts[i];
        assert(!split(p, '/')[k].contains('/'));
        split(p, '/').lemma_filter_pred(f, i);
    }
    assert forall|i: int, j: int| 0 <= i < parts.len() && 0 <= j < parts[i].len() implies
        #[trigger] parts[i][j] != '/' by {
        assert(parts[i].contains(parts[i][j]));
    }
    if parts.len() == 0 {
        lemma_components(seq![], seq![], seq![]);
        assert(seq!['/'] =~= Seq::<char>::empty() + seq!['/'] + Seq::<char>::empty());
        assert(components(normal_absolute(p)) =~= parts);
    } else {
        lemma_components_of_slashed(parts);
        lemma_slashed_begins(parts);
    }
}

proof fn lemma_slashed_begins(parts: Seq<Seq<char>>)
    requires
        parts.len() > 0,
    ensures
        slashed(parts).len() > 0,
        slashed(parts)[0] == '/',
    decreases parts.len(),
{
    if parts.len() > 1 {
        lemma_slashed_begins(parts.drop_last());
        assert(slashed(parts)[0] == slashed(parts.drop_last())[0]);
    } else {
        assert(slashed(parts.drop_last()) =~= seq![]);
        assert(slashed(parts) =~= seq!['/'] + parts.last());
    }
}

/// Two dots next to each other are found wherever they stand, and nothing else is
/// taken for them; a path from the root begins with a slash.
pub proof fn lemma_dot_dot(s: Seq<char>, a: Seq<char>, b: Seq<char>)
    ensures
        has_dot_dot(a + seq!['.', '.'] + b),
        has_dot_dot(s) ==> exists|i: int|
            0 <= i < s.len() - 1 && #[trigger] s[i] == '.' && s[i + 1] == '.',
        is_absolute(seq!['/'] + b),
        s.len() == 0 || s[0] != '/' ==> !is_absolute(s),
{
    let t = a + seq!['.', '.'] + b;
    let i = a.len() as int;
    assert(t[i] == '.' && t[i + 1] == '.');
    if has_dot_dot(s) {
        let k = choose|k: int|
            0 <= k && k + 1 < s.len() && s[k] == '.' && #[trigger] s[k + 1] == '.';
        assert(s[k] == '.');
    }
}

proof fn lemma_find_last(s: Seq<char>, c: char)
    ensures
        -1 <= find_last(s, c) < s.len(),
        find_last(s, c) >= 0 ==> s[find_last(s, c)] == c,
        forall|i: int| find_last(s, c) < i < s.len() ==> s[i] != c,
    decreases s.len(),
{
    if s.len() > 0 && s.last() != c {
        lemma_find_last(s.drop_last(), c);
        assert forall|i: int| find_last(s, c) < i < s.len() implies s[i] != c by {
            if i < s.len() - 1 {
                assert(s.drop_last()[i] == s[i]);
            }
        }
    }
}

/// The file that a path leads to is the last entry it names. Where a dot stands
/// in that name, but not at its beginning, the last one parts stem and extension;
/// else all of it is stem. A path that names nothing, or ends by going up, leads
/// to no file.
pub proof fn lemma_file_name(p: Seq<char>, stem: Seq<char>, ext: Seq<char>)
    requires
        components(p).len() > 0,
        forall|i: int| 0 <= i < ext.len() ==> ext[i] != '.',
    ensures
        components(p).last() == stem + seq!['.'] + ext && stem.len() > 0 && components(p).last()
            != seq!['.', '.'] ==> file_stem(p) == Some(stem) && extension(p) == Some(ext),
        components(p).last() == ext || components(p).last() == seq!['.'] + ext ==> file_stem(p)
            == Some(components(p).last()) && extension(p) is None,
        components(p).last() == seq!['.', '.'] ==> file_stem(p) is None && extension(p) is None,
{
    let name = components(p).last();
    lemma_find_last(name, '.');
    let i = find_last(name, '.');
    if name == stem + seq!['.'] + ext && stem.len() > 0 {
        let n = stem.len() as int;
        assert(name[n] == '.');
        if i > n {
            assert(name[i] == ext[i - n - 1]);
        }
        assert(i == n);
        assert(name.take(n) =~= stem);
        assert(name.skip(n + 1) =~= ext);
    }
    if name == ext {
        if i >= 0 {
            assert(ext[i] == '.');
        }
    }
    if name == seq!['.'] + ext {
        if i > 0 {
            assert(name[i] == ext[i - 1]);
        }
        if name == seq!['.', '.'] {
            assert(ext[0] == name[1]);
        }
    }
    if name == seq!['.', '.'] && name == ext {
        assert(ext[0] == '.');
    }
}

/// A path that names nothing leads to no file.
pub proof fn lemma_no_file(p: Seq<char>)
    requires
        components(p).len() == 0,
    ensures
        file_stem(p) is None,
        extension(p) is None,
{
}

/// A path below another: one slash between the two, unless one stands there
/// already; a path from the root stays as it is.
pub proof fn lemma_joined(base: Seq<char>, part: Seq<char>)
    ensures
        is_absolute(part) ==> joined(base, part) == part,
        !is_absolute(part) && base.len() > 0 && base[base.len() - 1] != '/' ==> joined(base, part)
            == base + seq!['/'] + part,
        !is_absolute(part) && base.len() > 0 && base[base.len() - 1] == '/' ==> joined(base, part)
            == base + part,
        !is_absolute(part) && base.len() == 0 ==> joined(base, part) == part,
{
    reveal_strlit("/");
    assert("/"@ =~= seq!['/']);
    if base.len() == 0 {
        assert(base + part =~= part);
    }
}

} // verus!

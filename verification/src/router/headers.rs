//! Headers of requests and responses.

use vstd::prelude::*;
use vstd::string::StringExecFns;
use vstd::utf8::encode_utf8;

use super::config::RouterConfig;
use crate::egress::addr::{ipv4_text, lemma_address_of_digits, IpAddr};
use crate::egress::net::IpNet;
use crate::text::{
    chars_of, lemma_lowercase_idempotent, lemma_split_of_one, lemma_split_of_two, lowercase,
    lowercased, pieces, same_ignoring_case, same_str, split, split_on, string_of, texts, trim,
    trimmed,
};

verus! {

pub const X_FORWARDED_FOR: &'static str = "x-forwarded-for";

pub const X_FORWARDED_PROTO: &'static str = "x-forwarded-proto";

pub const X_FORWARDED_HOST: &'static str = "x-forwarded-host";

pub const CONNECTION: &'static str = "connection";

pub const UPGRADE: &'static str = "upgrade";

pub const HOST: &'static str = "host";

/// Header lines: a name and a value each. A name may occur more than once, and
/// whether its letters are large or small does not matter: it is kept in small
/// ones.
#[derive(Debug)]
pub struct Headers {
    entries: Vec<(String, Vec<u8>)>,
}

/// The values that a list of header lines gives a name, in order.
pub open spec fn values_in(entries: Seq<(String, Vec<u8>)>, name: Seq<char>) -> Seq<Seq<u8>>
    decreases entries.len(),
{
    if entries.len() == 0 {
        seq![]
    } else {
        let front = values_in(entries.drop_last(), name);
        if entries.last().0@ == name {
            front.push(entries.last().1@)
        } else {
            front
        }
    }
}

/// A byte that shows as text: printable ASCII or a tab.
pub open spec fn is_visible(b: u8) -> bool {
    (32 <= b && b < 127) || b == 9
}

/// A byte that a value may hold: no control character but the tab.
pub open spec fn is_value_byte(b: u8) -> bool {
    (32 <= b && b != 127) || b == 9
}

/// The text of a value, if all of it shows as text.
pub open spec fn value_text(v: Seq<u8>) -> Option<Seq<char>> {
    if forall|i: int| 0 <= i < v.len() ==> is_visible(#[trigger] v[i]) {
        Some(v.map_values(|b: u8| b as char))
    } else {
        None
    }
}

/// The text can be sent as a value.
pub open spec fn is_value(s: Seq<char>) -> bool {
    forall|i: int| 0 <= i < encode_utf8(s).len() ==> is_value_byte(#[trigger] encode_utf8(s)[i])
}

fn byte_char(b: u8) -> (c: char)
    ensures
        c == b as char,
{
    b as char
}

/// The text of a value, if all of it shows as text.
pub fn text_of_value(v: &Vec<u8>) -> (r: Option<Vec<char>>)
    ensures
        match r {
            Some(t) => value_text(v@) == Some(t@),
            None => value_text(v@) is None,
        },
{
    let mut out: Vec<char> = Vec::new();
    let mut i: usize = 0;
    while i < v.len()
        invariant
            i <= v@.len(),
            forall|j: int| 0 <= j < i ==> is_visible(#[trigger] v@[j]),
            out@ == v@.take(i as int).map_values(|b: u8| b as char),
        decreases v@.len() - i,
    {
        let b: u8 = v[i];
        if !((32 <= b && b < 127) || b == 9) {
            proof {
                assert(!is_visible(v@[i as int]));
            }
            return None;
        }
        out.push(byte_char(b));
        proof {
            assert(out@ =~= v@.take(i + 1).map_values(|b: u8| b as char));
        }
        i += 1;
    }
    proof {
        assert(v@.take(i as int) =~= v@);
    }
    Some(out)
}

/// The bytes of a text, if it can be sent as a value.
pub fn value_of_text(s: &str) -> (r: Option<Vec<u8>>)
    ensures
        match r {
            Some(v) => is_value(s@) && v@ == encode_utf8(s@),
            None => !is_value(s@),
        },
{
    let bytes = s.as_bytes();
    let mut out: Vec<u8> = Vec::new();
    let mut i: usize = 0;
    while i < bytes.len()
        invariant
            bytes@ == encode_utf8(s@),
            i <= bytes@.len(),
            forall|j: int| 0 <= j < i ==> is_value_byte(#[trigger] bytes@[j]),
            out@ == bytes@.take(i as int),
        decreases bytes@.len() - i,
    {
        let b: u8 = bytes[i];
        if !((32 <= b && b != 127) || b == 9) {
            proof {
                assert(!is_value_byte(encode_utf8(s@)[i as int]));
            }
            return None;
        }
        out.push(b);
        i += 1;
    }
    proof {
        assert(bytes@.take(i as int) =~= bytes@);
    }
    Some(out)
}

impl Headers {
    /// The lines in order.
    pub closed spec fn lines(self) -> Seq<(String, Vec<u8>)> {
        self.entries@
    }

    /// All names are in small letters.
    pub open spec fn wf(self) -> bool {
        forall|i: int|
            0 <= i < self.lines().len() ==> lowercase((#[trigger] self.lines()[i]).0@)
                == self.lines()[i].0@
    }

    /// The values under a name in small letters, in order.
    pub open spec fn values(self, name: Seq<char>) -> Seq<Seq<u8>> {
        values_in(self.lines(), name)
    }

    /// The text of the first value under a name.
    pub open spec fn first_text(self, name: Seq<char>) -> Option<Seq<char>> {
        if self.values(name).len() == 0 {
            None
        } else {
            value_text(self.values(name)[0])
        }
    }

    pub fn new() -> (r: Headers)
        ensures
            r.wf(),
            forall|name: Seq<char>| (#[trigger] r.values(name)).len() == 0,
    {
        Headers { entries: Vec::new() }
    }

    /// The lines in order.
    pub fn all(&self) -> (r: &Vec<(String, Vec<u8>)>)
        ensures
            r@ == self.lines(),
    {
        &self.entries
    }

    /// Add a line.
    pub fn append_line(&mut self, name: String, value: Vec<u8>)
        ensures
            old(self).wf() ==> final(self).wf(),
            forall|n: Seq<char>| #[trigger]
                final(self).values(n) == (if n == lowercase(name@) {
                    old(self).values(n).push(value@)
                } else {
                    old(self).values(n)
                }),
    {
        let ghost before = *self;
        let small = small_letters(name.as_str());
        proof {
            lemma_lowercase_idempotent(name@);
        }
        self.entries.push((small, value));
        proof {
            assert(self.lines().drop_last() =~= before.lines());
            if before.wf() {
                assert forall|i: int| 0 <= i < self.lines().len() implies lowercase(
                    (#[trigger] self.lines()[i]).0@,
                ) == self.lines()[i].0@ by {
                    if i < before.lines().len() {
                        assert(self.lines()[i] == before.lines()[i]);
                    }
                }
            }
        }
    }

    /// Drop all lines with a name.
    pub fn remove(&mut self, name: &str)
        ensures
            old(self).wf() ==> final(self).wf(),
            forall|n: Seq<char>| #[trigger]
                final(self).values(n) == (if n == lowercase(name@) {
                    seq![]
                } else {
                    old(self).values(n)
                }),
    {
        let small = small_letters(name);
        self.drop_lines(small.as_str());
    }

    /// Drop all lines whose name is written like this.
    fn drop_lines(&mut self, name: &str)
        ensures
            old(self).wf() ==> final(self).wf(),
            forall|n: Seq<char>| #[trigger]
                final(self).values(n) == (if n == name@ {
                    seq![]
                } else {
                    old(self).values(n)
                }),
    {
        let mut i: usize = 0;
        while i < self.entries.len()
            invariant
                i <= self.entries@.len(),
                old(self).wf() ==> self.wf(),
                forall|j: int| 0 <= j < i ==> (#[trigger] self.entries@[j]).0@ != name@,
                forall|n: Seq<char>|
                    n != name@ ==> #[trigger] self.values(n) == old(self).values(n),
            decreases self.entries@.len() - i,
        {
            if same_str(self.entries[i].0.as_str(), name) {
                let ghost before = *self;
                self.entries.remove(i);
                proof {
                    assert forall|n: Seq<char>| n != name@ implies #[trigger] self.values(n)
                        == old(self).values(n) by {
                        lemma_values_after_remove(before.entries@, i as int, n);
                        assert(before.values(n) == old(self).values(n));
                    }
                    if before.wf() {
                        assert forall|k: int| 0 <= k < self.lines().len() implies lowercase(
                            (#[trigger] self.lines()[k]).0@,
                        ) == self.lines()[k].0@ by {
                            let from = if k < i {
                                k
                            } else {
                                k + 1
                            };
                            assert(self.lines()[k] == before.lines()[from]);
                        }
                    }
                }
            } else {
                i += 1;
            }
        }
        proof {
            lemma_no_values(self.entries@, name@);
        }
    }

    /// Drop all lines whose name is written like one of these.
    fn remove_all(&mut self, names: &Vec<String>)
        ensures
            old(self).wf() ==> final(self).wf(),
            forall|n: Seq<char>| #[trigger]
                final(self).values(n) == (if texts(names@).contains(n) {
                    seq![]
                } else {
                    old(self).values(n)
                }),
    {
        let ghost all = texts(names@);
        let mut i: usize = 0;
        while i < names.len()
            invariant
                i <= names@.len(),
                all == texts(names@),
                old(self).wf() ==> self.wf(),
                forall|n: Seq<char>| #[trigger]
                    self.values(n) == (if all.take(i as int).contains(n) {
                        seq![]
                    } else {
                        old(self).values(n)
                    }),
            decreases names@.len() - i,
        {
            let ghost before = *self;
            self.drop_lines(names[i].as_str());
            proof {
                let name = names@[i as int]@;
                assert forall|n: Seq<char>| #[trigger] self.values(n) == (if all.take(
                    i + 1,
                ).contains(n) {
                    seq![]
                } else {
                    old(self).values(n)
                }) by {
                    assert(self.values(n) == (if n == name {
                        seq![]
                    } else {
                        before.values(n)
                    }));
                    assert(before.values(n) == (if all.take(i as int).contains(n) {
                        seq![]
                    } else {
                        old(self).values(n)
                    }));
                    lemma_contains_one_more(all, i as int, n);
                }
            }
            i += 1;
        }
        proof {
            assert(all.take(i as int) =~= all);
        }
    }

    /// Replace the lines with a name by one.
    pub fn insert(&mut self, name: &str, value: Vec<u8>)
        ensures
            old(self).wf() ==> final(self).wf(),
            forall|n: Seq<char>| #[trigger]
                final(self).values(n) == (if n == lowercase(name@) {
                    seq![value@]
                } else {
                    old(self).values(n)
                }),
    {
        self.remove(name);
        let ghost without = *self;
        self.append_line(name.to_owned(), value);
        proof {
            let small = lowercase(name@);
            assert forall|n: Seq<char>| #[trigger] self.values(n) == (if n == small {
                seq![value@]
            } else {
                old(self).values(n)
            }) by {
                assert(without.values(n) == (if n == small {
                    seq![]
                } else {
                    old(self).values(n)
                }));
                if n == small {
                    assert(self.values(n) =~= seq![value@]);
                }
            }
        }
    }

    /// The first value under a name.
    pub fn get(&self, name: &str) -> (r: Option<&Vec<u8>>)
        ensures
            match r {
                Some(v) => self.values(lowercase(name@)).len() > 0 && v@ == self.values(
                    lowercase(name@),
                )[0],
                None => self.values(lowercase(name@)).len() == 0,
            },
    {
        let small = small_letters(name);
        self.first(small.as_str())
    }

    /// The value of the first line whose name is written like this.
    fn first(&self, name: &str) -> (r: Option<&Vec<u8>>)
        ensures
            match r {
                Some(v) => self.values(name@).len() > 0 && v@ == self.values(name@)[0],
                None => self.values(name@).len() == 0,
            },
    {
        let mut i: usize = 0;
        while i < self.entries.len()
            invariant
                i <= self.entries@.len(),
                forall|j: int| 0 <= j < i ==> (#[trigger] self.entries@[j]).0@ != name@,
            decreases self.entries@.len() - i,
        {
            if same_str(self.entries[i].0.as_str(), name) {
                proof {
                    lemma_first_value(self.entries@, i as int);
                }
                return Some(&self.entries[i].1);
            }
            i += 1;
        }
        proof {
            lemma_no_values(self.entries@, name@);
        }
        None
    }

    /// Some line has the name.
    pub fn contains_key(&self, name: &str) -> (r: bool)
        ensures
            r == (self.values(lowercase(name@)).len() > 0),
    {
        self.get(name).is_some()
    }

    /// The text of the first value under a name.
    pub fn get_text(&self, name: &str) -> (r: Option<Vec<char>>)
        ensures
            match r {
                Some(t) => self.first_text(lowercase(name@)) == Some(t@),
                None => self.first_text(lowercase(name@)) is None,
            },
    {
        match self.get(name) {
            Some(v) => text_of_value(v),
            None => None,
        }
    }
}

/// A name in small letters.
fn small_letters(name: &str) -> (r: String)
    ensures
        r@ == lowercase(name@),
{
    string_of(&lowercased(&chars_of(name)))
}

/// A name is found under its small letters alone, however it was written.
pub proof fn lemma_names_are_small(h: Headers, name: Seq<char>)
    requires
        h.wf(),
    ensures
        h.values(name).len() > 0 ==> lowercase(name) == name,
{
    if h.values(name).len() > 0 {
        lemma_value_has_line(h.lines(), name);
    }
}

proof fn lemma_value_has_line(entries: Seq<(String, Vec<u8>)>, name: Seq<char>)
    requires
        values_in(entries, name).len() > 0,
    ensures
        exists|i: int| 0 <= i < entries.len() && (#[trigger] entries[i]).0@ == name,
    decreases entries.len(),
{
    if entries.last().0@ == name {
        assert(entries[entries.len() - 1].0@ == name);
    } else {
        lemma_value_has_line(entries.drop_last(), name);
        let i = choose|i: int|
            0 <= i < entries.len() - 1 && (#[trigger] entries.drop_last()[i]).0@ == name;
        assert(entries[i].0@ == name);
    }
}

/// The names that the router reads and writes are in small letters.
proof fn lemma_own_names_are_small()
    ensures
        lowercase(X_FORWARDED_FOR@) == X_FORWARDED_FOR@,
        lowercase(X_FORWARDED_PROTO@) == X_FORWARDED_PROTO@,
        lowercase(X_FORWARDED_HOST@) == X_FORWARDED_HOST@,
        lowercase(CONNECTION@) == CONNECTION@,
        lowercase(UPGRADE@) == UPGRADE@,
        lowercase(HOST@) == HOST@,
{
    reveal_strlit("x-forwarded-for");
    reveal_strlit("x-forwarded-proto");
    reveal_strlit("x-forwarded-host");
    reveal_strlit("connection");
    reveal_strlit("upgrade");
    reveal_strlit("host");
    assert(lowercase(X_FORWARDED_FOR@) =~= X_FORWARDED_FOR@);
    assert(lowercase(X_FORWARDED_PROTO@) =~= X_FORWARDED_PROTO@);
    assert(lowercase(X_FORWARDED_HOST@) =~= X_FORWARDED_HOST@);
    assert(lowercase(CONNECTION@) =~= CONNECTION@);
    assert(lowercase(UPGRADE@) =~= UPGRADE@);
    assert(lowercase(HOST@) =~= HOST@);
}

proof fn lemma_contains_one_more(all: Seq<Seq<char>>, i: int, n: Seq<char>)
    requires
        0 <= i < all.len(),
    ensures
        all.take(i + 1).contains(n) <==> all.take(i).contains(n) || n == all[i],
{
    if all.take(i).contains(n) {
        let k = choose|k: int| 0 <= k < i && all.take(i)[k] == n;
        assert(all.take(i + 1)[k] == n);
    }
    if n == all[i] {
        assert(all.take(i + 1)[i] == n);
    }
    if all.take(i + 1).contains(n) {
        let head = all.take(i + 1);
        let k = choose|k: int| 0 <= k < head.len() && head[k] == n;
        if k < i {
            assert(all.take(i)[k] == n);
        }
    }
}

proof fn lemma_values_after_remove(entries: Seq<(String, Vec<u8>)>, i: int, n: Seq<char>)
    requires
        0 <= i < entries.len(),
        entries[i].0@ != n,
    ensures
        values_in(entries.remove(i), n) == values_in(entries, n),
    decreases entries.len(),
{
    let without = entries.remove(i);
    if i == entries.len() - 1 {
        assert(without =~= entries.drop_last());
    } else {
        assert(without.drop_last() =~= entries.drop_last().remove(i));
        assert(without.last() == entries.last());
        lemma_values_after_remove(entries.drop_last(), i, n);
    }
}

proof fn lemma_no_values(entries: Seq<(String, Vec<u8>)>, n: Seq<char>)
    requires
        forall|j: int| 0 <= j < entries.len() ==> (#[trigger] entries[j]).0@ != n,
    ensures
        values_in(entries, n) == Seq::<Seq<u8>>::empty(),
    decreases entries.len(),
{
    if entries.len() > 0 {
        assert(entries[entries.len() - 1].0@ != n);
        lemma_no_values(entries.drop_last(), n);
    }
}

proof fn lemma_first_value(entries: Seq<(String, Vec<u8>)>, i: int)
    requires
        0 <= i < entries.len(),
        forall|j: int| 0 <= j < i ==> (#[trigger] entries[j]).0@ != entries[i].0@,
    ensures
        values_in(entries, entries[i].0@).len() > 0,
        values_in(entries, entries[i].0@)[0] == entries[i].1@,
    decreases entries.len(),
{
    let n = entries[i].0@;
    if i == entries.len() - 1 {
        lemma_no_values(entries.drop_last(), n);
    } else {
        lemma_first_value(entries.drop_last(), i);
    }
}

// ---- upgrades --------------------------------------------------------------

/// The text names an upgrade among its comma-separated words.
pub open spec fn asks_upgrade(t: Seq<char>) -> bool {
    exists|i: int|
        0 <= i < split(t, ',').len() && lowercase(trim(#[trigger] split(t, ',')[i])) == lowercase(
            "upgrade"@,
        )
}

/// A request for an upgrade has an `Upgrade` header and names it in its first
/// `Connection` header.
pub open spec fn upgrade_requested(h: Headers) -> bool {
    &&& h.values(UPGRADE@).len() > 0
    &&& h.first_text(CONNECTION@) is Some
    &&& asks_upgrade(h.first_text(CONNECTION@)->0)
}

pub fn is_upgrade_request(headers: &Headers) -> (r: bool)
    ensures
        r == upgrade_requested(*headers),
{
    proof {
        lemma_own_names_are_small();
    }
    if !headers.contains_key(UPGRADE) {
        return false;
    }
    match headers.get_text(CONNECTION) {
        None => false,
        Some(t) => {
            let parts = split_on(&t, ',');
            let word = chars_of("upgrade");
            let mut i: usize = 0;
            while i < parts.len()
                invariant
                    i <= parts@.len(),
                    word@ == "upgrade"@,
                    pieces(parts@) == split(t@, ','),
                    headers.first_text(CONNECTION@) == Some(t@),
                    headers.values(UPGRADE@).len() > 0,
                    forall|j: int|
                        0 <= j < i ==> lowercase(trim(#[trigger] split(t@, ',')[j])) != lowercase(
                            "upgrade"@,
                        ),
                decreases parts@.len() - i,
            {
                proof {
                    assert(pieces(parts@)[i as int] == parts@[i as int]@);
                }
                if same_ignoring_case(trimmed(&parts[i]), &word) {
                    return true;
                }
                i += 1;
            }
            proof {
                assert(pieces(parts@).len() == parts@.len());
            }
            false
        },
    }
}

// ---- who asked -------------------------------------------------------------

/// The host that a request is for: the text of its first `Host` header, or an
/// empty one.
pub open spec fn host_asked_for(h: Headers) -> Seq<char> {
    match h.first_text(HOST@) {
        Some(t) => t,
        None => ""@,
    }
}

pub fn host_of(headers: &Headers) -> (r: String)
    ensures
        r@ == host_asked_for(*headers),
{
    proof {
        lemma_own_names_are_small();
    }
    match headers.get_text(HOST) {
        Some(t) => string_of(&t),
        None => String::from_str(""),
    }
}

/// What the headers give each name once the lines with a name are replaced by
/// one with the given text, if that can be sent.
pub open spec fn with_text(
    values: spec_fn(Seq<char>) -> Seq<Seq<u8>>,
    name: Seq<char>,
    text: Seq<char>,
) -> spec_fn(Seq<char>) -> Seq<Seq<u8>> {
    |n: Seq<char>|
        if n == name && is_value(text) {
            seq![encode_utf8(text)]
        } else {
            values(n)
        }
}

/// The same, unless there already is a line with the name.
pub open spec fn with_default_text(
    values: spec_fn(Seq<char>) -> Seq<Seq<u8>>,
    name: Seq<char>,
    text: Seq<char>,
) -> spec_fn(Seq<char>) -> Seq<Seq<u8>> {
    if values(name).len() > 0 {
        values
    } else {
        with_text(values, name, text)
    }
}

/// The peer's word on who is behind it counts: no networks are given, or the
/// peer lies in one of them.
pub open spec fn trusts(trusted: Seq<IpNet>, peer: IpAddr) -> bool {
    trusted.len() == 0 || exists|i: int| 0 <= i < trusted.len() && (#[trigger] trusted[i]).has(peer)
}

/// The chain of addresses that a request is passed on with: the peer behind the
/// chain it came with, or the peer alone where its word does not count.
pub open spec fn chain_text(chain: Option<Seq<char>>, peer: IpAddr, trusted: Seq<IpNet>) -> Seq<
    char,
> {
    if trusts(trusted, peer) && chain is Some {
        chain->0 + ", "@ + peer.text()
    } else {
        peer.text()
    }
}

/// The text of the first of some values.
pub open spec fn head_text(values: Seq<Seq<u8>>) -> Option<Seq<char>> {
    if values.len() == 0 {
        None
    } else {
        value_text(values[0])
    }
}

fn trusts_peer(trusted: &Vec<IpNet>, peer: IpAddr) -> (r: bool)
    requires
        forall|i: int| 0 <= i < trusted@.len() ==> (#[trigger] trusted@[i]).wf(),
    ensures
        r == trusts(trusted@, peer),
{
    if trusted.len() == 0 {
        return true;
    }
    let mut i: usize = 0;
    while i < trusted.len()
        invariant
            i <= trusted@.len(),
            trusted@.len() > 0,
            forall|j: int| 0 <= j < trusted@.len() ==> (#[trigger] trusted@[j]).wf(),
            forall|j: int| 0 <= j < i ==> !(#[trigger] trusted@[j]).has(peer),
        decreases trusted@.len() - i,
    {
        if trusted[i].contains(peer) {
            return true;
        }
        i += 1;
    }
    false
}

impl Headers {
    /// What the headers give each name.
    pub open spec fn table(self) -> spec_fn(Seq<char>) -> Seq<Seq<u8>> {
        |n: Seq<char>| self.values(n)
    }

    fn set_text(&mut self, name: &str, text: &str)
        requires
            lowercase(name@) == name@,
        ensures
            old(self).wf() ==> final(self).wf(),
            final(self).table() == with_text(old(self).table(), name@, text@),
    {
        if let Some(v) = value_of_text(text) {
            self.insert(name, v);
        }
        proof {
            assert(self.table() =~= with_text(old(self).table(), name@, text@)) by {
                assert forall|n: Seq<char>| #[trigger] self.table()(n) == with_text(
                    old(self).table(),
                    name@,
                    text@,
                )(n) by {
                    assert(self.table()(n) == self.values(n));
                }
            }
        }
    }
}

/// Put the peer's address behind the chain in `X-Forwarded-For`, or start the
/// chain anew where the peer's word does not count.
pub fn rewrite_forwarded_for(headers: &mut Headers, peer_ip: IpAddr, trusted: &Vec<IpNet>)
    requires
        forall|i: int| 0 <= i < trusted@.len() ==> (#[trigger] trusted@[i]).wf(),
    ensures
        old(headers).wf() ==> final(headers).wf(),
        final(headers).table() == with_text(
            old(headers).table(),
            X_FORWARDED_FOR@,
            chain_text(old(headers).first_text(X_FORWARDED_FOR@), peer_ip, trusted@),
        ),
{
    proof {
        lemma_own_names_are_small();
    }
    let peer = peer_ip.show();
    if trusts_peer(trusted, peer_ip) {
        if let Some(chain) = headers.get_text(X_FORWARDED_FOR) {
            let mut text = string_of(&chain);
            text.append(", ");
            text.append(peer.as_str());
            headers.set_text(X_FORWARDED_FOR, text.as_str());
            return;
        }
    }
    headers.set_text(X_FORWARDED_FOR, peer.as_str());
}

/// What the headers give each name once the origin of a request is entered.
pub open spec fn with_origin(
    values: spec_fn(Seq<char>) -> Seq<Seq<u8>>,
    peer: Option<IpAddr>,
    host: Seq<char>,
    config: RouterConfig,
) -> spec_fn(Seq<char>) -> Seq<Seq<u8>> {
    let chained = match peer {
        Some(ip) => with_text(
            values,
            X_FORWARDED_FOR@,
            chain_text(head_text(values(X_FORWARDED_FOR@)), ip, config.trusted_proxies@),
        ),
        None => values,
    };
    let schemed = with_default_text(chained, X_FORWARDED_PROTO@, config.forwarded_proto@);
    with_default_text(schemed, X_FORWARDED_HOST@, host)
}

/// Enter into a request where it comes from: the peer's address in
/// `X-Forwarded-For`, and scheme and host where the request does not name them
/// itself.
pub fn inject_forwarded_headers(
    headers: &mut Headers,
    peer_ip: Option<IpAddr>,
    original_host: &str,
    config: &RouterConfig,
)
    requires
        config.wf(),
    ensures
        old(headers).wf() ==> final(headers).wf(),
        final(headers).table() == with_origin(
            old(headers).table(),
            peer_ip,
            original_host@,
            *config,
        ),
{
    proof {
        lemma_own_names_are_small();
    }
    let ghost start = headers.table();
    if let Some(ip) = peer_ip {
        rewrite_forwarded_for(headers, ip, &config.trusted_proxies);
    }
    let ghost chained = headers.table();
    proof {
        assert(start(X_FORWARDED_FOR@) == old(headers).values(X_FORWARDED_FOR@));
        assert(chained(X_FORWARDED_PROTO@) == headers.values(X_FORWARDED_PROTO@));
    }
    if !headers.contains_key(X_FORWARDED_PROTO) {
        headers.set_text(X_FORWARDED_PROTO, config.forwarded_proto.as_str());
    }
    let ghost schemed = headers.table();
    proof {
        assert(schemed(X_FORWARDED_HOST@) == headers.values(X_FORWARDED_HOST@));
    }
    if !headers.contains_key(X_FORWARDED_HOST) {
        headers.set_text(X_FORWARDED_HOST, original_host);
    }
}

proof fn lemma_forwarded_names_differ()
    ensures
        X_FORWARDED_FOR@ != X_FORWARDED_PROTO@,
        X_FORWARDED_FOR@ != X_FORWARDED_HOST@,
        X_FORWARDED_PROTO@ != X_FORWARDED_HOST@,
{
    reveal_strlit("x-forwarded-for");
    reveal_strlit("x-forwarded-proto");
    reveal_strlit("x-forwarded-host");
    assert(X_FORWARDED_FOR@.len() == 15);
    assert(X_FORWARDED_PROTO@.len() == 17);
    assert(X_FORWARDED_HOST@.len() == 16);
}

/// Entering the origin touches no other headers, keeps a scheme and a host that
/// the request came with, and leaves nothing of the chain of a peer whose word
/// does not count.
pub proof fn lemma_origin(
    values: spec_fn(Seq<char>) -> Seq<Seq<u8>>,
    peer: IpAddr,
    host: Seq<char>,
    config: RouterConfig,
    name: Seq<char>,
)
    ensures
        name != X_FORWARDED_FOR@ && name != X_FORWARDED_PROTO@ && name != X_FORWARDED_HOST@
            ==> with_origin(values, Some(peer), host, config)(name) == values(name),
        values(X_FORWARDED_PROTO@).len() > 0 ==> with_origin(values, Some(peer), host, config)(
            X_FORWARDED_PROTO@,
        ) == values(X_FORWARDED_PROTO@),
        values(X_FORWARDED_HOST@).len() > 0 ==> with_origin(values, Some(peer), host, config)(
            X_FORWARDED_HOST@,
        ) == values(X_FORWARDED_HOST@),
        !trusts(config.trusted_proxies@, peer) && is_value(peer.text()) ==> with_origin(
            values,
            Some(peer),
            host,
            config,
        )(X_FORWARDED_FOR@) == seq![encode_utf8(peer.text())],
{
    lemma_forwarded_names_differ();
}

// ---- headers that belong to one connection ---------------------------------

/// A header that concerns a single connection and is not passed on.
pub open spec fn is_hop_by_hop(name: Seq<char>) -> bool {
    hop_by_hop_names().contains(name)
}

pub open spec fn hop_by_hop_names() -> Seq<Seq<char>> {
    seq![
        "connection"@,
        "keep-alive"@,
        "proxy-authenticate"@,
        "proxy-authorization"@,
        "te"@,
        "trailer"@,
        "transfer-encoding"@,
        "upgrade"@,
    ]
}

/// The header names that a `Connection` value lists.
pub open spec fn names_listed(value: Seq<u8>) -> Seq<Seq<char>> {
    match value_text(value) {
        Some(t) => split(t, ',').map_values(|p: Seq<char>| lowercase(trim(p))),
        None => seq![],
    }
}

/// The header names that some `Connection` values list.
pub open spec fn all_names_listed(values: Seq<Seq<u8>>) -> Seq<Seq<char>>
    decreases values.len(),
{
    if values.len() == 0 {
        seq![]
    } else {
        all_names_listed(values.drop_last()) + names_listed(values.last())
    }
}

/// What the headers give each name once those are dropped that concern a single
/// connection, and those that `Connection` lists.
pub open spec fn stripped(values: spec_fn(Seq<char>) -> Seq<Seq<u8>>) -> spec_fn(Seq<char>) -> Seq<
    Seq<u8>,
> {
    |n: Seq<char>|
        if is_hop_by_hop(n) || all_names_listed(values(CONNECTION@)).contains(n) {
            seq![]
        } else {
            values(n)
        }
}

fn list_names(value: &Vec<u8>, out: &mut Vec<String>)
    ensures
        texts(final(out)@) == texts(old(out)@) + names_listed(value@),
{
    match text_of_value(value) {
        None => {
            proof {
                assert(texts(out@) =~= texts(old(out)@) + names_listed(value@));
            }
        },
        Some(t) => {
            let parts = split_on(&t, ',');
            let ghost words = split(t@, ',').map_values(|p: Seq<char>| lowercase(trim(p)));
            let mut i: usize = 0;
            proof {
                assert(texts(out@) =~= texts(old(out)@) + words.take(0));
            }
            while i < parts.len()
                invariant
                    i <= parts@.len(),
                    pieces(parts@) == split(t@, ','),
                    words == split(t@, ',').map_values(|p: Seq<char>| lowercase(trim(p))),
                    texts(out@) == texts(old(out)@) + words.take(i as int),
                decreases parts@.len() - i,
            {
                let ghost before = out@;
                let word = lowercased(trimmed(&parts[i]));
                let name = string_of(&word);
                out.push(name);
                proof {
                    assert(pieces(parts@)[i as int] == parts@[i as int]@);
                    assert(words[i as int] == name@);
                    assert(texts(out@) =~= texts(before).push(name@));
                    assert(texts(out@) =~= texts(old(out)@) + words.take(i + 1));
                }
                i += 1;
            }
            proof {
                assert(pieces(parts@).len() == parts@.len());
                assert(words.take(i as int) =~= words);
            }
        },
    }
}

/// Drop the headers that concern a single connection, and those that
/// `Connection` lists.
pub fn strip_hop_by_hop_headers(headers: &mut Headers)
    ensures
        old(headers).wf() ==> final(headers).wf(),
        final(headers).table() == stripped(old(headers).table()),
{
    let mut extras: Vec<String> = Vec::new();
    let mut i: usize = 0;
    proof {
        assert(texts(extras@) =~= all_names_listed(values_in(headers.entries@.take(0), CONNECTION@)));
    }
    while i < headers.entries.len()
        invariant
            i <= headers.entries@.len(),
            *headers == *old(headers),
            texts(extras@) == all_names_listed(
                values_in(headers.entries@.take(i as int), CONNECTION@),
            ),
        decreases headers.entries@.len() - i,
    {
        let ghost entries = headers.entries@;
        proof {
            assert(entries.take(i + 1).drop_last() =~= entries.take(i as int));
            assert(entries.take(i + 1).last() == entries[i as int]);
        }
        if same_str(headers.entries[i].0.as_str(), CONNECTION) {
            let ghost front = values_in(entries.take(i as int), CONNECTION@);
            list_names(&headers.entries[i].1, &mut extras);
            proof {
                assert(front.push(entries[i as int].1@).drop_last() =~= front);
            }
        }
        i += 1;
    }
    proof {
        assert(headers.entries@.take(i as int) =~= headers.entries@);
    }
    let mut fixed: Vec<String> = Vec::new();
    fixed.push(String::from_str("connection"));
    fixed.push(String::from_str("keep-alive"));
    fixed.push(String::from_str("proxy-authenticate"));
    fixed.push(String::from_str("proxy-authorization"));
    fixed.push(String::from_str("te"));
    fixed.push(String::from_str("trailer"));
    fixed.push(String::from_str("transfer-encoding"));
    fixed.push(String::from_str("upgrade"));
    proof {
        assert(texts(fixed@) =~= hop_by_hop_names());
    }
    headers.remove_all(&fixed);
    let ghost between = *headers;
    headers.remove_all(&extras);
    proof {
        let want = stripped(old(headers).table());
        assert(headers.table() =~= want) by {
            assert forall|n: Seq<char>| #[trigger] headers.table()(n) == want(n) by {
                assert(headers.table()(n) == headers.values(n));
                assert(between.values(n) == (if hop_by_hop_names().contains(n) {
                    seq![]
                } else {
                    old(headers).values(n)
                }));
            }
        }
    }
}

/// After stripping, no header of a single connection is left, a second time
/// changes nothing, and a header that is not one of those and that `Connection`
/// does not list is as it was.
pub proof fn lemma_strip(values: spec_fn(Seq<char>) -> Seq<Seq<u8>>, name: Seq<char>)
    ensures
        stripped(values)(CONNECTION@).len() == 0,
        stripped(values)(UPGRADE@).len() == 0,
        stripped(stripped(values)) == stripped(values),
        !is_hop_by_hop(name) && !all_names_listed(values(CONNECTION@)).contains(name) ==> stripped(
            values,
        )(name) == values(name),
        all_names_listed(values(CONNECTION@)).contains(name) ==> stripped(values)(name).len() == 0,
{
    assert(hop_by_hop_names()[0] == CONNECTION@);
    assert(hop_by_hop_names()[7] == UPGRADE@);
    assert(is_hop_by_hop(CONNECTION@));
    assert(is_hop_by_hop(UPGRADE@));
    assert(all_names_listed(stripped(values)(CONNECTION@)) =~= seq![]);
    assert(stripped(stripped(values)) =~= stripped(values));
}

// ---- what the headers say, in full -----------------------------------------

/// The values under a name are those of the lines with that name, one for each,
/// in the order of the lines.
pub proof fn lemma_values_of_lines(entries: Seq<(String, Vec<u8>)>, name: Seq<char>)
    ensures
        entries.len() == 0 ==> values_in(entries, name).len() == 0,
        forall|e: (String, Vec<u8>)|
            #![trigger values_in(entries.push(e), name)]
            values_in(entries.push(e), name) == if e.0@ == name {
                values_in(entries, name).push(e.1@)
            } else {
                values_in(entries, name)
            },
{
    assert forall|e: (String, Vec<u8>)|
        #![trigger values_in(entries.push(e), name)]
        values_in(entries.push(e), name) == if e.0@ == name {
            values_in(entries, name).push(e.1@)
        } else {
            values_in(entries, name)
        } by {
        assert(entries.push(e).drop_last() =~= entries);
    }
}

/// A value shows as text exactly if each of its bytes is a tab or lies between
/// the blank and the tilde, and the text then has one character for each byte,
/// with the same number.
pub proof fn lemma_value_text(v: Seq<u8>)
    ensures
        value_text(v) is Some <==> forall|i: int|
            0 <= i < v.len() ==> #[trigger] v[i] == 9 || 32 <= v[i] <= 126,
        value_text(v) matches Some(t) ==> t.len() == v.len() && forall|i: int|
            0 <= i < v.len() ==> #[trigger] t[i] as int == v[i],
{
    if value_text(v) is Some {
        let t = value_text(v)->0;
        assert forall|i: int| 0 <= i < v.len() implies #[trigger] t[i] as int == v[i] by {
            assert(is_visible(v[i]));
        }
    } else {
        let i = choose|i: int| 0 <= i < v.len() && !is_visible(#[trigger] v[i]);
        assert(!(v[i] == 9 || 32 <= v[i] <= 126));
    }
    if forall|i: int| 0 <= i < v.len() ==> #[trigger] v[i] == 9 || 32 <= v[i] <= 126 {
        assert forall|i: int| 0 <= i < v.len() implies is_visible(#[trigger] v[i]) by {}
    }
}

/// A text can be sent exactly if its bytes hold no control character but the
/// tab.
pub proof fn lemma_can_be_sent(s: Seq<char>)
    ensures
        is_value(s) <==> forall|i: int|
            0 <= i < encode_utf8(s).len() ==> #[trigger] encode_utf8(s)[i] == 9 || (encode_utf8(
                s,
            )[i] >= 32 && encode_utf8(s)[i] != 127),
{
    if is_value(s) {
        assert forall|i: int| 0 <= i < encode_utf8(s).len() implies #[trigger] encode_utf8(s)[i]
            == 9 || (encode_utf8(s)[i] >= 32 && encode_utf8(s)[i] != 127) by {
            assert(is_value_byte(encode_utf8(s)[i]));
        }
    } else {
        let i = choose|i: int|
            0 <= i < encode_utf8(s).len() && !is_value_byte(#[trigger] encode_utf8(s)[i]);
        assert(encode_utf8(s)[i] != 9);
    }
}

/// What is written as plain text is read back as it was.
pub proof fn lemma_plain_text_reads_back(s: Seq<char>)
    requires
        forall|i: int| 0 <= i < s.len() ==> #[trigger] s[i] == '\t' || ' ' <= s[i] <= '~',
    ensures
        is_value(s),
        value_text(encode_utf8(s)) == Some(s),
{
    let v = encode_utf8(s);
    assert(vstd::utf8::is_ascii_chars(s)) by {
        assert forall|i: int| 0 <= i < s.len() implies '\0' <= #[trigger] s[i] <= '\u{7f}' by {}
    }
    vstd::utf8::is_ascii_chars_encode_utf8(s);
    assert forall|i: int| 0 <= i < v.len() implies is_visible(#[trigger] v[i]) && v[i] as int
        == s[i] as int by {
        assert(s[i] as u8 == v[i]);
    }
    assert forall|i: int| 0 <= i < v.len() implies is_value_byte(#[trigger] encode_utf8(s)[i]) by {
        assert(is_visible(v[i]));
    }
    assert(value_text(v) is Some);
    assert(value_text(v)->0 =~= s);
}

/// The digits and dots of an address are plain text without commas.
proof fn lemma_address_is_plain(ip: u32)
    ensures
        forall|i: int|
            0 <= i < ipv4_text(ip).len() ==> ' ' <= #[trigger] ipv4_text(ip)[i] <= '~' && ipv4_text(
                ip,
            )[i] != ',',
{
    lemma_address_of_digits(ip);
}

/// Setting a header leaves one line with its name, with the bytes of the text;
/// all other names keep their values. A text that cannot be sent changes
/// nothing. As a default the text is set only where the name has no value.
pub proof fn lemma_set_header(
    values: spec_fn(Seq<char>) -> Seq<Seq<u8>>,
    name: Seq<char>,
    text: Seq<char>,
    other: Seq<char>,
)
    requires
        other != name,
    ensures
        is_value(text) ==> with_text(values, name, text)(name) == seq![encode_utf8(text)],
        !is_value(text) ==> with_text(values, name, text)(name) == values(name),
        with_text(values, name, text)(other) == values(other),
        values(name).len() > 0 ==> with_default_text(values, name, text)(name) == values(name),
        values(name).len() == 0 && is_value(text) ==> with_default_text(values, name, text)(name)
            == seq![encode_utf8(text)],
        values(name).len() == 0 && !is_value(text) ==> with_default_text(values, name, text)(
            name,
        ).len() == 0,
        with_default_text(values, name, text)(other) == values(other),
{
}

/// A peer's word counts where no networks are given, and where the peer's
/// address lies in one of those that are, and nowhere else. The order of the
/// networks does not matter.
pub proof fn lemma_trust(trusted: Seq<IpNet>, more: Seq<IpNet>, net: IpNet, peer: IpAddr)
    ensures
        trusts(seq![], peer),
        trusts(seq![net], peer) <==> net.has(peer),
        trusted.len() > 0 && more.len() > 0 ==> (trusts(trusted + more, peer) <==> trusts(
            trusted,
            peer,
        ) || trusts(more, peer)),
{
    if trusts(seq![net], peer) {
        let i = choose|i: int| 0 <= i < seq![net].len() && (#[trigger] seq![net][i]).has(peer);
        assert(seq![net][i] == net);
    }
    if net.has(peer) {
        assert(seq![net][0].has(peer));
    }
    if trusted.len() > 0 && more.len() > 0 {
        let both = trusted + more;
        if trusts(both, peer) {
            let i = choose|i: int| 0 <= i < both.len() && (#[trigger] both[i]).has(peer);
            if i < trusted.len() {
                assert(trusted[i].has(peer));
            } else {
                assert(more[i - trusted.len()].has(peer));
            }
        }
        if trusts(trusted, peer) {
            let i = choose|i: int| 0 <= i < trusted.len() && (#[trigger] trusted[i]).has(peer);
            assert(both[i].has(peer));
        }
        if trusts(more, peer) {
            let i = choose|i: int| 0 <= i < more.len() && (#[trigger] more[i]).has(peer);
            assert(both[i + trusted.len()].has(peer));
        }
    }
}

/// Nothing of a chain is lost: where the peer's word counts, the chain that is
/// passed on begins with the whole chain that came, then a comma, a blank and
/// the peer's address; its addresses are all that came, in order, and one more.
/// Where the peer's word does not count, or no chain came, it is the peer's
/// address alone.
pub proof fn lemma_chain_grows(chain: Seq<char>, peer: IpAddr, trusted: Seq<IpNet>)
    ensures
        (trusted.len() == 0 || exists|i: int|
            0 <= i < trusted.len() && (#[trigger] trusted[i]).has(peer)) ==> {
            let passed = chain_text(Some(chain), peer, trusted);
            &&& passed == chain + seq![',', ' '] + peer.text()
            &&& split(passed, ',') == split(chain, ',') + split(seq![' '] + peer.text(), ',')
            &&& peer matches IpAddr::V4(ip) ==> split(passed, ',') == split(chain, ',').push(
                seq![' '] + ipv4_text(ip),
            )
        },
        trusted.len() > 0 && (forall|i: int|
            0 <= i < trusted.len() ==> !(#[trigger] trusted[i]).has(peer)) ==> chain_text(
            Some(chain),
            peer,
            trusted,
        ) == peer.text(),
        chain_text(None, peer, trusted) == peer.text(),
{
    reveal_strlit(", ");
    assert(", "@ =~= seq![',', ' ']);
    let last = seq![' '] + peer.text();
    assert(chain + seq![',', ' '] + peer.text() =~= chain + seq![','] + last);
    lemma_split_of_two(chain, last, ',');
    if let IpAddr::V4(ip) = peer {
        lemma_address_is_plain(ip);
        lemma_split_of_one(last, ',');
        assert(split(chain, ',') + seq![last] =~= split(chain, ',').push(last));
    }
}

/// A request that comes through a chain of proxies that are trusted is passed on
/// with all of them: what an app reads in `X-Forwarded-For` is what the request
/// came with, followed by the peer's address. A request from elsewhere, or
/// without a chain, is passed on with the peer's address alone.
pub proof fn lemma_app_reads_whole_chain(
    values: spec_fn(Seq<char>) -> Seq<Seq<u8>>,
    ip: u32,
    host: Seq<char>,
    config: RouterConfig,
)
    ensures
        ({
            let came = values("x-forwarded-for"@);
            let passed = with_origin(values, Some(IpAddr::V4(ip)), host, config)(
                "x-forwarded-for"@,
            );
            let believed = config.trusted_proxies@.len() == 0 || exists|i: int|
                0 <= i < config.trusted_proxies@.len() && (#[trigger] config.trusted_proxies@[i]).has(
                    IpAddr::V4(ip),
                );
            &&& passed.len() == 1
            &&& value_text(passed[0]) == Some(
                if believed && came.len() > 0 && value_text(came[0]) is Some {
                    value_text(came[0])->0 + seq![',', ' '] + ipv4_text(ip)
                } else {
                    ipv4_text(ip)
                },
            )
        }),
{
    lemma_forwarded_names_differ();
    let came = values("x-forwarded-for"@);
    let peer = IpAddr::V4(ip);
    let chain = head_text(came);
    let text = chain_text(chain, peer, config.trusted_proxies@);
    lemma_address_is_plain(ip);
    if came.len() > 0 {
        lemma_value_text(came[0]);
    }
    if chain is Some {
        lemma_chain_grows(chain->0, peer, config.trusted_proxies@);
    }
    assert forall|i: int| 0 <= i < text.len() implies #[trigger] text[i] == '\t' || ' ' <= text[i]
        <= '~' by {
        if chain is Some && text.len() > ipv4_text(ip).len() {
            let c = chain->0;
            if i < c.len() {
                assert(text[i] == c[i]);
                assert(c[i] as int == came[0][i]);
            } else if i >= c.len() + 2 {
                assert(text[i] == ipv4_text(ip)[i - c.len() - 2]);
            }
        } else {
            assert(text =~= ipv4_text(ip) || chain is Some);
            assert(text[i] == ipv4_text(ip)[i]);
        }
    }
    lemma_plain_text_reads_back(text);
}

/// A request is passed on with the scheme and the host that it names itself, and
/// else with the configured scheme and the host it was sent to.
pub proof fn lemma_scheme_and_host(
    values: spec_fn(Seq<char>) -> Seq<Seq<u8>>,
    peer: Option<IpAddr>,
    host: Seq<char>,
    config: RouterConfig,
    other: Seq<char>,
)
    requires
        other != "x-forwarded-for"@,
        other != "x-forwarded-proto"@,
        other != "x-forwarded-host"@,
    ensures
        ({
            let passed = with_origin(values, peer, host, config);
            &&& values("x-forwarded-proto"@).len() > 0 ==> passed("x-forwarded-proto"@) == values(
                "x-forwarded-proto"@,
            )
            &&& values("x-forwarded-proto"@).len() == 0 && is_value(config.forwarded_proto@)
                ==> passed("x-forwarded-proto"@) == seq![encode_utf8(config.forwarded_proto@)]
            &&& values("x-forwarded-host"@).len() > 0 ==> passed("x-forwarded-host"@) == values(
                "x-forwarded-host"@,
            )
            &&& values("x-forwarded-host"@).len() == 0 && is_value(host) ==> passed(
                "x-forwarded-host"@,
            ) == seq![encode_utf8(host)]
            &&& peer is None ==> passed("x-forwarded-for"@) == values("x-forwarded-for"@)
            &&& passed(other) == values(other)
        }),
{
    lemma_forwarded_names_differ();
}

/// The host that a request is for is what its first `Host` line says, and empty
/// where there is none or it does not show as text.
pub proof fn lemma_host_asked_for(h: Headers)
    ensures
        h.values("host"@).len() > 0 && value_text(h.values("host"@)[0]) is Some ==> Some(
            host_asked_for(h),
        ) == value_text(h.values("host"@)[0]),
        h.values("host"@).len() == 0 || value_text(h.values("host"@)[0]) is None ==> host_asked_for(
            h,
        ).len() == 0,
{
    reveal_strlit("");
}

/// A request asks for an upgrade exactly if it has an `Upgrade` line, and if one
/// of the words that its first `Connection` line separates by commas is, without
/// the blanks around it and whatever the case of its letters, `upgrade`.
pub proof fn lemma_upgrade_requested(h: Headers)
    ensures
        upgrade_requested(h) <==> {
            &&& h.values("upgrade"@).len() > 0
            &&& h.values("connection"@).len() > 0
            &&& value_text(h.values("connection"@)[0]) matches Some(t) && exists|i: int|
                0 <= i < split(t, ',').len() && lowercase(trim(#[trigger] split(t, ',')[i]))
                    == "upgrade"@
        },
{
    lemma_own_names_are_small();
    assert(lowercase("upgrade"@) == "upgrade"@);
}

/// Eight headers concern a single connection.
pub proof fn lemma_hop_by_hop(name: Seq<char>)
    ensures
        is_hop_by_hop(name) <==> name == "connection"@ || name == "keep-alive"@ || name
            == "proxy-authenticate"@ || name == "proxy-authorization"@ || name == "te"@ || name
            == "trailer"@ || name == "transfer-encoding"@ || name == "upgrade"@,
{
    let all = hop_by_hop_names();
    assert(all.len() == 8);
    assert(all[0] == "connection"@);
    assert(all[1] == "keep-alive"@);
    assert(all[2] == "proxy-authenticate"@);
    assert(all[3] == "proxy-authorization"@);
    assert(all[4] == "te"@);
    assert(all[5] == "trailer"@);
    assert(all[6] == "transfer-encoding"@);
    assert(all[7] == "upgrade"@);
}

/// A `Connection` line lists a name if one of the words that it separates by
/// commas is that name, without the blanks around it and in small letters.
pub proof fn lemma_names_listed(values: Seq<Seq<u8>>, name: Seq<char>)
    ensures
        all_names_listed(values).contains(name) <==> exists|i: int, j: int|
            #![trigger split(value_text(values[i])->0, ',')[j]]
            0 <= i < values.len() && value_text(values[i]) is Some && 0 <= j < split(
                value_text(values[i])->0,
                ',',
            ).len() && lowercase(trim(split(value_text(values[i])->0, ',')[j])) == name,
    decreases values.len(),
{
    if values.len() > 0 {
        let front = values.drop_last();
        let last = values.last();
        lemma_names_listed(front, name);
        let a = all_names_listed(front);
        let b = names_listed(last);
        if all_names_listed(values).contains(name) {
            let k = choose|k: int| 0 <= k < (a + b).len() && (a + b)[k] == name;
            if k < a.len() {
                assert(a[k] == name);
                let (i, j) = choose|i: int, j: int|
                    #![trigger split(value_text(front[i])->0, ',')[j]]
                    0 <= i < front.len() && value_text(front[i]) is Some && 0 <= j < split(
                        value_text(front[i])->0,
                        ',',
                    ).len() && lowercase(trim(split(value_text(front[i])->0, ',')[j])) == name;
                assert(values[i] == front[i]);
                assert(lowercase(trim(split(value_text(values[i])->0, ',')[j])) == name);
            } else {
                let j = k - a.len();
                assert(b[j] == name);
                assert(values[values.len() - 1] == last);
                assert(lowercase(trim(split(value_text(values[values.len() - 1])->0, ',')[j]))
                    == name);
            }
        }
        if exists|i: int, j: int|
            #![trigger split(value_text(values[i])->0, ',')[j]]
            0 <= i < values.len() && value_text(values[i]) is Some && 0 <= j < split(
                value_text(values[i])->0,
                ',',
            ).len() && lowercase(trim(split(value_text(values[i])->0, ',')[j])) == name {
            let (i, j) = choose|i: int, j: int|
                #![trigger split(value_text(values[i])->0, ',')[j]]
                0 <= i < values.len() && value_text(values[i]) is Some && 0 <= j < split(
                    value_text(values[i])->0,
                    ',',
                ).len() && lowercase(trim(split(value_text(values[i])->0, ',')[j])) == name;
            if i < front.len() {
                assert(front[i] == values[i]);
                assert(lowercase(trim(split(value_text(front[i])->0, ',')[j])) == name);
                let k = choose|k: int| 0 <= k < a.len() && a[k] == name;
                assert((a + b)[k] == name);
            } else {
                assert(values[i] == last);
                assert(b[j] == name);
                assert((a + b)[a.len() + j] == name);
            }
        }
    }
}

/// Of what a request or response carries, exactly the headers that concern a
/// single connection and those that `Connection` lists are dropped.
pub proof fn lemma_stripped(values: spec_fn(Seq<char>) -> Seq<Seq<u8>>, name: Seq<char>)
    ensures
        is_hop_by_hop(name) || all_names_listed(values("connection"@)).contains(name) ==> stripped(
            values,
        )(name).len() == 0,
        !is_hop_by_hop(name) && !all_names_listed(values("connection"@)).contains(name) ==> stripped(
            values,
        )(name) == values(name),
{
}

/// The text under a name is that of its first line, and there is none where no
/// line has the name or the first one does not show as text.
pub proof fn lemma_first_text(h: Headers, name: Seq<char>)
    ensures
        h.values(name) == values_in(h.lines(), name),
        h.table()(name) == h.values(name),
        h.values(name).len() == 0 ==> h.first_text(name) is None,
        h.values(name).len() > 0 ==> h.first_text(name) == value_text(h.values(name)[0]),
        head_text(h.values(name)) == h.first_text(name),
{
}

/// The names of the headers that the router reads and writes.
pub proof fn lemma_header_names()
    ensures
        X_FORWARDED_FOR@ == "x-forwarded-for"@,
        X_FORWARDED_PROTO@ == "x-forwarded-proto"@,
        X_FORWARDED_HOST@ == "x-forwarded-host"@,
        CONNECTION@ == "connection"@,
        UPGRADE@ == "upgrade"@,
        HOST@ == "host"@,
{
}

} // verus!

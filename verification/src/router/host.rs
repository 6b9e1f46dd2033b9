//! From the `Host` header to the app.

use vstd::prelude::*;
use vstd::string::StrSliceExecFns;

use crate::text::{chars_of, find, find_char};

verus! {

/// The first label of a host name, without the port; none for an IPv6 literal.
pub open spec fn first_label(host: Seq<char>) -> Option<Seq<char>> {
    if host.len() > 0 && host[0] == '[' {
        None
    } else {
        let name = host.take(find(host, ':'));
        Some(name.take(find(name, '.')))
    }
}

/// The first label of a host name, without the port. A literal IPv6 address
/// never names an app.
pub fn subdomain_of(host: &str) -> (r: Option<&str>)
    ensures
        match r {
            Some(s) => first_label(host@) == Some(s@),
            None => first_label(host@) is None,
        },
{
    let v = chars_of(host);
    if v.len() > 0 && v[0] == '[' {
        return None;
    }
    let port: usize = find_char(&v, ':');
    let name = host.substring_char(0, port);
    let n = chars_of(name);
    let dot: usize = find_char(&n, '.');
    let label = name.substring_char(0, dot);
    proof {
        assert(name@ =~= host@.take(find(host@, ':')));
        assert(label@ =~= name@.take(find(name@, '.')));
    }
    Some(label)
}

/// The label is free of dots and colons.
pub proof fn lemma_label_is_plain(host: Seq<char>)
    requires
        first_label(host) is Some,
    ensures
        !(first_label(host)->0).contains('.'),
        !(first_label(host)->0).contains(':'),
{
    crate::text::lemma_find(host, ':');
    let name = host.take(find(host, ':'));
    crate::text::lemma_find(name, '.');
}

/// A port in the `Host` header does not change which app a request is for.
pub proof fn lemma_port_is_ignored(host: Seq<char>, port: Seq<char>)
    ensures
        first_label(host.push(':') + port) == first_label(host),
{
    let full = host.push(':') + port;
    crate::text::lemma_find(host, ':');
    let end = find(host, ':');
    assert forall|j: int| 0 <= j < end implies full[j] != ':' by {
        assert(full[j] == host[j]);
    }
    assert(full[end] == ':');
    crate::text::lemma_find_is(full, ':', end);
    assert(full.take(end) =~= host.take(end));
    assert(full[0] == host.push(':')[0]);
}

/// The domain behind the first label does not change which app a request is for.
pub proof fn lemma_parent_is_ignored(host: Seq<char>, parent: Seq<char>)
    ensures
        first_label(host.push('.') + parent) == first_label(host),
{
    let full = host.push('.') + parent;
    crate::text::lemma_find(host, ':');
    crate::text::lemma_find(full, ':');
    let name = host.take(find(host, ':'));
    let full_name = full.take(find(full, ':'));
    assert(full[0] == host.push('.')[0]);
    if host.contains(':') {
        let end = find(host, ':');
        assert forall|j: int| 0 <= j < end implies full[j] != ':' by {
            assert(full[j] == host[j]);
        }
        assert(full[end] == host[end]);
        crate::text::lemma_find_is(full, ':', end);
        assert(full_name =~= name);
    } else {
        assert(name =~= host);
        assert(find(full, ':') > host.len()) by {
            if find(full, ':') < host.len() {
                assert(host[find(full, ':')] == full[find(full, ':')]);
                assert(host.contains(':'));
            }
            assert(full[host.len() as int] == '.');
        }
        crate::text::lemma_find(host, '.');
        let dot = find(host, '.');
        assert forall|j: int| 0 <= j < dot implies full_name[j] != '.' by {
            assert(full_name[j] == host[j]);
        }
        assert(full_name[dot] == '.');
        crate::text::lemma_find_is(full_name, '.', dot);
        assert(full_name.take(dot) =~= host.take(dot));
    }
}

/// What the first label of a host name is: none for a name that begins with a
/// bracket; else the part in front of the first dot or colon, or all of the name
/// where it has neither.
pub proof fn lemma_first_label(host: Seq<char>)
    ensures
        first_label(host) is None <==> host.len() > 0 && host[0] == '[',
        match first_label(host) {
            None => true,
            Some(l) => {
                &&& l.len() <= host.len()
                &&& host.take(l.len() as int) == l
                &&& forall|i: int| 0 <= i < l.len() ==> #[trigger] host[i] != '.' && host[i] != ':'
                &&& l.len() < host.len() ==> host[l.len() as int] == '.' || host[l.len() as int]
                    == ':'
            },
        },
{
    if first_label(host) is Some {
        crate::text::lemma_find(host, ':');
        let name = host.take(find(host, ':'));
        crate::text::lemma_find(name, '.');
        let l = first_label(host)->0;
        assert(host.take(l.len() as int) =~= l);
        assert forall|i: int| 0 <= i < l.len() implies #[trigger] host[i] != '.' && host[i]
            != ':' by {
            assert(name[i] == host[i]);
        }
        if l.len() < name.len() {
            assert(name[l.len() as int] == host[l.len() as int]);
        }
    }
}

/// A text without dots and colons that does not begin with a bracket is its own
/// first label, whatever domain and port follow it.
pub proof fn lemma_label_is_itself(s: Seq<char>, parent: Seq<char>, port: Seq<char>)
    requires
        forall|i: int| 0 <= i < s.len() ==> #[trigger] s[i] != '.' && s[i] != ':',
        s.len() > 0 ==> s[0] != '[',
    ensures
        first_label(s) == Some(s),
        first_label(s + seq!['.'] + parent) == Some(s),
        first_label(s + seq![':'] + port) == Some(s),
        first_label(s + seq!['.'] + parent + seq![':'] + port) == Some(s),
{
    crate::text::lemma_find_is(s, ':', s.len() as int);
    assert(s.take(s.len() as int) =~= s);
    crate::text::lemma_find_is(s, '.', s.len() as int);
    lemma_parent_is_ignored(s, parent);
    lemma_port_is_ignored(s, port);
    lemma_port_is_ignored(s + seq!['.'] + parent, port);
    assert(s.push('.') + parent =~= s + seq!['.'] + parent);
    assert(s.push(':') + port =~= s + seq![':'] + port);
    assert((s + seq!['.'] + parent).push(':') + port =~= s + seq!['.'] + parent + seq![':'] + port);
}

} // verus!

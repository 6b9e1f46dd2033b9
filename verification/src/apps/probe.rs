//! Telling whether an app is ready.
//!
//! Without a path, an app is ready once it accepts connections. With one, it is
//! ready once it answers a request for the path with a status in the two
//! hundreds.

use vstd::prelude::*;
use vstd::slice::slice_subrange;
use vstd::string::StringExecFns;
use vstd::utf8::{decode_utf8, valid_utf8};

use super::boot::{name_message, named_message};
use super::handle::AppHandle;
use crate::config::auth::{quote, quoted};
use crate::config::duration::{span_shown, Span};
use crate::config::spec::Readiness;
use crate::egress::addr::{IpAddr, SocketAddr};
use crate::number::{decimal, decimal_text, parse, parse_number};
use crate::text::{
    chars_of, has_prefix, pieces, split, split_on, starts_with, utf8_error, utf8_text,
};

verus! {

/// Milliseconds between two attempts.
pub const READINESS_POLL_MILLIS: u64 = 100;

/// Seconds to wait for an app whose spec says nothing.
pub const READINESS_TIMEOUT_DEFAULT_SECS: u64 = 10;

/// How many bytes of an answer are looked at.
pub const RESPONSE_HEAD_BYTES: usize = 256;

/// Where a line ends: at the first carriage return with a line feed behind it,
/// or at the end.
pub open spec fn line_end(s: Seq<char>) -> int
    decreases s.len(),
{
    if s.len() == 0 || (s.len() > 1 && s[0] == '\r' && s[1] == '\n') {
        0
    } else {
        1 + line_end(s.drop_first())
    }
}

fn find_line_end(s: &[char]) -> (r: usize)
    ensures
        r == line_end(s@),
        r <= s@.len(),
{
    let n: usize = s.len();
    let mut i: usize = 0;
    proof {
        assert(s@.skip(0) =~= s@);
    }
    while i < n && !(i < n - 1 && s[i] == '\r' && s[i + 1] == '\n')
        invariant
            n == s@.len(),
            i <= n,
            i + line_end(s@.skip(i as int)) == line_end(s@),
        decreases n - i,
    {
        proof {
            let t = s@.skip(i as int);
            assert(t[0] == s@[i as int]);
            if t.len() > 1 {
                assert(t[1] == s@[i + 1]);
            }
            assert(t.drop_first() =~= s@.skip(i + 1));
        }
        i = i + 1;
    }
    proof {
        let t = s@.skip(i as int);
        if i < n {
            assert(t[0] == s@[i as int]);
            assert(t[1] == s@[i + 1]);
        }
    }
    i
}

/// The status code of an answer whose first line begins with an HTTP version, a
/// space, and a number.
pub open spec fn status_code(head: Seq<char>) -> Option<nat> {
    let parts = split(head.take(line_end(head)), ' ');
    if starts_with(parts[0], "HTTP/"@) && parts.len() > 1 {
        parse(parts[1], 10, 65535)
    } else {
        None
    }
}

pub fn parse_http_status_code(head: &str) -> (r: Option<u16>)
    ensures
        match r {
            Some(n) => status_code(head@) == Some(n as nat),
            None => status_code(head@) is None,
        },
{
    let v = chars_of(head);
    let end: usize = find_line_end(&v);
    let line = slice_subrange(&v, 0, end);
    proof {
        assert(line@ =~= head@.take(line_end(head@)));
    }
    let parts = split_on(line, ' ');
    proof {
        assert(pieces(parts@)[0] == parts@[0]@);
    }
    if !has_prefix(&parts[0], &chars_of("HTTP/")) {
        return None;
    }
    if parts.len() < 2 {
        return None;
    }
    proof {
        assert(pieces(parts@)[1] == parts@[1]@);
    }
    match parse_number(&parts[1], 10, 65535) {
        Some(n) => Some(n as u16),
        None => None,
    }
}

/// The request that asks an app whether it is ready.
pub open spec fn probe_request(path: Seq<char>, addr: SocketAddr) -> Seq<char> {
    "GET "@ + path + " HTTP/1.1\r\nHost: "@ + addr.text()
        + "\r\nUser-Agent: bugpot-readiness\r\nConnection: close\r\nAccept: */*\r\n\r\n"@
}

pub fn render_probe_request(path: &str, addr: &SocketAddr) -> (r: String)
    ensures
        r@ == probe_request(path@, *addr),
{
    let mut r = String::from_str("GET ");
    r.append(path);
    r.append(" HTTP/1.1\r\nHost: ");
    r.append(addr.show().as_str());
    r.append("\r\nUser-Agent: bugpot-readiness\r\nConnection: close\r\nAccept: */*\r\n\r\n");
    r
}

/// Where the first line of some bytes ends: at the first carriage return with a
/// line feed behind it, or at the end.
pub open spec fn byte_line_end(b: Seq<u8>) -> int
    decreases b.len(),
{
    if b.len() == 0 || (b.len() > 1 && b[0] == 13 && b[1] == 10) {
        0
    } else {
        1 + byte_line_end(b.drop_first())
    }
}

/// The first line of an answer, without its end.
pub open spec fn status_line(head: Seq<u8>) -> Seq<u8> {
    head.take(byte_line_end(head))
}

fn find_byte_line_end(b: &[u8]) -> (r: usize)
    ensures
        r == byte_line_end(b@),
        r <= b@.len(),
{
    let n: usize = b.len();
    let mut i: usize = 0;
    proof {
        assert(b@.skip(0) =~= b@);
    }
    while i < n && !(i < n - 1 && b[i] == 13 && b[i + 1] == 10)
        invariant
            n == b@.len(),
            i <= n,
            i + byte_line_end(b@.skip(i as int)) == byte_line_end(b@),
        decreases n - i,
    {
        proof {
            let t = b@.skip(i as int);
            assert(t[0] == b@[i as int]);
            if t.len() > 1 {
                assert(t[1] == b@[i + 1]);
            }
            assert(t.drop_first() =~= b@.skip(i + 1));
        }
        i = i + 1;
    }
    proof {
        let t = b@.skip(i as int);
        if i < n {
            assert(t[0] == b@[i as int]);
            assert(t[1] == b@[i + 1]);
        }
    }
    i
}

/// What an answer shows as in a message: all of it, or its first line where the
/// rest is no text.
pub open spec fn answer_text(head: Seq<u8>) -> Seq<char> {
    if valid_utf8(head) {
        decode_utf8(head)
    } else {
        decode_utf8(status_line(head))
    }
}

/// What the beginning of an answer says: nothing if the app is ready, else why
/// it is not. Its first line decides.
pub open spec fn verdict(head: Seq<u8>, path: Seq<char>) -> Option<Seq<char>> {
    let line = status_line(head);
    if head.len() == 0 {
        Some("upstream closed before sending any bytes"@)
    } else if !valid_utf8(line) {
        Some("non-UTF-8 in HTTP status line: "@ + utf8_error(line))
    } else {
        match status_code(decode_utf8(line)) {
            None => Some("could not parse HTTP status from "@ + quoted(answer_text(head))),
            Some(n) => if 200 <= n && n < 300 {
                None
            } else {
                Some("upstream returned HTTP "@ + decimal(n) + " on "@ + path)
            },
        }
    }
}

/// Judge the beginning of an answer.
pub fn judge_response(head: &[u8], path: &str) -> (r: Result<(), String>)
    ensures
        match r {
            Ok(_) => verdict(head@, path@) is None,
            Err(e) => verdict(head@, path@) == Some(e@),
        },
{
    if head.len() == 0 {
        return Err(String::from_str("upstream closed before sending any bytes"));
    }
    let end: usize = find_byte_line_end(head);
    let line = slice_subrange(head, 0, end);
    proof {
        assert(line@ =~= status_line(head@));
    }
    let text = match utf8_text(line) {
        Ok(t) => t,
        Err(e) => {
            let mut m = String::from_str("non-UTF-8 in HTTP status line: ");
            m.append(e.as_str());
            return Err(m);
        },
    };
    match parse_http_status_code(text.as_str()) {
        None => {
            let shown = match utf8_text(head) {
                Ok(all) => all,
                Err(_) => text,
            };
            let mut m = String::from_str("could not parse HTTP status from ");
            m.append(quote(shown.as_str()).as_str());
            Err(m)
        },
        Some(n) => {
            if 200 <= n && n < 300 {
                Ok(())
            } else {
                let mut m = String::from_str("upstream returned HTTP ");
                m.append(decimal_text(n as u64).as_str());
                m.append(" on ");
                m.append(path);
                Err(m)
            }
        },
    }
}

/// Waiting for an app to be ready.
#[derive(Debug)]
pub struct ReadinessWait {
    pub addr: SocketAddr,
    pub path: Option<String>,
    pub timeout: Span,
    /// Why the last attempt failed.
    pub last_err: Option<String>,
}

/// What to do next.
#[derive(Debug)]
pub enum ProbeStep {
    Attempt,
    /// The time is over; why the app did not become ready.
    GiveUp(String),
}

impl ReadinessWait {
    pub fn new(addr: SocketAddr, path: Option<String>, timeout: Span) -> (r: ReadinessWait)
        ensures
            r == (ReadinessWait { addr, path, timeout, last_err: None }),
    {
        ReadinessWait { addr, path, timeout, last_err: None }
    }

    /// The message of a wait that was given up.
    pub open spec fn timed_out(self) -> Seq<char> {
        (if self.path is Some {
            "HTTP"@
        } else {
            "TCP"@
        }) + " readiness probe of "@ + self.addr.text() + " timed out after "@ + span_shown(
            self.timeout.secs,
            self.timeout.nanos,
        ) + ": "@ + (match self.last_err {
            Some(e) => "Some("@ + e@ + ")"@,
            None => "None"@,
        })
    }

    /// Attempts are made until the timeout is over, counted from the beginning.
    pub fn next(&self, elapsed: Span) -> (r: ProbeStep)
        requires
            self.timeout.wf(),
        ensures
            match r {
                ProbeStep::Attempt => elapsed.total() < self.timeout.total(),
                ProbeStep::GiveUp(m) => elapsed.total() >= self.timeout.total() && m@
                    == self.timed_out(),
            },
    {
        if !elapsed.at_least(self.timeout) {
            return ProbeStep::Attempt;
        }
        let mut m = match &self.path {
            Some(_) => String::from_str("HTTP"),
            None => String::from_str("TCP"),
        };
        m.append(" readiness probe of ");
        m.append(self.addr.show().as_str());
        m.append(" timed out after ");
        m.append(self.timeout.show().as_str());
        m.append(": ");
        let last = match &self.last_err {
            Some(e) => {
                let mut t = String::from_str("Some(");
                t.append(e.as_str());
                t.append(")");
                t
            },
            None => String::from_str("None"),
        };
        m.append(last.as_str());
        ProbeStep::GiveUp(m)
    }

    /// Take in what came of an attempt and say whether the app is ready.
    pub fn attempted(&mut self, outcome: Result<(), String>) -> (r: bool)
        ensures
            r == (outcome is Ok),
            *final(self) == (ReadinessWait {
                last_err: match outcome {
                    Ok(_) => old(self).last_err,
                    Err(e) => Some(e),
                },
                ..*old(self)
            }),
    {
        match outcome {
            Ok(_) => true,
            Err(e) => {
                self.last_err = Some(e);
                false
            },
        }
    }
}

/// Begin to wait for an app that was started at an address, for as long as its
/// spec says. A timeout that cannot be read is an error.
pub fn readiness_wait(h: &AppHandle, container_ip: u32) -> (r: Result<ReadinessWait, String>)
    ensures
        ({
            let default = Span { secs: READINESS_TIMEOUT_DEFAULT_SECS, nanos: 0 };
            match r {
                Ok(w) => {
                    &&& w.addr == (SocketAddr { ip: IpAddr::V4(container_ip), port: h.spec.port })
                    &&& w.path == h.spec.readiness.path
                    &&& w.last_err is None
                    &&& w.timeout.wf()
                    &&& Readiness::timeout_of(h.spec.readiness.timeout_text(), default) == Ok::<
                        (u64, u32),
                        Seq<char>,
                    >((w.timeout.secs, w.timeout.nanos))
                },
                Err(m) => {
                    &&& Readiness::timeout_of(
                        h.spec.readiness.timeout_text(),
                        default,
                    ) matches Err(e) && m@ == named_message(h.identity.name@, e)
                },
            }
        }),
{
    match h.spec.readiness.resolve_timeout(Span::from_secs(READINESS_TIMEOUT_DEFAULT_SECS)) {
        Ok(timeout) => {
            let addr = SocketAddr { ip: IpAddr::V4(container_ip), port: h.spec.port };
            Ok(ReadinessWait::new(addr, h.spec.readiness.path.clone(), timeout))
        },
        Err(e) => Err(name_message(h.identity.name.as_str(), e.as_str())),
    }
}

// ---- laws ------------------------------------------------------------------

/// An app is taken to be ready exactly if the first line of its answer has a
/// status in the two hundreds.
pub proof fn lemma_ready_means_success(head: Seq<u8>, path: Seq<char>)
    ensures
        verdict(head, path) is None <==> {
            &&& head.len() > 0
            &&& valid_utf8(status_line(head))
            &&& status_code(decode_utf8(status_line(head))) matches Some(n) && 200 <= n && n < 300
        },
{
}

/// What follows the first line makes no difference.
pub proof fn lemma_later_bytes_do_not_matter(
    line: Seq<u8>,
    rest: Seq<u8>,
    other: Seq<u8>,
    path: Seq<char>,
)
    ensures
        verdict(line + seq![13u8, 10u8] + rest, path) is None <==> verdict(
            line + seq![13u8, 10u8] + other,
            path,
        ) is None,
{
    lemma_line_ends_at_first_break(line, rest, other);
}

proof fn lemma_line_ends_at_first_break(line: Seq<u8>, rest: Seq<u8>, other: Seq<u8>)
    ensures
        status_line(line + seq![13u8, 10u8] + rest) == status_line(
            line + seq![13u8, 10u8] + other,
        ),
        0 <= byte_line_end(line + seq![13u8, 10u8] + rest) <= line.len(),
        byte_line_end(line + seq![13u8, 10u8] + rest) == byte_line_end(
            line + seq![13u8, 10u8] + other,
        ),
    decreases line.len(),
{
    let a = line + seq![13u8, 10u8] + rest;
    let b = line + seq![13u8, 10u8] + other;
    if line.len() > 0 {
        let tail = line.drop_first();
        lemma_line_ends_at_first_break(tail, rest, other);
        assert(a.drop_first() =~= tail + seq![13u8, 10u8] + rest);
        assert(b.drop_first() =~= tail + seq![13u8, 10u8] + other);
        assert(a[0] == b[0] && a[1] == b[1]);
    } else {
        assert(a[0] == 13 && a[1] == 10 && b[0] == 13 && b[1] == 10);
    }
    assert(status_line(a) =~= status_line(b));
}

/// A line ends in front of the first carriage return that a line feed follows,
/// or where the text ends.
pub proof fn lemma_line_end(s: Seq<char>)
    ensures
        0 <= line_end(s) <= s.len(),
        forall|i: int|
            0 <= i < line_end(s) && i + 1 < s.len() ==> !(#[trigger] s[i] == '\r' && s[i + 1]
                == '\n'),
        line_end(s) < s.len() ==> line_end(s) + 1 < s.len() && s[line_end(s)] == '\r' && s[line_end(
            s,
        ) + 1] == '\n',
    decreases s.len(),
{
    if s.len() > 0 && !(s.len() > 1 && s[0] == '\r' && s[1] == '\n') {
        let t = s.drop_first();
        lemma_line_end(t);
        let e = line_end(t);
        assert forall|i: int| 0 <= i < line_end(s) && i + 1 < s.len() implies !(#[trigger] s[i]
            == '\r' && s[i + 1] == '\n') by {
            if i > 0 {
                assert(t[i - 1] == s[i]);
                assert(t[i] == s[i + 1]);
            }
        }
        if e < t.len() {
            assert(t[e] == s[e + 1]);
            assert(t[e + 1] == s[e + 2]);
        }
    }
}

/// The first line of an answer is what it begins with, up to the first carriage
/// return that a line feed follows.
pub proof fn lemma_status_line(head: Seq<u8>)
    ensures
        ({
            let l = status_line(head);
            &&& l.len() <= head.len()
            &&& l == head.take(l.len() as int)
            &&& forall|i: int|
                0 <= i < l.len() && i + 1 < head.len() ==> !(#[trigger] head[i] == 13 && head[i + 1]
                    == 10)
            &&& l.len() < head.len() ==> l.len() + 1 < head.len() && head[l.len() as int] == 13
                && head[l.len() as int + 1] == 10
        }),
{
    lemma_byte_line_end(head);
}

proof fn lemma_byte_line_end(s: Seq<u8>)
    ensures
        0 <= byte_line_end(s) <= s.len(),
        forall|i: int|
            0 <= i < byte_line_end(s) && i + 1 < s.len() ==> !(#[trigger] s[i] == 13 && s[i + 1]
                == 10),
        byte_line_end(s) < s.len() ==> byte_line_end(s) + 1 < s.len() && s[byte_line_end(s)] == 13
            && s[byte_line_end(s) + 1] == 10,
    decreases s.len(),
{
    if s.len() > 0 && !(s.len() > 1 && s[0] == 13 && s[1] == 10) {
        let t = s.drop_first();
        lemma_byte_line_end(t);
        let e = byte_line_end(t);
        assert forall|i: int| 0 <= i < byte_line_end(s) && i + 1 < s.len() implies !(
        #[trigger] s[i] == 13 && s[i + 1] == 10) by {
            if i > 0 {
                assert(t[i - 1] == s[i]);
                assert(t[i] == s[i + 1]);
            }
        }
        if e < t.len() {
            assert(t[e] == s[e + 1]);
            assert(t[e + 1] == s[e + 2]);
        }
    }
}

/// The status of a line of text is its second word, where words are parted by
/// single blanks, the first one begins with `HTTP/` and the second is a number
/// of 16 bits.
pub proof fn lemma_status_code(version: Seq<char>, word: Seq<char>, rest: Seq<char>)
    requires
        forall|i: int| 0 <= i < version.len() ==> version[i] != ' ' && version[i] != '\r',
        forall|i: int| 0 <= i < word.len() ==> word[i] != ' ' && word[i] != '\r',
        forall|i: int| 0 <= i < rest.len() ==> rest[i] != '\r',
    ensures
        starts_with(version, "HTTP/"@) ==> {
            &&& status_code(version + seq![' '] + word) == parse(word, 10, 65535)
            &&& status_code(version + seq![' '] + word + seq![' '] + rest) == parse(
                word,
                10,
                65535,
            )
        },
        !starts_with(version, "HTTP/"@) ==> {
            &&& status_code(version + seq![' '] + word) is None
            &&& status_code(version + seq![' '] + word + seq![' '] + rest) is None
        },
        status_code(version) is None,
{
    let short = version + seq![' '] + word;
    let long = short + seq![' '] + rest;
    lemma_whole_line(version);
    lemma_whole_line(short);
    assert forall|i: int| 0 <= i < long.len() implies long[i] != '\r' by {
        if i < short.len() {
            assert(long[i] == short[i]);
        }
    }
    lemma_whole_line(long);
    crate::text::lemma_split_of_one(version, ' ');
    crate::text::lemma_split_of_one(word, ' ');
    crate::text::lemma_split_of_two(version, word, ' ');
    crate::text::lemma_split_of_two(short, rest, ' ');
    assert(split(short, ' ') =~= seq![version, word]);
    assert(split(long, ' ')[0] == version);
    assert(split(long, ' ')[1] == word);
}

proof fn lemma_whole_line(s: Seq<char>)
    requires
        forall|i: int| 0 <= i < s.len() ==> s[i] != '\r',
    ensures
        s.take(line_end(s)) == s,
{
    lemma_line_end(s);
    assert(s.take(line_end(s)) =~= s);
}

/// What is said of an answer that does not make an app ready, in the order in
/// which it is looked at: that there is none, that its first line is no text,
/// that there is no status, and which status there is.
pub proof fn lemma_verdict(head: Seq<u8>, path: Seq<char>)
    ensures
        ({
            let line = status_line(head);
            &&& head.len() == 0 ==> verdict(head, path) == Some(
                "upstream closed before sending any bytes"@,
            )
            &&& head.len() > 0 && !valid_utf8(line) ==> verdict(head, path) == Some(
                "non-UTF-8 in HTTP status line: "@ + utf8_error(line),
            )
            &&& head.len() > 0 && valid_utf8(line) && status_code(decode_utf8(line)) is None
                ==> verdict(head, path) == Some(
                "could not parse HTTP status from "@ + quoted(
                    if valid_utf8(head) {
                        decode_utf8(head)
                    } else {
                        decode_utf8(line)
                    },
                ),
            )
            &&& head.len() > 0 && valid_utf8(line) ==> (status_code(decode_utf8(line)) matches Some(
                n,
            ) ==> verdict(head, path) == if 200 <= n <= 299 {
                None
            } else {
                Some("upstream returned HTTP "@ + decimal(n) + " on "@ + path)
            })
        }),
{
}

/// What an app is asked: the path, from the address it serves at, on a
/// connection of its own.
pub proof fn lemma_probe_request(path: Seq<char>, addr: SocketAddr)
    ensures
        probe_request(path, addr) == "GET "@ + path + " HTTP/1.1\r\nHost: "@ + addr.text()
            + "\r\nUser-Agent: bugpot-readiness\r\nConnection: close\r\nAccept: */*\r\n\r\n"@,
{
}

/// What is said of a wait that was given up: how it was asked, where, for how
/// long, and why the last attempt failed.
pub proof fn lemma_timed_out(w: ReadinessWait)
    ensures
        ({
            let tail = " readiness probe of "@ + w.addr.text() + " timed out after "@ + span_shown(
                w.timeout.secs,
                w.timeout.nanos,
            ) + ": "@ + match w.last_err {
                Some(e) => "Some("@ + e@ + ")"@,
                None => "None"@,
            };
            &&& w.path is Some ==> w.timed_out() == "HTTP"@ + tail
            &&& w.path is None ==> w.timed_out() == "TCP"@ + tail
        }),
{
    let last = match w.last_err {
        Some(e) => "Some("@ + e@ + ")"@,
        None => "None"@,
    };
    let shown = span_shown(w.timeout.secs, w.timeout.nanos);
    let tail = " readiness probe of "@ + w.addr.text() + " timed out after "@ + shown + ": "@
        + last;
    let head = if w.path is Some {
        "HTTP"@
    } else {
        "TCP"@
    };
    assert(w.timed_out() =~= head + tail);
}

/// An attempt is made every tenth of a second, for ten seconds where a spec says
/// nothing, and 256 bytes of an answer are looked at.
pub proof fn lemma_probe_limits()
    ensures
        READINESS_POLL_MILLIS == 100,
        READINESS_TIMEOUT_DEFAULT_SECS == 10,
        RESPONSE_HEAD_BYTES == 256,
{
}

} // verus!

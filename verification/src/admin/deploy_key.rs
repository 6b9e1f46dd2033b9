//! Deploy tokens: one for each app, bound to its name and repository.
//!
//! A token is `bp1.` and, in hexadecimal, the HMAC-SHA-256 under the server's
//! secret of a tag and of name and repository, each behind its length. Nothing
//! is stored: changing the secret revokes all tokens, changing an app's
//! repository those of the app.

use vstd::prelude::*;
use vstd::slice::slice_subrange;
use vstd::string::StringExecFns;
use vstd::utf8::encode_utf8;

use super::secret::{same_bytes, seal, secret_view, unseal, SecretBytes};
use crate::number::{all_digits, digit, digit_value};
use crate::text::{chars_of, has_prefix, starts_with, string_of};

verus! {

/// What every token begins with.
pub const WIRE_PREFIX: &'static str = "bp1.";

/// What the authenticated bytes begin with: `bp1` and a zero byte.
pub open spec fn domain_tag() -> Seq<u8> {
    seq![0x62u8, 0x70u8, 0x31u8, 0u8]
}

/// A 32-bit number as four bytes, the least significant first.
pub open spec fn le_bytes(n: nat) -> Seq<u8> {
    seq![
        (n % 0x100) as u8,
        ((n / 0x100) % 0x100) as u8,
        ((n / 0x1_0000) % 0x100) as u8,
        ((n / 0x100_0000) % 0x100) as u8,
    ]
}

/// A length as it is written down; lengths that do not fit are all written as
/// the largest that does.
pub open spec fn capped(n: nat) -> nat {
    if n <= 0xffff_ffff {
        n
    } else {
        0xffff_ffff
    }
}

/// Bytes behind their length.
pub open spec fn prefixed(b: Seq<u8>) -> Seq<u8> {
    le_bytes(capped(b.len())) + b
}

/// The bytes that are authenticated for an app.
pub open spec fn token_message(name: Seq<u8>, repo: Seq<u8>) -> Seq<u8> {
    domain_tag() + prefixed(name) + prefixed(repo)
}

/// The HMAC-SHA-256 of a message under a key.
pub uninterp spec fn hmac_sha256(key: Seq<u8>, message: Seq<u8>) -> Seq<u8>;

/// `hmac::Hmac<sha2::Sha256>`, made by `new_from_slice`, fed with the message
/// by `update` and read by `finalize`. The same key and message give the same
/// 32 bytes; a key of any length is accepted.
#[verifier::external_body]
fn hmac_of(key: &[u8], message: &[u8]) -> (r: Vec<u8>)
    ensures
        r@ == hmac_sha256(key@, message@),
        r@.len() == 32,
{
    let mut mac = <hmac::Hmac<sha2::Sha256> as hmac::KeyInit>::new_from_slice(key).unwrap();
    hmac::Mac::update(&mut mac, message);
    hmac::Mac::finalize(mac).into_bytes().to_vec()
}

/// Bytes in hexadecimal: two small digits each.
pub open spec fn hex_text(b: Seq<u8>) -> Seq<char> {
    Seq::new(
        2 * b.len(),
        |i: int|
            if i % 2 == 0 {
                digit(b[i / 2] as nat / 16)
            } else {
                digit(b[i / 2] as nat % 16)
            },
    )
}

/// The bytes that a hexadecimal text stands for: an even number of digits, in
/// either case.
pub open spec fn hex_bytes(s: Seq<char>) -> Option<Seq<u8>> {
    if s.len() % 2 == 0 && all_digits(s, 16) {
        Some(
            Seq::new(
                s.len() / 2,
                |i: int|
                    (digit_value(s[2 * i])->0 * 16 + digit_value(s[2 * i + 1])->0) as u8,
            ),
        )
    } else {
        None
    }
}

/// `hex::encode` writes each byte as two hexadecimal digits, in small letters.
#[verifier::external_body]
fn hex_encode(b: &[u8]) -> (r: String)
    ensures
        r@ == hex_text(b@),
{
    hex::encode(b)
}

/// `hex::decode` reads an even number of hexadecimal digits, in either case, and
/// nothing else.
#[verifier::external_body]
fn hex_decode(s: &str) -> (r: Option<Vec<u8>>)
    ensures
        match r {
            Some(b) => hex_bytes(s@) == Some(b@),
            None => hex_bytes(s@) is None,
        },
{
    match hex::decode(s) {
        Ok(b) => Some(b),
        Err(_) => None,
    }
}

/// What is authenticated for an app with this name and repository.
pub open spec fn app_mac(key: Seq<u8>, name: Seq<char>, repo: Seq<char>) -> Seq<u8> {
    hmac_sha256(key, token_message(encode_utf8(name), encode_utf8(repo)))
}

/// The deploy token of an app.
pub open spec fn token_text(key: Seq<u8>, name: Seq<char>, repo: Seq<char>) -> Seq<char> {
    WIRE_PREFIX@ + hex_text(app_mac(key, name, repo))
}

/// The text passes for an app's deploy token: the prefix and 64 hexadecimal
/// digits that stand for what is authenticated for the app.
pub open spec fn accepts(
    key: Seq<u8>,
    presented: Seq<char>,
    name: Seq<char>,
    repo: Seq<char>,
) -> bool {
    &&& encode_utf8(presented).len() == 68
    &&& starts_with(presented, WIRE_PREFIX@)
    &&& hex_bytes(presented.skip(4)) == Some(app_mac(key, name, repo))
}

fn push_all(out: &mut Vec<u8>, b: &[u8])
    ensures
        final(out)@ == old(out)@ + b@,
{
    let mut i: usize = 0;
    while i < b.len()
        invariant
            i <= b@.len(),
            out@ == old(out)@ + b@.take(i as int),
        decreases b@.len() - i,
    {
        out.push(b[i]);
        proof {
            assert(out@ =~= old(out)@ + b@.take(i + 1));
        }
        i += 1;
    }
    proof {
        assert(b@.take(i as int) =~= b@);
    }
}

fn push_length(out: &mut Vec<u8>, len: usize)
    ensures
        final(out)@ == old(out)@ + le_bytes(capped(len as nat)),
{
    let n: u32 = if len as u64 <= 0xffff_ffff {
        len as u32
    } else {
        0xffff_ffff
    };
    out.push((n % 0x100) as u8);
    out.push(((n / 0x100) % 0x100) as u8);
    out.push(((n / 0x1_0000) % 0x100) as u8);
    out.push(((n / 0x100_0000) % 0x100) as u8);
    proof {
        assert(out@ =~= old(out)@ + le_bytes(n as nat));
    }
}

/// Holder of the secret that deploy tokens are derived from.
pub struct DeployKeySecret {
    secret: SecretBytes,
}

impl DeployKeySecret {
    /// The bytes of the secret.
    pub closed spec fn key(self) -> Seq<u8> {
        secret_view(self.secret)
    }

    pub fn from_bytes(bytes: Vec<u8>) -> (r: DeployKeySecret)
        ensures
            r.key() == bytes@,
    {
        DeployKeySecret { secret: seal(bytes) }
    }

    fn mac_bytes(&self, name: &str, repo: &str) -> (r: Vec<u8>)
        ensures
            r@ == app_mac(self.key(), name@, repo@),
            r@.len() == 32,
    {
        let name_bytes = name.as_bytes();
        let repo_bytes = repo.as_bytes();
        let mut message: Vec<u8> = Vec::new();
        message.push(0x62);
        message.push(0x70);
        message.push(0x31);
        message.push(0);
        proof {
            assert(message@ =~= domain_tag());
        }
        push_length(&mut message, name_bytes.len());
        push_all(&mut message, name_bytes);
        push_length(&mut message, repo_bytes.len());
        push_all(&mut message, repo_bytes);
        proof {
            assert(message@ =~= token_message(encode_utf8(name@), encode_utf8(repo@)));
        }
        hmac_of(unseal(&self.secret), &message)
    }

    /// The deploy token of an app with this name and repository.
    pub fn derive(&self, name: &str, repo: &str) -> (r: String)
        ensures
            r@ == token_text(self.key(), name@, repo@),
            accepts(self.key(), r@, name@, repo@),
    {
        let mac = self.mac_bytes(name, repo);
        proof {
            lemma_derived_token_is_accepted(self.key(), name@, repo@);
        }
        let mut token = String::from_str(WIRE_PREFIX);
        token.append(hex_encode(&mac).as_str());
        token
    }

    /// The text is the deploy token of an app with this name and repository.
    pub fn verify(&self, presented: &str, name: &str, repo: &str) -> (r: bool)
        ensures
            r == accepts(self.key(), presented@, name@, repo@),
    {
        proof {
            reveal_strlit("bp1.");
        }
        if presented.as_bytes().len() != 68 {
            return false;
        }
        let v = chars_of(presented);
        if !has_prefix(&v, &chars_of(WIRE_PREFIX)) {
            return false;
        }
        let rest = slice_subrange(&v, 4, v.len());
        proof {
            assert(rest@ =~= presented@.skip(4));
        }
        match hex_decode(string_of(rest).as_str()) {
            None => false,
            Some(mac) => {
                let expected = self.mac_bytes(name, repo);
                same_bytes(&mac, &expected)
            },
        }
    }
}

proof fn lemma_digit_reads_back(d: nat)
    requires
        d < 16,
    ensures
        digit_value(digit(d)) == Some(d),
{
}

/// Bytes are read back from their hexadecimal text.
pub proof fn lemma_hex_reads_back(b: Seq<u8>)
    ensures
        hex_bytes(hex_text(b)) == Some(b),
{
    let s = hex_text(b);
    assert(s.len() % 2 == 0);
    assert(all_digits(s, 16)) by {
        assert forall|i: int| 0 <= i < s.len() implies crate::number::is_digit(
            #[trigger] s[i],
            16,
        ) by {
            lemma_digit_reads_back(b[i / 2] as nat / 16);
            lemma_digit_reads_back(b[i / 2] as nat % 16);
        }
    }
    let back = hex_bytes(s)->0;
    assert(back.len() == b.len());
    assert forall|i: int| 0 <= i < b.len() implies back[i] == b[i] by {
        let x = b[i] as nat;
        assert(s[2 * i] == digit(x / 16)) by {
            assert((2 * i) / 2 == i);
        }
        assert(s[2 * i + 1] == digit(x % 16)) by {
            assert((2 * i + 1) / 2 == i);
            assert((2 * i + 1) % 2 == 1);
        }
        lemma_digit_reads_back(x / 16);
        lemma_digit_reads_back(x % 16);
        assert(x / 16 * 16 + x % 16 == x);
    }
    assert(back =~= b);
}

proof fn lemma_hex_is_ascii(b: Seq<u8>)
    ensures
        encode_utf8(WIRE_PREFIX@ + hex_text(b)).len() == 4 + 2 * b.len(),
{
    reveal_strlit("bp1.");
    let s = WIRE_PREFIX@ + hex_text(b);
    assert(vstd::utf8::is_ascii_chars(s)) by {
        assert forall|i: int| 0 <= i < s.len() implies 0 <= (#[trigger] s[i]) as nat <= 127 by {
            if i >= 4 {
                let k = i - 4;
                lemma_digit_reads_back(b[k / 2] as nat / 16);
                lemma_digit_reads_back(b[k / 2] as nat % 16);
            }
        }
    }
    vstd::utf8::is_ascii_chars_encode_utf8(s);
}

/// A derived token is accepted for the app that it was derived for. Its
/// authenticated bytes, like those of every HMAC-SHA-256, are 32.
proof fn lemma_derived_token_is_accepted(key: Seq<u8>, name: Seq<char>, repo: Seq<char>)
    requires
        app_mac(key, name, repo).len() == 32,
    ensures
        accepts(key, token_text(key, name, repo), name, repo),
{
    reveal_strlit("bp1.");
    let mac = app_mac(key, name, repo);
    let token = token_text(key, name, repo);
    lemma_hex_is_ascii(mac);
    lemma_hex_reads_back(mac);
    assert(token.take(4) =~= WIRE_PREFIX@);
    assert(token.skip(4) =~= hex_text(mac));
}

proof fn lemma_le_bytes_injective(a: nat, b: nat)
    requires
        a <= 0xffff_ffff,
        b <= 0xffff_ffff,
        le_bytes(a) == le_bytes(b),
    ensures
        a == b,
{
    assert(le_bytes(a)[0] == le_bytes(b)[0]);
    assert(le_bytes(a)[1] == le_bytes(b)[1]);
    assert(le_bytes(a)[2] == le_bytes(b)[2]);
    assert(le_bytes(a)[3] == le_bytes(b)[3]);
    assert(a % 0x100 == b % 0x100);
    assert((a / 0x100) % 0x100 == (b / 0x100) % 0x100);
    assert((a / 0x1_0000) % 0x100 == (b / 0x1_0000) % 0x100);
    assert((a / 0x100_0000) % 0x100 == (b / 0x100_0000) % 0x100);
    assert(a == (a % 0x100) + 0x100 * ((a / 0x100) % 0x100) + 0x1_0000 * ((a / 0x1_0000) % 0x100)
        + 0x100_0000 * ((a / 0x100_0000) % 0x100));
    assert(b == (b % 0x100) + 0x100 * ((b / 0x100) % 0x100) + 0x1_0000 * ((b / 0x1_0000) % 0x100)
        + 0x100_0000 * ((b / 0x100_0000) % 0x100));
}

/// Different names or repositories are authenticated as different bytes: the
/// lengths keep one from running into the other.
pub proof fn lemma_message_injective(
    name: Seq<u8>,
    repo: Seq<u8>,
    other_name: Seq<u8>,
    other_repo: Seq<u8>,
)
    requires
        name.len() <= 0xffff_ffff,
        other_name.len() <= 0xffff_ffff,
        token_message(name, repo) == token_message(other_name, other_repo),
    ensures
        name == other_name,
        repo == other_repo,
{
    let m = token_message(name, repo);
    let o = token_message(other_name, other_repo);
    assert(m.subrange(4, 8) =~= le_bytes(name.len()));
    assert(o.subrange(4, 8) =~= le_bytes(other_name.len()));
    lemma_le_bytes_injective(name.len(), other_name.len());
    let n = name.len() as int;
    assert(m.subrange(8, 8 + n) =~= name);
    assert(o.subrange(8, 8 + n) =~= other_name);
    assert(m.skip(12 + n) =~= repo);
    assert(o.skip(12 + n) =~= other_repo);
}

/// A token that is accepted for two apps that differ in name or repository
/// shows two different messages with the same HMAC. Names are as short as DNS
/// labels.
pub proof fn lemma_tokens_are_bound(
    key: Seq<u8>,
    token: Seq<char>,
    name: Seq<char>,
    repo: Seq<char>,
    other_name: Seq<char>,
    other_repo: Seq<char>,
)
    requires
        encode_utf8(name).len() <= 0xffff_ffff,
        encode_utf8(other_name).len() <= 0xffff_ffff,
        name != other_name || repo != other_repo,
        accepts(key, token, name, repo),
        accepts(key, token, other_name, other_repo),
    ensures
        exists|m: Seq<u8>, o: Seq<u8>|
            m != o && #[trigger] hmac_sha256(key, m) == #[trigger] hmac_sha256(key, o),
{
    let m = token_message(encode_utf8(name), encode_utf8(repo));
    let o = token_message(encode_utf8(other_name), encode_utf8(other_repo));
    if m == o {
        lemma_message_injective(
            encode_utf8(name),
            encode_utf8(repo),
            encode_utf8(other_name),
            encode_utf8(other_repo),
        );
        vstd::utf8::encode_utf8_decode_utf8(name);
        vstd::utf8::encode_utf8_decode_utf8(other_name);
        vstd::utf8::encode_utf8_decode_utf8(repo);
        vstd::utf8::encode_utf8_decode_utf8(other_repo);
    }
    assert(hmac_sha256(key, m) == hmac_sha256(key, o));
}

/// A length is written as four bytes that give it back, the least significant
/// first; a length that does not fit is written as four bytes of ones.
pub proof fn lemma_length_bytes(n: nat)
    ensures
        le_bytes(capped(n)).len() == 4,
        n <= 0xffff_ffff ==> le_bytes(capped(n))[0] + le_bytes(capped(n))[1] * 0x100 + le_bytes(
            capped(n),
        )[2] * 0x1_0000 + le_bytes(capped(n))[3] * 0x100_0000 == n,
        n > 0xffff_ffff ==> le_bytes(capped(n)) == seq![0xffu8, 0xffu8, 0xffu8, 0xffu8],
{
    let m = capped(n);
    assert(m % 0x100 + (m / 0x100) % 0x100 * 0x100 + (m / 0x1_0000) % 0x100 * 0x1_0000 + (m
        / 0x100_0000) % 0x100 * 0x100_0000 == m) by (nonlinear_arith)
        requires
            m <= 0xffff_ffff,
    ;
    if n > 0xffff_ffff {
        assert(le_bytes(m) =~= seq![0xffu8, 0xffu8, 0xffu8, 0xffu8]);
    }
}

/// What is authenticated for an app: `bp1` and a zero byte, then the name and the
/// repository, each behind its length.
pub proof fn lemma_token_message(name: Seq<u8>, repo: Seq<u8>)
    ensures
        token_message(name, repo) == seq![0x62u8, 0x70u8, 0x31u8, 0u8] + le_bytes(
            capped(name.len()),
        ) + name + le_bytes(capped(repo.len())) + repo,
        token_message(name, repo).len() == 12 + name.len() + repo.len(),
        token_message(name, repo).take(4) == seq![0x62u8, 0x70u8, 0x31u8, 0u8],
        token_message(name, repo).subrange(8, 8 + name.len() as int) == name,
        token_message(name, repo).skip(12 + name.len() as int) == repo,
{
    let m = token_message(name, repo);
    assert(m =~= seq![0x62u8, 0x70u8, 0x31u8, 0u8] + le_bytes(capped(name.len())) + name + le_bytes(
        capped(repo.len()),
    ) + repo);
    assert(m.take(4) =~= seq![0x62u8, 0x70u8, 0x31u8, 0u8]);
    assert(m.subrange(8, 8 + name.len() as int) =~= name);
    assert(m.skip(12 + name.len() as int) =~= repo);
}

/// Each byte is written as two digits, the higher one first, with small letters.
pub proof fn lemma_hex_text(b: Seq<u8>, i: int)
    requires
        0 <= i < b.len(),
    ensures
        hex_text(b).len() == 2 * b.len(),
        digit_value(hex_text(b)[2 * i]) == Some((b[i] / 16) as nat),
        digit_value(hex_text(b)[2 * i + 1]) == Some((b[i] % 16) as nat),
        !('A' <= hex_text(b)[2 * i] <= 'F'),
        !('A' <= hex_text(b)[2 * i + 1] <= 'F'),
{
    assert((2 * i) / 2 == i);
    assert((2 * i + 1) / 2 == i);
    assert((2 * i + 1) % 2 == 1);
    crate::number::lemma_digits(b[i] as nat / 16);
    crate::number::lemma_digits(b[i] as nat % 16);
}

/// A text passes for an app's deploy token exactly if it is `bp1.` and 64
/// hexadecimal digits that stand for the authenticated bytes of that app, and of
/// no other name or repository.
pub proof fn lemma_accepts(
    key: Seq<u8>,
    presented: Seq<char>,
    name: Seq<char>,
    repo: Seq<char>,
)
    ensures
        accepts(key, presented, name, repo) <==> {
            &&& encode_utf8(presented).len() == 68
            &&& presented.len() >= 4
            &&& presented.take(4) == seq!['b', 'p', '1', '.']
            &&& hex_bytes(presented.skip(4)) == Some(
                hmac_sha256(key, token_message(encode_utf8(name), encode_utf8(repo))),
            )
        },
        token_text(key, name, repo) == seq!['b', 'p', '1', '.'] + hex_text(
            hmac_sha256(key, token_message(encode_utf8(name), encode_utf8(repo))),
        ),
{
    reveal_strlit("bp1.");
    assert("bp1."@ =~= seq!['b', 'p', '1', '.']);
    crate::text::lemma_starts_with(presented, "bp1."@);
    if presented.len() >= 4 && presented.take(4) == seq!['b', 'p', '1', '.'] {
        assert(starts_with(presented, WIRE_PREFIX@));
    }
}

/// A text stands for bytes exactly if it has two hexadecimal digits for each;
/// whether letters are large or small does not matter.
pub proof fn lemma_hex_bytes(s: Seq<char>)
    ensures
        hex_bytes(s) is Some <==> s.len() % 2 == 0 && forall|i: int|
            0 <= i < s.len() ==> '0' <= #[trigger] s[i] <= '9' || 'a' <= s[i] <= 'f' || 'A' <= s[i]
                <= 'F',
        hex_bytes(s) matches Some(b) ==> b.len() * 2 == s.len() && forall|i: int|
            0 <= i < b.len() ==> (#[trigger] b[i]) as nat == digit_value(s[2 * i])->0 * 16
                + digit_value(s[2 * i + 1])->0,
{
    assert forall|i: int| 0 <= i < s.len() implies (crate::number::is_digit(#[trigger] s[i], 16)
        <==> '0' <= s[i] <= '9' || 'a' <= s[i] <= 'f' || 'A' <= s[i] <= 'F') by {
        crate::number::lemma_digit_values(s[i]);
    }
    if hex_bytes(s) is Some {
        let b = hex_bytes(s)->0;
        assert forall|i: int| 0 <= i < b.len() implies (#[trigger] b[i]) as nat == digit_value(
            s[2 * i],
        )->0 * 16 + digit_value(s[2 * i + 1])->0 by {
            assert(crate::number::is_digit(s[2 * i], 16));
            assert(crate::number::is_digit(s[2 * i + 1], 16));
        }
    }
}

} // verus!

//! Password hashing and session tokens of the back office: SHA-256 digests
//! rendered as lowercase hexadecimal.

use sha2::{Digest, Sha256};
use vstd::prelude::*;
use vstd::string::*;
use vstd::utf8::encode_utf8;
use crate::text::{digit_char, decimal_nat, push_decimal_u128};

verus! {

/// The SHA-256 digest of a byte string.
pub uninterp spec fn sha256_of(data: Seq<u8>) -> Seq<u8>;

/// Calls `sha2::Sha256::digest` (the `Digest` trait's one-shot hash: a fresh
/// hasher, one update with `data`, then finalize) and copies the 32-byte
/// output into a vector. The contract claims that the result is the digest
/// of `data`, named `sha256_of`, and that it is 32 bytes long, as the
/// output size of `Sha256` in the crate's source says.
#[verifier::external_body]
fn sha256_digest(data: &[u8]) -> (r: Vec<u8>)
    ensures
        r@ == sha256_of(data@),
        r@.len() == 32,
{
    Sha256::digest(data).to_vec()
}

/// The lowercase hexadecimal digit of a value below 16.
pub open spec fn hex_digit(d: nat) -> char {
    if d < 10 { digit_char(d) }
    else if d == 10 { 'a' }
    else if d == 11 { 'b' }
    else if d == 12 { 'c' }
    else if d == 13 { 'd' }
    else if d == 14 { 'e' }
    else { 'f' }
}

/// Two lowercase hexadecimal digits per byte, high digit first.
pub open spec fn hex_lower(bytes: Seq<u8>) -> Seq<char>
    decreases bytes.len(),
{
    if bytes.len() == 0 {
        Seq::empty()
    } else {
        let b = bytes.last();
        hex_lower(bytes.drop_last()) + seq![hex_digit((b / 16) as nat), hex_digit((b % 16) as nat)]
    }
}

fn hex_digit_str(d: u8) -> (r: &'static str)
    requires
        d < 16,
    ensures
        r@ == seq![hex_digit(d as nat)],
{
    proof {
        reveal_strlit("0");
        reveal_strlit("1");
        reveal_strlit("2");
        reveal_strlit("3");
        reveal_strlit("4");
        reveal_strlit("5");
        reveal_strlit("6");
        reveal_strlit("7");
        reveal_strlit("8");
        reveal_strlit("9");
        reveal_strlit("a");
        reveal_strlit("b");
        reveal_strlit("c");
        reveal_strlit("d");
        reveal_strlit("e");
        reveal_strlit("f");
    }
    if d == 0 { "0" }
    else if d == 1 { "1" }
    else if d == 2 { "2" }
    else if d == 3 { "3" }
    else if d == 4 { "4" }
    else if d == 5 { "5" }
    else if d == 6 { "6" }
    else if d == 7 { "7" }
    else if d == 8 { "8" }
    else if d == 9 { "9" }
    else if d == 10 { "a" }
    else if d == 11 { "b" }
    else if d == 12 { "c" }
    else if d == 13 { "d" }
    else if d == 14 { "e" }
    else { "f" }
}

/// Two hexadecimal digits per byte.
pub proof fn lemma_hex_len(bytes: Seq<u8>)
    ensures
        hex_lower(bytes).len() == 2 * bytes.len(),
    decreases bytes.len(),
{
    if bytes.len() > 0 {
        lemma_hex_len(bytes.drop_last());
    }
}

/// Renders bytes as lowercase hexadecimal, two digits per byte.
pub fn to_hex(bytes: &[u8]) -> (s: String)
    ensures
        s@ == hex_lower(bytes@),
        s@.len() == 2 * bytes@.len(),
{
    proof {
        lemma_hex_len(bytes@);
    }
    let mut s = String::new();
    let mut i: usize = 0;
    while i < bytes.len()
        invariant
            i <= bytes@.len(),
            s@ == hex_lower(bytes@.take(i as int)),
        decreases bytes@.len() - i,
    {
        let b = bytes[i];
        s.append(hex_digit_str(b / 16));
        s.append(hex_digit_str(b % 16));
        proof {
            let next = bytes@.take(i + 1);
            assert(next.drop_last() =~= bytes@.take(i as int));
            assert(next.last() == b);
        }
        i = i + 1;
    }
    assert(bytes@.take(bytes@.len() as int) =~= bytes@);
    s
}

/// The salt that precedes every administrator password before hashing.
pub open spec fn password_salt() -> Seq<char> {
    seq!['h', 'u', 'a', 'y', 'u', 'a', 'n', '-', 'a', 'd', 'm', 'i', 'n', '-', 'v', '1', ':']
}

/// The stored hash of an administrator password: the SHA-256 digest of the
/// salted password's UTF-8 bytes, in lowercase hexadecimal.
pub open spec fn password_digest(password: Seq<char>) -> Seq<char> {
    hex_lower(sha256_of(encode_utf8(password_salt() + password)))
}

/// Hashes an administrator password for storage and comparison.
pub fn hash_password(password: &str) -> (h: String)
    ensures
        h@ == password_digest(password@),
        h@.len() == 64,
{
    proof {
        reveal_strlit("huayuan-admin-v1:");
    }
    let mut message = "huayuan-admin-v1:".to_owned();
    message.append(password);
    assert(message@ =~= password_salt() + password@);
    let digest = sha256_digest(message.as_str().as_bytes());
    to_hex(digest.as_slice())
}

/// The text that a session token digests: the user name, the password hash
/// and the decimal nonce, joined by colons.
pub open spec fn token_message(username: Seq<char>, password_hash: Seq<char>, nonce: u128) -> Seq<char> {
    username + seq![':'] + password_hash + seq![':'] + decimal_nat(nonce as nat)
}

/// A session token: the SHA-256 digest of the token message's UTF-8 bytes, in
/// lowercase hexadecimal.
pub open spec fn token_digest(username: Seq<char>, password_hash: Seq<char>, nonce: u128) -> Seq<char> {
    hex_lower(sha256_of(encode_utf8(token_message(username, password_hash, nonce))))
}

/// Issues a session token for an account from the given nonce.
pub fn issue_session_token_with(username: &str, password_hash: &str, nonce: u128) -> (t: String)
    ensures
        t@ == token_digest(username@, password_hash@, nonce),
        t@.len() == 64,
{
    proof {
        reveal_strlit(":");
    }
    let mut message = username.to_owned();
    message.append(":");
    message.append(password_hash);
    message.append(":");
    push_decimal_u128(&mut message, nonce);
    assert(message@ =~= token_message(username@, password_hash@, nonce));
    let digest = sha256_digest(message.as_str().as_bytes());
    to_hex(digest.as_slice())
}

/// Issues a session token for an account, with the wall clock's nanoseconds
/// as the nonce.
pub fn issue_session_token(username: &str, password_hash: &str) -> (t: String)
    ensures
        exists|nonce: u128| t@ == token_digest(username@, password_hash@, nonce),
        t@.len() == 64,
{
    let nonce = crate::clock::unix_nonce();
    issue_session_token_with(username, password_hash, nonce)
}

} // verus!

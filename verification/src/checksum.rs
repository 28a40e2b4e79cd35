//! SHA-256 checksums of downloaded model files, in the lowercase
//! hexadecimal form that checksum records use.
use vstd::prelude::*;
use crate::text::{push_str, str_eq, string_of};

verus! {

/// An incremental SHA-256 computation: the `sha2` crate's `Sha256` hasher,
/// kept in a private field and seen only as the bytes fed to it so far
/// (`hashed_bytes`).
#[verifier::external_body]
pub struct Sha256Stream {
    inner: sha2::Sha256,
}

/// The bytes fed to the hasher so far.
pub uninterp spec fn hashed_bytes(s: Sha256Stream) -> Seq<u8>;

/// The SHA-256 digest of a byte sequence.
pub uninterp spec fn sha256_digest(data: Seq<u8>) -> Seq<u8>;

impl View for Sha256Stream {
    type V = Seq<u8>;

    open spec fn view(&self) -> Seq<u8> {
        hashed_bytes(*self)
    }
}

/// `<sha2::Sha256 as Digest>::new`: a hasher that has been fed nothing.
#[verifier::external_body]
fn hasher_new() -> (s: Sha256Stream)
    ensures
        hashed_bytes(s) == Seq::<u8>::empty(),
{
    Sha256Stream { inner: <sha2::Sha256 as sha2::Digest>::new() }
}

/// `Digest::update`: feeds `data` after the bytes fed so far.
#[verifier::external_body]
fn hasher_update(s: &mut Sha256Stream, data: &[u8])
    ensures
        hashed_bytes(*final(s)) == hashed_bytes(*old(s)) + data@,
{
    sha2::Digest::update(&mut s.inner, data)
}

/// `Digest::finalize`: the 32-byte digest of everything fed.
#[verifier::external_body]
fn hasher_finalize(s: Sha256Stream) -> (d: Vec<u8>)
    ensures
        d@ == sha256_digest(hashed_bytes(s)),
        d@.len() == 32,
{
    sha2::Digest::finalize(s.inner).to_vec()
}

/// The lowercase hexadecimal digit for a value below 16.
pub open spec fn hex_digit(n: int) -> char {
    if n < 10 {
        ('0' as int + n) as char
    } else {
        ('a' as int + n - 10) as char
    }
}

/// Lowercase hexadecimal form of bytes, two digits per byte, high half
/// first (what `{:x}` prints for a digest).
pub open spec fn hex_lower(bytes: Seq<u8>) -> Seq<char>
    decreases bytes.len(),
{
    if bytes.len() == 0 {
        Seq::empty()
    } else {
        hex_lower(bytes.drop_last()).push(hex_digit(bytes.last() as int / 16)).push(
            hex_digit(bytes.last() as int % 16),
        )
    }
}

fn hex_char(n: u8) -> (c: char)
    requires
        n < 16,
    ensures
        c == hex_digit(n as int),
{
    if n < 10 {
        (48u8 + n) as char
    } else {
        (87u8 + n) as char
    }
}

/// Lowercase hexadecimal text of `bytes`.
pub fn to_hex(bytes: &Vec<u8>) -> (s: String)
    ensures
        s@ == hex_lower(bytes@),
{
    let mut out: Vec<char> = Vec::new();
    let mut i: usize = 0;
    while i < bytes.len()
        invariant
            i <= bytes.len(),
            out@ == hex_lower(bytes@.take(i as int)),
        decreases bytes.len() - i,
    {
        let b = bytes[i];
        proof {
            assert(bytes@.take(i + 1).drop_last() =~= bytes@.take(i as int));
        }
        out.push(hex_char(b / 16));
        out.push(hex_char(b % 16));
        i = i + 1;
    }
    assert(bytes@.take(bytes.len() as int) =~= bytes@);
    string_of(&out)
}

impl Sha256Stream {
    /// A checksum computation that has seen nothing yet.
    pub fn new() -> (s: Self)
        ensures
            s@ == Seq::<u8>::empty(),
    {
        hasher_new()
    }

    /// Feeds the next chunk of the file.
    pub fn update(&mut self, chunk: &[u8])
        ensures
            final(self)@ == old(self)@ + chunk@,
    {
        hasher_update(self, chunk)
    }

    /// The checksum of everything fed, as 64 lowercase hexadecimal digits.
    pub fn finish_hex(self) -> (hex: String)
        ensures
            hex@ == hex_lower(sha256_digest(self@)),
            hex@.len() == 64,
    {
        let d = hasher_finalize(self);
        proof {
            lemma_hex_len(d@);
        }
        to_hex(&d)
    }
}

proof fn lemma_hex_len(b: Seq<u8>)
    ensures
        hex_lower(b).len() == 2 * b.len(),
    decreases b.len(),
{
    if b.len() > 0 {
        lemma_hex_len(b.drop_last());
    }
}

/// The SHA-256 checksum of `data` in lowercase hexadecimal.
pub fn sha256_hex(data: &[u8]) -> (hex: String)
    ensures
        hex@ == hex_lower(sha256_digest(data@)),
{
    let mut s = Sha256Stream::new();
    s.update(data);
    assert(s@ =~= data@);
    s.finish_hex()
}

/// Whether a computed checksum is the one on record.
pub fn checksum_matches(expected: &str, actual: &str) -> (r: bool)
    ensures
        r == (expected@ == actual@),
{
    str_eq(expected, actual)
}

/// The message for a downloaded file whose checksum is not the one on
/// record.
pub open spec fn mismatch_message(file: Seq<char>, expected: Seq<char>, actual: Seq<char>) -> Seq<
    char,
> {
    "checksum mismatch for "@ + file + ": expected "@ + expected + ", got "@ + actual
}

/// Checks a downloaded file's computed checksum against the one on record:
/// `None` when they agree, otherwise the error to report (the file is then
/// discarded).
pub fn checksum_mismatch(file: &str, expected: &str, actual: &str) -> (r: Option<String>)
    ensures
        r is None <==> expected@ == actual@,
        r matches Some(m) ==> m@ == mismatch_message(file@, expected@, actual@),
{
    if checksum_matches(expected, actual) {
        return None;
    }
    let mut out: Vec<char> = Vec::new();
    push_str(&mut out, "checksum mismatch for ");
    push_str(&mut out, file);
    push_str(&mut out, ": expected ");
    push_str(&mut out, expected);
    push_str(&mut out, ", got ");
    push_str(&mut out, actual);
    Some(string_of(&out))
}

} // verus!

//! A writer for the JKS ("Java KeyStore") binary format, limited to what a
//! truststore needs: trusted-certificate entries and the keyed integrity hash
//! that `sun.security.provider.JavaKeyStore` checks on load.
//!
//! Layout: magic `0xFEEDFEED`, version 2, entry count, then per entry the tag
//! 2, the alias in `writeUTF` form, an 8-byte timestamp, the certificate type
//! `"X.509"` in `writeUTF` form, the DER length and the DER bytes; finally
//! `SHA-1(UTF-16BE(password) || "Mighty Aphrodite" || body)`.

use sha1::Digest;
use vstd::prelude::*;

use crate::clock;

use crate::bytes::{append_bytes, be16, be32, be64, push_be16, push_be32, push_be64};


verus! {

pub const MAGIC: u32 = 0xFEED_FEED;

pub const VERSION: u32 = 2;

pub const TRUSTED_CERT_TAG: u32 = 2;

/// A certificate that the truststore trusts, under the alias it is listed by.
pub struct TrustedCertEntry<'a> {
    pub alias: &'a str,
    pub cert_der: &'a [u8],
}

/// Why a truststore could not be encoded.
#[derive(Debug, PartialEq, Eq, Structural)]
pub enum JksError {
    /// A string's modified UTF-8 form is longer than the 65535 bytes that a
    /// `writeUTF` length prefix can express.
    StringTooLong,
}

// ---------------------------------------------------------------------------
// Text encodings
// ---------------------------------------------------------------------------

/// The UTF-16 code units of one character.
pub open spec fn utf16_units(c: char) -> Seq<u16> {
    let v = c as u32;
    if v < 0x10000 {
        seq![v as u16]
    } else {
        let w = (v - 0x10000) as u32;
        seq![(0xD800 + w / 0x400) as u16, (0xDC00 + w % 0x400) as u16]
    }
}

/// The UTF-16 code units of a string (`str::encode_utf16`).
pub open spec fn encode_utf16(s: Seq<char>) -> Seq<u16>
    decreases s.len(),
{
    if s.len() == 0 {
        seq![]
    } else {
        encode_utf16(s.drop_last()) + utf16_units(s.last())
    }
}

/// Java's "modified UTF-8" encoding of one UTF-16 code unit: NUL takes two
/// bytes, and every unit (surrogate halves included) is encoded on its own.
pub open spec fn unit_mutf8(u: u16) -> Seq<u8> {
    if 0x0001 <= u && u <= 0x007F {
        seq![u as u8]
    } else if u == 0 || (0x0080 <= u && u <= 0x07FF) {
        seq![0xC0u8 | (((u >> 6u16) as u8) & 0x1Fu8), 0x80u8 | ((u as u8) & 0x3Fu8)]
    } else {
        seq![
            0xE0u8 | (((u >> 12u16) as u8) & 0x0Fu8),
            0x80u8 | (((u >> 6u16) as u8) & 0x3Fu8),
            0x80u8 | ((u as u8) & 0x3Fu8),
        ]
    }
}

/// Modified UTF-8 of a sequence of code units.
pub open spec fn units_mutf8(units: Seq<u16>) -> Seq<u8>
    decreases units.len(),
{
    if units.len() == 0 {
        seq![]
    } else {
        units_mutf8(units.drop_last()) + unit_mutf8(units.last())
    }
}

/// Modified UTF-8 of a string, as `DataOutputStream.writeUTF` writes it
/// after the length prefix.
pub open spec fn modified_utf8(s: Seq<char>) -> Seq<u8> {
    units_mutf8(encode_utf16(s))
}

/// Whether `writeUTF` can express `s`: its modified UTF-8 form fits a
/// two-byte length.
pub open spec fn fits_java_utf(s: Seq<char>) -> bool {
    modified_utf8(s).len() <= 0xFFFF
}

/// `writeUTF`'s output: a two-byte big-endian length, then the bytes.
pub open spec fn java_utf(s: Seq<char>) -> Seq<u8> {
    be16(modified_utf8(s).len() as u16) + modified_utf8(s)
}

/// The big-endian bytes of the UTF-16 code units of a string.
pub open spec fn utf16_be(s: Seq<char>) -> Seq<u8>
    decreases s.len(),
{
    if s.len() == 0 {
        seq![]
    } else {
        utf16_be(s.drop_last()) + units_be(utf16_units(s.last()))
    }
}

/// The big-endian bytes of a sequence of code units.
pub open spec fn units_be(units: Seq<u16>) -> Seq<u8>
    decreases units.len(),
{
    if units.len() == 0 {
        seq![]
    } else {
        units_be(units.drop_last()) + be16(units.last())
    }
}

// ---------------------------------------------------------------------------
// The keystore layout
// ---------------------------------------------------------------------------

/// An entry as the format sees it: alias and certificate DER.
pub open spec fn entry_view(e: TrustedCertEntry) -> (Seq<char>, Seq<u8>) {
    (e.alias@, e.cert_der@)
}

/// The entries as the format sees them.
pub open spec fn entries_view(entries: Seq<TrustedCertEntry>) -> Seq<(Seq<char>, Seq<u8>)> {
    entries.map_values(|e: TrustedCertEntry| entry_view(e))
}

/// The certificate type that every entry declares.
pub open spec fn x509_type() -> Seq<char> {
    seq!['X', '.', '5', '0', '9']
}

/// The bytes of one trusted-certificate entry written at `timestamp`.
pub open spec fn entry_bytes(alias: Seq<char>, der: Seq<u8>, timestamp: i64) -> Seq<u8> {
    be32(TRUSTED_CERT_TAG) + java_utf(alias) + be64(timestamp) + java_utf(x509_type()) + be32(
        der.len() as u32,
    ) + der
}

/// The bytes of a run of entries, or `None` when an alias cannot be written.
pub open spec fn entries_bytes(entries: Seq<(Seq<char>, Seq<u8>)>, timestamp: i64) -> Option<
    Seq<u8>,
>
    decreases entries.len(),
{
    if entries.len() == 0 {
        Some(seq![])
    } else {
        match entries_bytes(entries.drop_last(), timestamp) {
            Some(prefix) => {
                let (alias, der) = entries.last();
                if fits_java_utf(alias) {
                    Some(prefix + entry_bytes(alias, der, timestamp))
                } else {
                    None
                }
            },
            None => None,
        }
    }
}

/// The keystore body (everything the integrity hash covers), or `None` when
/// an alias is too long for `writeUTF`.
pub open spec fn jks_body(entries: Seq<(Seq<char>, Seq<u8>)>, timestamp: i64) -> Option<Seq<u8>> {
    match entries_bytes(entries, timestamp) {
        Some(rest) => Some(be32(MAGIC) + be32(VERSION) + be32(entries.len() as u32) + rest),
        None => None,
    }
}

/// The salt phrase of the JKS integrity hash, "Mighty Aphrodite" in ASCII.
pub open spec fn mighty_aphrodite() -> Seq<u8> {
    seq![77u8, 105, 103, 104, 116, 121, 32, 65, 112, 104, 114, 111, 100, 105, 116, 101]
}

/// The name of SHA-1 as the `sha1` crate computes it.
pub uninterp spec fn sha1_digest(data: Seq<u8>) -> Seq<u8>;

/// The JKS integrity hash of `body` under `password`.
pub open spec fn jks_keyed_hash(password: Seq<char>, body: Seq<u8>) -> Seq<u8> {
    sha1_digest(utf16_be(password) + mighty_aphrodite() + body)
}

/// A whole truststore file: body followed by its keyed hash.
pub open spec fn jks_file(entries: Seq<(Seq<char>, Seq<u8>)>, password: Seq<char>, timestamp: i64) -> Option<
    Seq<u8>,
> {
    match jks_body(entries, timestamp) {
        Some(body) => Some(body + jks_keyed_hash(password, body)),
        None => None,
    }
}

// ---------------------------------------------------------------------------
// Trusted call
// ---------------------------------------------------------------------------

/// Computes SHA-1 with `sha1::Sha1::digest`. Trusted: the result is taken to
/// be `sha1_digest` of the input, and to be the 20 bytes that SHA-1 always
/// produces.
#[verifier::external_body]
fn sha1(data: &[u8]) -> (digest: [u8; 20])
    ensures
        digest@ == sha1_digest(data@),
{
    sha1::Sha1::digest(data).into()
}

// ---------------------------------------------------------------------------
// Executable encoders
// ---------------------------------------------------------------------------

/// The UTF-16 code units of `c`, as `char::encode_utf16` gives them.
fn char_utf16(c: char) -> (units: (u16, Option<u16>))
    ensures
        units.1 is None ==> utf16_units(c) == seq![units.0],
        units.1 matches Some(lo) ==> utf16_units(c) == seq![units.0, lo],
{
    let v = c as u32;
    if v < 0x10000 {
        (v as u16, None)
    } else {
        let w = v - 0x10000;
        assert(w < 0x100000);
        ((0xD800 + w / 0x400) as u16, Some((0xDC00 + w % 0x400) as u16))
    }
}

/// Appends the modified UTF-8 bytes of one code unit.
fn push_unit_mutf8(out: &mut Vec<u8>, u: u16)
    ensures
        final(out)@ == old(out)@ + unit_mutf8(u),
{
    if 0x0001 <= u && u <= 0x007F {
        out.push(u as u8);
    } else if u == 0 || (0x0080 <= u && u <= 0x07FF) {
        out.push(0xC0u8 | (((u >> 6u16) as u8) & 0x1Fu8));
        out.push(0x80u8 | ((u as u8) & 0x3Fu8));
    } else {
        out.push(0xE0u8 | (((u >> 12u16) as u8) & 0x0Fu8));
        out.push(0x80u8 | (((u >> 6u16) as u8) & 0x3Fu8));
        out.push(0x80u8 | ((u as u8) & 0x3Fu8));
    }
}

proof fn lemma_units_mutf8_push(units: Seq<u16>, u: u16)
    ensures
        units_mutf8(units.push(u)) == units_mutf8(units) + unit_mutf8(u),
{
    assert(units.push(u).drop_last() == units);
}

proof fn lemma_units_be_push(units: Seq<u16>, u: u16)
    ensures
        units_be(units.push(u)) == units_be(units) + be16(u),
{
    assert(units.push(u).drop_last() == units);
}

proof fn lemma_units_mutf8_append(a: Seq<u16>, b: Seq<u16>)
    ensures
        units_mutf8(a + b) == units_mutf8(a) + units_mutf8(b),
    decreases b.len(),
{
    if b.len() == 0 {
        assert(a + b == a);
    } else {
        lemma_units_mutf8_append(a, b.drop_last());
        assert((a + b).drop_last() == a + b.drop_last());
    }
}

proof fn lemma_encode_utf16_push(s: Seq<char>, c: char)
    ensures
        encode_utf16(s.push(c)) == encode_utf16(s) + utf16_units(c),
{
    assert(s.push(c).drop_last() == s);
}

/// The modified UTF-8 bytes of `s`.
pub fn modified_utf8_bytes(s: &str) -> (res: Vec<u8>)
    ensures
        res@ == modified_utf8(s@),
{
    let mut encoded: Vec<u8> = Vec::new();
    for c in it: s.chars()
        invariant
            it.seq() == s@,
            encoded@ == modified_utf8(s@.take(it.index() as int)),
    {
        let ghost done = s@.take(it.index() as int);
        let ghost before = encoded@;
        let (hi, lo) = char_utf16(c);
        push_unit_mutf8(&mut encoded, hi);
        match lo {
            Some(l) => {
                push_unit_mutf8(&mut encoded, l);
            },
            None => {},
        }
        proof {
            assert(s@.take(it.index() + 1) == done.push(c));
            lemma_encode_utf16_push(done, c);
            lemma_units_mutf8_append(encode_utf16(done), utf16_units(c));
            match lo {
                Some(l) => {
                    assert(utf16_units(c) == seq![hi].push(l));
                    lemma_units_mutf8_push(seq![hi], l);
                    lemma_units_mutf8_push(Seq::<u16>::empty(), hi);
                    assert(Seq::<u16>::empty().push(hi) == seq![hi]);
                },
                None => {
                    lemma_units_mutf8_push(Seq::<u16>::empty(), hi);
                    assert(Seq::<u16>::empty().push(hi) == seq![hi]);
                },
            }
        }
    }
    proof {
        assert(s@.take(s@.len() as int) == s@);
    }
    encoded
}

/// Writes `s` as Java's `DataOutputStream.writeUTF` does: a two-byte
/// big-endian length of the encoded bytes, then the modified UTF-8 bytes.
/// Fails, leaving `out` unchanged, when the encoding exceeds 65535 bytes.
pub fn write_utf(out: &mut Vec<u8>, s: &str) -> (res: Result<(), JksError>)
    ensures
        fits_java_utf(s@) ==> res is Ok && final(out)@ == old(out)@ + java_utf(s@),
        !fits_java_utf(s@) ==> res == Err::<(), JksError>(JksError::StringTooLong) && final(out)@
            == old(out)@,
{
    let encoded = modified_utf8_bytes(s);
    if encoded.len() > 0xFFFF {
        return Err(JksError::StringTooLong);
    }
    push_be16(out, encoded.len() as u16);
    append_bytes(out, encoded.as_slice());
    Ok(())
}

proof fn lemma_x509_type_utf()
    ensures
        fits_java_utf(x509_type()),
        java_utf(x509_type()) == seq![0u8, 5, 88, 46, 53, 48, 57],
{
    let s = x509_type();
    reveal_with_fuel(encode_utf16, 6);
    assert(s.drop_last() == seq!['X', '.', '5', '0']);
    assert(s.drop_last().drop_last() == seq!['X', '.', '5']);
    assert(s.drop_last().drop_last().drop_last() == seq!['X', '.']);
    assert(s.drop_last().drop_last().drop_last().drop_last() == seq!['X']);
    assert(seq!['X'].drop_last() == Seq::<char>::empty());
    let units = encode_utf16(s);
    assert(units == seq![88u16, 46, 53, 48, 57]);
    reveal_with_fuel(units_mutf8, 6);
    assert(units.drop_last() == seq![88u16, 46, 53, 48]);
    assert(units.drop_last().drop_last() == seq![88u16, 46, 53]);
    assert(units.drop_last().drop_last().drop_last() == seq![88u16, 46]);
    assert(units.drop_last().drop_last().drop_last().drop_last() == seq![88u16]);
    assert(seq![88u16].drop_last() == Seq::<u16>::empty());
    assert(modified_utf8(s) == seq![88u8, 46, 53, 48, 57]);
    assert(be16(5u16) == seq![0u8, 5]) by (bit_vector);
}

/// Writes the certificate type of an entry, `writeUTF("X.509")`.
fn push_x509_type(out: &mut Vec<u8>)
    ensures
        final(out)@ == old(out)@ + java_utf(x509_type()),
{
    proof {
        lemma_x509_type_utf();
    }
    out.push(0u8);
    out.push(5u8);
    out.push(88u8);
    out.push(46u8);
    out.push(53u8);
    out.push(48u8);
    out.push(57u8);
}

/// Encodes the keystore body (magic, version, count, entries) with every
/// entry stamped with `timestamp` (milliseconds since the Unix epoch).
/// Fails exactly when some alias is too long for `writeUTF`.
pub fn encode_body_at(entries: &[TrustedCertEntry], timestamp: i64) -> (res: Result<Vec<u8>, JksError>)
    ensures
        jks_body(entries_view(entries@), timestamp) is Some <==> res is Ok,
        res matches Ok(body) ==> jks_body(entries_view(entries@), timestamp) == Some(body@),
        res matches Err(e) ==> e == JksError::StringTooLong,
{
    let ghost view = entries_view(entries@);
    let mut body: Vec<u8> = Vec::new();
    push_be32(&mut body, MAGIC);
    push_be32(&mut body, VERSION);
    push_be32(&mut body, entries.len() as u32);
    let ghost header = body@;
    assert(header == be32(MAGIC) + be32(VERSION) + be32(view.len() as u32));
    let n = entries.len();
    let mut i: usize = 0;
    while i < n
        invariant
            n == entries@.len(),
            view == entries_view(entries@),
            i <= n,
            entries_bytes(view.take(i as int), timestamp) matches Some(rest) && body@ == header
                + rest,
            header == be32(MAGIC) + be32(VERSION) + be32(view.len() as u32),
        decreases n - i,
    {
        let entry = &entries[i];
        let ghost prev = body@;
        push_be32(&mut body, TRUSTED_CERT_TAG);
        let r = write_utf(&mut body, entry.alias);
        assert(view.take(i + 1).drop_last() == view.take(i as int));
        assert(view.take(i + 1).last() == (entry.alias@, entry.cert_der@));
        if r.is_err() {
            proof {
                lemma_entries_bytes_none_extends(view, i as int + 1, timestamp);
            }
            return Err(JksError::StringTooLong);
        }
        push_be64(&mut body, timestamp);
        push_x509_type(&mut body);
        push_be32(&mut body, entry.cert_der.len() as u32);
        append_bytes(&mut body, entry.cert_der);
        i = i + 1;
        proof {
            let rest = entries_bytes(view.take(i - 1), timestamp).unwrap();
            assert(prev == header + rest);
            assert(body@ == header + (rest + entry_bytes(entry.alias@, entry.cert_der@, timestamp)));
        }
    }
    assert(view.take(n as int) == view);
    Ok(body)
}

/// Once an alias in the first `k` entries cannot be written, no longer run
/// of entries can be written either.
proof fn lemma_entries_bytes_none_extends(view: Seq<(Seq<char>, Seq<u8>)>, k: int, timestamp: i64)
    requires
        0 <= k <= view.len(),
        entries_bytes(view.take(k), timestamp) is None,
    ensures
        entries_bytes(view, timestamp) is None,
    decreases view.len() - k,
{
    if k < view.len() {
        assert(view.take(k + 1).drop_last() == view.take(k));
        lemma_entries_bytes_none_extends(view, k + 1, timestamp);
    } else {
        assert(view.take(k) == view);
    }
}

/// Encodes the keystore body with the current time as every entry's
/// timestamp.
pub fn encode_body(entries: &[TrustedCertEntry]) -> (res: Result<Vec<u8>, JksError>)
    ensures
        res is Ok <==> (forall|i: int|
            0 <= i < entries@.len() ==> #[trigger] fits_java_utf(entries@[i].alias@)),
        res matches Ok(body) ==> exists|timestamp: i64|
            timestamp >= 0 && jks_body(entries_view(entries@), timestamp) == Some(body@),
        res matches Err(e) ==> e == JksError::StringTooLong,
{
    let timestamp = clock::current_unix_millis();
    let res = encode_body_at(entries, timestamp);
    proof {
        lemma_entries_bytes_some_iff(entries_view(entries@), timestamp);
        assert forall|i: int| 0 <= i < entries@.len() implies #[trigger] fits_java_utf(
            entries@[i].alias@,
        ) == fits_java_utf(entries_view(entries@)[i].0) by {}
    }
    res
}

/// A run of entries can be written exactly when every alias fits `writeUTF`.
pub proof fn lemma_entries_bytes_some_iff(view: Seq<(Seq<char>, Seq<u8>)>, timestamp: i64)
    ensures
        entries_bytes(view, timestamp) is Some <==> (forall|i: int|
            0 <= i < view.len() ==> #[trigger] fits_java_utf(view[i].0)),
    decreases view.len(),
{
    if view.len() > 0 {
        lemma_entries_bytes_some_iff(view.drop_last(), timestamp);
        if entries_bytes(view, timestamp) is Some {
            assert forall|i: int| 0 <= i < view.len() implies #[trigger] fits_java_utf(view[i].0) by {
                if i < view.len() - 1 {
                    assert(view.drop_last()[i] == view[i]);
                }
            }
        } else if entries_bytes(view.drop_last(), timestamp) is None {
            let j = choose|j: int| 0 <= j < view.len() - 1 && !#[trigger] fits_java_utf(view.drop_last()[j].0);
            assert(view.drop_last()[j] == view[j]);
        } else {
            assert(!fits_java_utf(view[view.len() - 1].0));
        }
    }
}

/// The big-endian UTF-16 bytes of `s`, as `encode_utf16` then `to_be_bytes`.
pub fn utf16_be_bytes(s: &str) -> (res: Vec<u8>)
    ensures
        res@ == utf16_be(s@),
{
    let mut out: Vec<u8> = Vec::new();
    for c in it: s.chars()
        invariant
            it.seq() == s@,
            out@ == utf16_be(s@.take(it.index() as int)),
    {
        let ghost done = s@.take(it.index() as int);
        let (hi, lo) = char_utf16(c);
        push_be16(&mut out, hi);
        match lo {
            Some(l) => {
                push_be16(&mut out, l);
            },
            None => {},
        }
        proof {
            assert(s@.take(it.index() + 1) == done.push(c));
            assert(done.push(c).drop_last() == done);
            lemma_units_be_push(Seq::<u16>::empty(), hi);
            assert(Seq::<u16>::empty().push(hi) == seq![hi]);
            match lo {
                Some(l) => {
                    lemma_units_be_push(seq![hi], l);
                    assert(seq![hi].push(l) == utf16_units(c));
                },
                None => {},
            }
        }
    }
    proof {
        assert(s@.take(s@.len() as int) == s@);
    }
    out
}

/// The salt phrase "Mighty Aphrodite" as bytes.
fn mighty_aphrodite_bytes() -> (res: Vec<u8>)
    ensures
        res@ == mighty_aphrodite(),
{
    let res: Vec<u8> = vec![77u8, 105, 103, 104, 116, 121, 32, 65, 112, 104, 114, 111, 100, 105, 116, 101];
    assert(res@ == mighty_aphrodite());
    res
}

/// Reproduces `sun.security.provider.JavaKeyStore`'s integrity hash:
/// `SHA-1(UTF-16BE(password) || "Mighty Aphrodite" || body)`. The password
/// and the salt phrase are concatenated, not XORed.
pub fn keyed_hash(password: &str, body: &[u8]) -> (digest: [u8; 20])
    ensures
        digest@ == jks_keyed_hash(password@, body@),
{
    let mut data = utf16_be_bytes(password);
    let salt = mighty_aphrodite_bytes();
    append_bytes(&mut data, salt.as_slice());
    append_bytes(&mut data, body);
    sha1(data.as_slice())
}

/// The bytes of a truststore holding `entries`, each stamped with
/// `timestamp`, protected by `password`.
pub fn truststore_bytes_at(entries: &[TrustedCertEntry], password: &str, timestamp: i64) -> (res:
    Result<Vec<u8>, JksError>)
    ensures
        jks_file(entries_view(entries@), password@, timestamp) is Some <==> res is Ok,
        res matches Ok(file) ==> jks_file(entries_view(entries@), password@, timestamp) == Some(
            file@,
        ),
        res matches Err(e) ==> e == JksError::StringTooLong,
{
    let mut out = encode_body_at(entries, timestamp)?;
    let digest = keyed_hash(password, out.as_slice());
    append_bytes(&mut out, &digest);
    Ok(out)
}

/// The bytes of a truststore holding `entries`, stamped with the current
/// time, protected by `password`.
pub fn truststore_bytes(entries: &[TrustedCertEntry], password: &str) -> (res: Result<
    Vec<u8>,
    JksError,
>)
    ensures
        res is Ok <==> (forall|i: int|
            0 <= i < entries@.len() ==> #[trigger] fits_java_utf(entries@[i].alias@)),
        res matches Ok(file) ==> exists|timestamp: i64|
            timestamp >= 0 && jks_file(entries_view(entries@), password@, timestamp) == Some(
                file@,
            ),
        res matches Err(e) ==> e == JksError::StringTooLong,
{
    let timestamp = clock::current_unix_millis();
    let res = truststore_bytes_at(entries, password, timestamp);
    proof {
        lemma_entries_bytes_some_iff(entries_view(entries@), timestamp);
        assert forall|i: int| 0 <= i < entries@.len() implies #[trigger] fits_java_utf(
            entries@[i].alias@,
        ) == fits_java_utf(entries_view(entries@)[i].0) by {}
    }
    res
}

// ---------------------------------------------------------------------------
// Properties of the encoding
// ---------------------------------------------------------------------------

proof fn lemma_unit_mutf8_facts(u: u16)
    ensures
        1 <= unit_mutf8(u).len() <= 3,
        forall|j: int| 0 <= j < unit_mutf8(u).len() ==> #[trigger] unit_mutf8(u)[j] != 0u8,
        (1 <= u <= 0x7F) ==> unit_mutf8(u) == seq![u as u8],
{
    if 0x0001 <= u && u <= 0x007F {
        assert(u as u8 != 0u8) by (bit_vector)
            requires
                1 <= u <= 0x7F,
        ;
    } else if u == 0 || (0x0080 <= u && u <= 0x07FF) {
        assert(0xC0u8 | (((u >> 6u16) as u8) & 0x1Fu8) != 0u8) by (bit_vector);
        assert(0x80u8 | ((u as u8) & 0x3Fu8) != 0u8) by (bit_vector);
    } else {
        assert(0xE0u8 | (((u >> 12u16) as u8) & 0x0Fu8) != 0u8) by (bit_vector);
        assert(0x80u8 | (((u >> 6u16) as u8) & 0x3Fu8) != 0u8) by (bit_vector);
        assert(0x80u8 | ((u as u8) & 0x3Fu8) != 0u8) by (bit_vector);
    }
}

proof fn lemma_units_mutf8_facts(units: Seq<u16>)
    ensures
        units_mutf8(units).len() <= 3 * units.len(),
        forall|j: int| 0 <= j < units_mutf8(units).len() ==> #[trigger] units_mutf8(units)[j] != 0u8,
    decreases units.len(),
{
    if units.len() > 0 {
        lemma_units_mutf8_facts(units.drop_last());
        lemma_unit_mutf8_facts(units.last());
        let a = units_mutf8(units.drop_last());
        let b = unit_mutf8(units.last());
        assert forall|j: int| 0 <= j < (a + b).len() implies #[trigger] (a + b)[j] != 0u8 by {
            if j < a.len() {
                assert((a + b)[j] == a[j]);
            } else {
                assert((a + b)[j] == b[j - a.len()]);
            }
        }
    }
}

proof fn lemma_encode_utf16_len(s: Seq<char>)
    ensures
        encode_utf16(s).len() <= 2 * s.len(),
    decreases s.len(),
{
    if s.len() > 0 {
        lemma_encode_utf16_len(s.drop_last());
    }
}

/// Modified UTF-8 never contains a zero byte: NUL itself is written as the
/// two bytes `0xC0 0x80`.
pub proof fn lemma_modified_utf8_has_no_zero_byte(s: Seq<char>)
    ensures
        forall|j: int| 0 <= j < modified_utf8(s).len() ==> #[trigger] modified_utf8(s)[j] != 0u8,
{
    lemma_units_mutf8_facts(encode_utf16(s));
}

/// Every string of at most 10922 characters fits a `writeUTF` field: no
/// character takes more than six bytes.
pub proof fn lemma_short_strings_fit_java_utf(s: Seq<char>)
    requires
        s.len() <= 10922,
    ensures
        fits_java_utf(s),
{
    lemma_units_mutf8_facts(encode_utf16(s));
    lemma_encode_utf16_len(s);
}

/// A string of ASCII characters other than NUL is written byte for byte.
pub proof fn lemma_modified_utf8_of_plain_ascii(s: Seq<char>)
    requires
        forall|i: int| 0 <= i < s.len() ==> 1 <= #[trigger] (s[i] as u32) <= 0x7F,
    ensures
        modified_utf8(s) == s.map_values(|c: char| (c as u32) as u8),
    decreases s.len(),
{
    if s.len() > 0 {
        let init = s.drop_last();
        lemma_modified_utf8_of_plain_ascii(init);
        let c = s.last();
        assert(1 <= (s[s.len() - 1] as u32) <= 0x7F);
        assert(utf16_units(c) == seq![(c as u32) as u16]);
        lemma_encode_utf16_push(init, c);
        assert(init.push(c) == s);
        lemma_units_mutf8_append(encode_utf16(init), utf16_units(c));
        lemma_units_mutf8_push(Seq::<u16>::empty(), (c as u32) as u16);
        assert(Seq::<u16>::empty().push((c as u32) as u16) == seq![(c as u32) as u16]);
        lemma_unit_mutf8_facts((c as u32) as u16);
        assert(((c as u32) as u16) as u8 == (c as u32) as u8);
        assert(s.map_values(|c: char| (c as u32) as u8) == init.map_values(
            |c: char| (c as u32) as u8,
        ).push((c as u32) as u8));
    }
}

/// Every truststore starts with the magic number `FE ED FE ED`, then format
/// version 2, then the number of entries.
pub proof fn lemma_truststore_header(
    entries: Seq<(Seq<char>, Seq<u8>)>,
    password: Seq<char>,
    timestamp: i64,
)
    requires
        jks_file(entries, password, timestamp) is Some,
    ensures
        jks_file(entries, password, timestamp).unwrap().take(12) == seq![0xFEu8, 0xED, 0xFE, 0xED]
            + seq![0u8, 0, 0, 2] + be32(entries.len() as u32),
{
    let body = jks_body(entries, timestamp).unwrap();
    let file = jks_file(entries, password, timestamp).unwrap();
    assert(be32(MAGIC) == seq![0xFEu8, 0xED, 0xFE, 0xED]) by {
        assert((0xFEED_FEEDu32 >> 24u32) as u8 == 0xFEu8) by (bit_vector);
        assert((0xFEED_FEEDu32 >> 16u32) as u8 == 0xEDu8) by (bit_vector);
        assert((0xFEED_FEEDu32 >> 8u32) as u8 == 0xFEu8) by (bit_vector);
        assert(0xFEED_FEEDu32 as u8 == 0xEDu8) by (bit_vector);
    }
    assert(be32(VERSION) == seq![0u8, 0, 0, 2]) by {
        assert((2u32 >> 24u32) as u8 == 0u8) by (bit_vector);
        assert((2u32 >> 16u32) as u8 == 0u8) by (bit_vector);
        assert((2u32 >> 8u32) as u8 == 0u8) by (bit_vector);
    }
    assert(file.take(12) == body.take(12));
}

/// The value of a four-byte big-endian unsigned field.
pub open spec fn be32_value(field: Seq<u8>) -> int {
    field[0] * 0x100_0000 + field[1] * 0x1_0000 + field[2] * 0x100 + field[3]
}

proof fn lemma_be32_value(x: u32)
    ensures
        be32(x).len() == 4,
        be32_value(be32(x)) == x,
{
    let b0 = (x >> 24u32) as u8;
    let b1 = (x >> 16u32) as u8;
    let b2 = (x >> 8u32) as u8;
    let b3 = x as u8;
    assert((b0 as u32) * 0x100_0000u32 + (b1 as u32) * 0x1_0000u32 + (b2 as u32) * 0x100u32
        + (b3 as u32) == x) by (bit_vector)
        requires
            b0 == (x >> 24u32) as u8,
            b1 == (x >> 16u32) as u8,
            b2 == (x >> 8u32) as u8,
            b3 == x as u8,
    ;
}

/// The bytes of a prefix of the entries are a prefix of the bytes of all of
/// them.
proof fn lemma_entries_bytes_prefix(entries: Seq<(Seq<char>, Seq<u8>)>, timestamp: i64, j: int)
    requires
        0 <= j <= entries.len(),
        entries_bytes(entries, timestamp) is Some,
    ensures
        entries_bytes(entries.take(j), timestamp) is Some,
        entries_bytes(entries.take(j), timestamp).unwrap().len() <= entries_bytes(
            entries,
            timestamp,
        ).unwrap().len(),
        entries_bytes(entries, timestamp).unwrap().take(
            entries_bytes(entries.take(j), timestamp).unwrap().len() as int,
        ) == entries_bytes(entries.take(j), timestamp).unwrap(),
    decreases entries.len() - j,
{
    if j == entries.len() {
        assert(entries.take(j) == entries);
        let w = entries_bytes(entries, timestamp).unwrap();
        assert(w.take(w.len() as int) == w);
    } else {
        lemma_entries_bytes_prefix(entries, timestamp, j + 1);
        let longer = entries.take(j + 1);
        assert(longer.drop_last() == entries.take(j));
        let p1 = entries_bytes(longer, timestamp).unwrap();
        let p0 = entries_bytes(entries.take(j), timestamp).unwrap();
        let w = entries_bytes(entries, timestamp).unwrap();
        assert(p1.take(p0.len() as int) == p0);
        assert(w.take(p0.len() as int) == p1.take(p0.len() as int));
    }
}

/// The last bytes of one entry: its certificate's length field, then the
/// certificate.
proof fn lemma_entry_tail(alias: Seq<char>, der: Seq<u8>, timestamp: i64)
    requires
        der.len() < 0x1_0000_0000,
    ensures
        ({
            let e = entry_bytes(alias, der, timestamp);
            &&& der.len() + 4 <= e.len()
            &&& be32_value(e.subrange(e.len() - der.len() - 4, e.len() - der.len())) == der.len()
            &&& e.subrange(e.len() - der.len(), e.len() as int) == der
        }),
{
    let e = entry_bytes(alias, der, timestamp);
    let head = be32(TRUSTED_CERT_TAG) + java_utf(alias) + be64(timestamp) + java_utf(x509_type());
    let lf = be32(der.len() as u32);
    assert(e == head + lf + der);
    lemma_be32_value(der.len() as u32);
    assert((der.len() as u32) as int == der.len());
    assert(e.subrange(e.len() - der.len() - 4, e.len() - der.len()) =~= lf);
    assert(e.subrange(e.len() - der.len(), e.len() as int) =~= der);
}

/// A window inside a prefix reads the same in the whole sequence.
proof fn lemma_window_of_prefix(whole: Seq<u8>, part: Seq<u8>, off: int, i: int, j: int)
    requires
        0 <= off,
        off + part.len() <= whole.len(),
        whole.subrange(off, off + part.len()) == part,
        0 <= i <= j <= part.len(),
    ensures
        whole.subrange(off + i, off + j) == part.subrange(i, j),
{
    assert(whole.subrange(off + i, off + j) =~= whole.subrange(off, off + part.len()).subrange(i, j));
}

/// A window at the end of a sequence is the same window at the end of its
/// last part.
proof fn lemma_window_of_suffix(prev: Seq<u8>, e: Seq<u8>, i: int, j: int)
    requires
        0 <= i <= j <= e.len(),
    ensures
        (prev + e).subrange(prev.len() + i, prev.len() + j) == e.subrange(i, j),
{
    assert((prev + e).subrange(prev.len() + i, prev.len() + j) =~= e.subrange(i, j));
}

/// In every written truststore body, the four bytes just before each
/// entry's certificate hold the certificate's full length, big-endian, and
/// the certificate's DER bytes follow unchanged: reading the length field
/// back gives `der.len()` for every certificate shorter than 2^32 bytes.
/// The entry ends `12 + entries_bytes(entries.take(k + 1)).len()` bytes into
/// the body.
pub proof fn lemma_certificate_length_field(
    entries: Seq<(Seq<char>, Seq<u8>)>,
    timestamp: i64,
    k: int,
)
    requires
        0 <= k < entries.len(),
        jks_body(entries, timestamp) is Some,
        entries[k].1.len() < 0x1_0000_0000,
    ensures
        ({
            let body = jks_body(entries, timestamp).unwrap();
            let der = entries[k].1;
            let end = 12 + entries_bytes(entries.take(k + 1), timestamp).unwrap().len() as int;
            &&& der.len() + 4 <= end <= body.len()
            &&& be32_value(body.subrange(end - der.len() - 4, end - der.len())) == der.len()
            &&& body.subrange(end - der.len(), end) == der
        }),
{
    let body = jks_body(entries, timestamp).unwrap();
    let rest = entries_bytes(entries, timestamp).unwrap();
    let der = entries[k].1;
    lemma_entries_bytes_prefix(entries, timestamp, k + 1);
    let upto = entries.take(k + 1);
    assert(upto.drop_last() == entries.take(k));
    assert(upto.last() == entries[k]);
    let part = entries_bytes(upto, timestamp).unwrap();
    let prev = entries_bytes(entries.take(k), timestamp).unwrap();
    let (alias, d) = entries[k];
    let e = entry_bytes(alias, d, timestamp);
    assert(part == prev + e);
    lemma_entry_tail(alias, d, timestamp);
    let header = be32(MAGIC) + be32(VERSION) + be32(entries.len() as u32);
    assert(body == header + rest);
    assert(header.len() == 12);
    let pl = part.len() as int;
    let end = 12 + pl;
    assert(rest.take(pl) == part);
    assert(body.subrange(12, 12 + pl) =~= part);
    lemma_window_of_suffix(prev, e, e.len() - d.len() - 4, e.len() - d.len());
    lemma_window_of_suffix(prev, e, e.len() - d.len(), e.len() as int);
    lemma_window_of_prefix(body, part, 12, pl - d.len() - 4, pl - d.len());
    lemma_window_of_prefix(body, part, 12, pl - d.len(), pl);
}

} // verus!

//! Checksums of ROM data and how they are compared with what a DAT expects.

use crate::config::HashAlgorithm;
use crate::crc32::{be_bytes, crc32_of, Crc32};
use crate::hex::{hex_bytes, lemma_hex_bytes_len, to_hex};
use crate::model::{Header, Rom, Rule};
use crate::text::{chars_of, has_prefix, lower, starts_with, string_of, to_lower};
use digest::Digest;
use vstd::prelude::*;

verus! {

/// The MD5 digest of `data` as `md5::Md5` computes it.
pub uninterp spec fn md5_of(data: Seq<u8>) -> Seq<u8>;

/// The SHA-1 digest of `data` as `sha1::Sha1` computes it.
pub uninterp spec fn sha1_of(data: Seq<u8>) -> Seq<u8>;

/// `<md5::Md5 as Digest>::digest`: the MD5 digest of `data`, 16 bytes long.
#[verifier::external_body]
fn md5_digest(data: &[u8]) -> (d: Vec<u8>)
    ensures
        d@ == md5_of(data@),
        d@.len() == 16,
{
    md5::Md5::digest(data).to_vec()
}

/// `<sha1::Sha1 as Digest>::digest`: the SHA-1 digest of `data`, 20 bytes
/// long. The crate counts the bits hashed in a `u64`, with unchecked
/// arithmetic, hence the bound.
#[verifier::external_body]
fn sha1_digest(data: &[u8]) -> (d: Vec<u8>)
    requires
        8 * data@.len() <= u64::MAX,
    ensures
        d@ == sha1_of(data@),
        d@.len() == 20,
{
    sha1::Sha1::digest(data).to_vec()
}

// === streaming MD5 and SHA-1 ===

/// An MD5 hasher of the md-5 crate. Verus cannot take a declaration of
/// `md5::Md5` (an alias of digest's `CoreWrapper`, whose bounds are typenum
/// numbers), so the hasher is held whole; [`md5_fed`] names what it was fed.
#[verifier::external_body]
pub struct Md5Hasher {
    inner: md5::Md5,
}

/// A SHA-1 hasher of the sha1 crate, held whole for the same reason as
/// [`Md5Hasher`]; [`sha1_fed`] names what it was fed.
#[verifier::external_body]
pub struct Sha1Hasher {
    inner: sha1::Sha1,
}

/// The bytes an MD5 hasher has been fed since it was created.
pub uninterp spec fn md5_fed(h: Md5Hasher) -> Seq<u8>;

/// The bytes a SHA-1 hasher has been fed since it was created.
pub uninterp spec fn sha1_fed(h: Sha1Hasher) -> Seq<u8>;

/// `<md5::Md5 as Digest>::new`: a hasher that has been fed nothing.
#[verifier::external_body]
fn md5_new() -> (h: Md5Hasher)
    ensures
        md5_fed(h) == Seq::<u8>::empty(),
{
    Md5Hasher { inner: md5::Md5::new() }
}

/// `<md5::Md5 as Digest>::update`: appends `data` to what the hasher was fed.
/// The crate counts blocks with wrapping arithmetic, so any length goes.
#[verifier::external_body]
fn md5_update(h: &mut Md5Hasher, data: &[u8])
    ensures
        md5_fed(*final(h)) == md5_fed(*old(h)) + data@,
{
    h.inner.update(data)
}

/// `<md5::Md5 as Digest>::finalize`: the MD5 digest of everything fed, 16
/// bytes long, the same as [`md5_digest`] of those bytes in one piece.
#[verifier::external_body]
fn md5_finalize(h: Md5Hasher) -> (d: Vec<u8>)
    ensures
        d@ == md5_of(md5_fed(h)),
        d@.len() == 16,
{
    h.inner.finalize().to_vec()
}

/// `<sha1::Sha1 as Digest>::new`: a hasher that has been fed nothing.
#[verifier::external_body]
fn sha1_new() -> (h: Sha1Hasher)
    ensures
        sha1_fed(h) == Seq::<u8>::empty(),
{
    Sha1Hasher { inner: sha1::Sha1::new() }
}

/// `<sha1::Sha1 as Digest>::update`: appends `data` to what the hasher was
/// fed. The crate counts blocks and bits in `u64`s with unchecked
/// arithmetic, hence the bound.
#[verifier::external_body]
fn sha1_update(h: &mut Sha1Hasher, data: &[u8])
    requires
        8 * (sha1_fed(*old(h)).len() + data@.len()) <= u64::MAX,
    ensures
        sha1_fed(*final(h)) == sha1_fed(*old(h)) + data@,
{
    h.inner.update(data)
}

/// `<sha1::Sha1 as Digest>::finalize`: the SHA-1 digest of everything fed,
/// 20 bytes long, the same as [`sha1_digest`] of those bytes in one piece.
#[verifier::external_body]
fn sha1_finalize(h: Sha1Hasher) -> (d: Vec<u8>)
    requires
        8 * sha1_fed(h).len() <= u64::MAX,
    ensures
        d@ == sha1_of(sha1_fed(h)),
        d@.len() == 20,
{
    h.inner.finalize().to_vec()
}

/// A streaming MD5 digest; its view is the bytes fed so far.
pub struct Md5Digest {
    hasher: Md5Hasher,
}

impl View for Md5Digest {
    type V = Seq<u8>;

    closed spec fn view(&self) -> Seq<u8> {
        md5_fed(self.hasher)
    }
}

impl Md5Digest {
    /// A digest that has seen nothing.
    pub fn new() -> (d: Self)
        ensures
            d@ == Seq::<u8>::empty(),
    {
        Md5Digest { hasher: md5_new() }
    }

    /// Feed `data` to the digest.
    pub fn update(&mut self, data: &[u8])
        ensures
            final(self)@ == old(self)@ + data@,
    {
        md5_update(&mut self.hasher, data);
    }

    /// The MD5 digest of everything fed, 16 bytes.
    pub fn finalize(self) -> (d: Vec<u8>)
        ensures
            d@ == md5_of(self@),
            d@.len() == 16,
    {
        md5_finalize(self.hasher)
    }
}

/// A streaming SHA-1 digest; its view is the bytes fed so far.
pub struct Sha1Digest {
    hasher: Sha1Hasher,
}

impl View for Sha1Digest {
    type V = Seq<u8>;

    closed spec fn view(&self) -> Seq<u8> {
        sha1_fed(self.hasher)
    }
}

impl Sha1Digest {
    /// A digest that has seen nothing.
    pub fn new() -> (d: Self)
        ensures
            d@ == Seq::<u8>::empty(),
    {
        Sha1Digest { hasher: sha1_new() }
    }

    /// Feed `data` to the digest; at most `u64::MAX / 8` bytes in all.
    pub fn update(&mut self, data: &[u8])
        requires
            8 * (old(self)@.len() + data@.len()) <= u64::MAX,
        ensures
            final(self)@ == old(self)@ + data@,
    {
        sha1_update(&mut self.hasher, data);
    }

    /// The SHA-1 digest of everything fed, 20 bytes.
    pub fn finalize(self) -> (d: Vec<u8>)
        requires
            8 * self@.len() <= u64::MAX,
        ensures
            d@ == sha1_of(self@),
            d@.len() == 20,
    {
        sha1_finalize(self.hasher)
    }
}

/// The digest bytes of `data` under `algorithm`.
pub open spec fn digest_spec(data: Seq<u8>, algorithm: HashAlgorithm) -> Seq<u8> {
    match algorithm {
        HashAlgorithm::Crc => be_bytes(crc32_of(data)),
        HashAlgorithm::Md5 => md5_of(data),
        HashAlgorithm::Sha1 => sha1_of(data),
    }
}

/// How many hex digits a checksum has under `algorithm`.
pub open spec fn digest_hex_len(algorithm: HashAlgorithm) -> nat {
    match algorithm {
        HashAlgorithm::Crc => 8,
        HashAlgorithm::Md5 => 32,
        HashAlgorithm::Sha1 => 40,
    }
}

/// The checksum of `data` under `algorithm`, in lowercase hex: 8 digits for
/// CRC-32, 32 for MD5, 40 for SHA-1.
pub fn hash_bytes(data: &[u8], algorithm: HashAlgorithm) -> (h: String)
    requires
        algorithm == HashAlgorithm::Sha1 ==> 8 * data@.len() <= u64::MAX,
    ensures
        h@ == hex_bytes(digest_spec(data@, algorithm)),
        h@.len() == digest_hex_len(algorithm),
{
    let digest: Vec<u8> = match algorithm {
        HashAlgorithm::Crc => {
            let mut crc = Crc32::new();
            let n = data.len();
            assert(n <= u64::MAX);
            crc.update(data);
            let out = crc.finalize();
            vstd::slice::slice_to_vec(out.as_slice())
        },
        HashAlgorithm::Md5 => md5_digest(data),
        HashAlgorithm::Sha1 => sha1_digest(data),
    };
    proof {
        lemma_hex_bytes_len(digest@);
    }
    string_of(&to_hex(&digest))
}

/// The digest a [`HashStream`] feeds.
enum Feeder {
    Crc(Crc32),
    Md5(Md5Digest),
    Sha1(Sha1Digest),
}

/// A checksum taken of data that arrives a chunk at a time, with the number
/// of bytes taken; the data itself is not kept.
pub struct HashStream {
    feeder: Feeder,
    size: u64,
}

impl HashStream {
    /// The algorithm the stream hashes with.
    pub closed spec fn algorithm(&self) -> HashAlgorithm {
        match self.feeder {
            Feeder::Crc(_) => HashAlgorithm::Crc,
            Feeder::Md5(_) => HashAlgorithm::Md5,
            Feeder::Sha1(_) => HashAlgorithm::Sha1,
        }
    }

    /// The bytes fed so far.
    pub closed spec fn fed(&self) -> Seq<u8> {
        match self.feeder {
            Feeder::Crc(d) => d@,
            Feeder::Md5(d) => d@,
            Feeder::Sha1(d) => d@,
        }
    }

    /// The byte count kept is that of the bytes fed, which stay within what
    /// every digest can count.
    pub closed spec fn wf(&self) -> bool {
        &&& self.size == self.fed().len()
        &&& 8 * self.fed().len() <= u64::MAX
    }

    /// A stream that has been fed nothing.
    pub fn new(algorithm: HashAlgorithm) -> (s: Self)
        ensures
            s.wf(),
            s.algorithm() == algorithm,
            s.fed() == Seq::<u8>::empty(),
    {
        let feeder = match algorithm {
            HashAlgorithm::Crc => Feeder::Crc(Crc32::new()),
            HashAlgorithm::Md5 => Feeder::Md5(Md5Digest::new()),
            HashAlgorithm::Sha1 => Feeder::Sha1(Sha1Digest::new()),
        };
        HashStream { feeder, size: 0 }
    }

    /// Whether `n` more bytes can be fed: the total stays within
    /// `u64::MAX / 8`.
    pub fn can_take(&self, n: usize) -> (b: bool)
        requires
            self.wf(),
        ensures
            b == (8 * (self.fed().len() + n) <= u64::MAX),
    {
        let limit: u64 = u64::MAX / 8;
        (n as u64) <= limit - self.size
    }

    /// Feed `data`.
    pub fn update(&mut self, data: &[u8])
        requires
            old(self).wf(),
            8 * (old(self).fed().len() + data@.len()) <= u64::MAX,
        ensures
            final(self).wf(),
            final(self).algorithm() == old(self).algorithm(),
            final(self).fed() == old(self).fed() + data@,
    {
        match &mut self.feeder {
            Feeder::Crc(d) => d.update(data),
            Feeder::Md5(d) => d.update(data),
            Feeder::Sha1(d) => d.update(data),
        }
        self.size = self.size + data.len() as u64;
    }

    /// The lowercase hex checksum of everything fed, and how many bytes that
    /// was.
    pub fn finish(self) -> (r: (String, u64))
        requires
            self.wf(),
        ensures
            r.0@ == hex_bytes(digest_spec(self.fed(), self.algorithm())),
            r.0@.len() == digest_hex_len(self.algorithm()),
            r.1 == self.fed().len(),
    {
        let size = self.size;
        let digest: Vec<u8> = match self.feeder {
            Feeder::Crc(d) => {
                let out = d.finalize();
                vstd::slice::slice_to_vec(out.as_slice())
            },
            Feeder::Md5(d) => d.finalize(),
            Feeder::Sha1(d) => d.finalize(),
        };
        proof {
            lemma_hex_bytes_len(digest@);
        }
        (string_of(&to_hex(&digest)), size)
    }
}

/// The lowercase hex text of a finished digest.
pub fn digest_hex(digest: &[u8]) -> (h: String)
    ensures
        h@ == hex_bytes(digest@),
{
    string_of(&to_hex(digest))
}

/// The algorithm a ROM is verified with: the first checksum its DAT gives, in
/// the order CRC-32, MD5, SHA-1.
pub open spec fn hash_algorithm_of(rom: Rom) -> Option<HashAlgorithm> {
    if rom.crc is Some {
        Some(HashAlgorithm::Crc)
    } else if rom.md5 is Some {
        Some(HashAlgorithm::Md5)
    } else if rom.sha1 is Some {
        Some(HashAlgorithm::Sha1)
    } else {
        None
    }
}

/// Why a file does not match what the database expects.
#[derive(Clone, Copy, Debug, PartialEq, Eq, Structural)]
pub enum CheckError {
    /// The ROM has no checksum at all.
    NoChecksum,
    /// The file's size differs from the ROM's.
    SizeMismatch,
    /// The file's checksum differs from the ROM's.
    ChecksumMismatch,
}

/// The algorithm to verify `rom` with, picked from whichever checksum the
/// database holds for it.
pub fn get_hash_algorithm(rom: &Rom) -> (r: Result<HashAlgorithm, CheckError>)
    ensures
        match hash_algorithm_of(*rom) {
            Some(a) => r == Ok::<HashAlgorithm, CheckError>(a),
            None => r == Err::<HashAlgorithm, CheckError>(CheckError::NoChecksum),
        },
{
    if rom.crc.is_some() {
        Ok(HashAlgorithm::Crc)
    } else if rom.md5.is_some() {
        Ok(HashAlgorithm::Md5)
    } else if rom.sha1.is_some() {
        Ok(HashAlgorithm::Sha1)
    } else {
        Err(CheckError::NoChecksum)
    }
}

/// The checksum the database expects of `rom` under `algorithm`.
pub open spec fn expected_checksum(rom: Rom, algorithm: HashAlgorithm) -> Option<String> {
    match algorithm {
        HashAlgorithm::Crc => rom.crc,
        HashAlgorithm::Md5 => rom.md5,
        HashAlgorithm::Sha1 => rom.sha1,
    }
}

/// How a computed checksum and size compare with `rom`: a known size must
/// match, and then the checksum must equal the expected one.
pub open spec fn comparison(rom: Rom, hash: Seq<char>, size: u64, algorithm: HashAlgorithm) -> Result<(), CheckError> {
    if rom.size > 0 && size != rom.size as u64 {
        Err(CheckError::SizeMismatch)
    } else {
        match expected_checksum(rom, algorithm) {
            Some(e) => if e@ == hash {
                Ok(())
            } else {
                Err(CheckError::ChecksumMismatch)
            },
            None => Err(CheckError::ChecksumMismatch),
        }
    }
}

/// A file passes under an algorithm exactly when the ROM's size is unknown
/// or agrees, and the ROM has a checksum of that same algorithm equal to the
/// file's; its checksums of the other algorithms play no part.
pub proof fn lemma_compared_by_the_same_algorithm(rom: Rom, hash: Seq<char>, size: u64)
    ensures
        comparison(rom, hash, size, HashAlgorithm::Crc) is Ok <==> ((rom.size <= 0 || size == rom.size as u64)
            && (rom.crc matches Some(c) && c@ == hash)),
        comparison(rom, hash, size, HashAlgorithm::Md5) is Ok <==> ((rom.size <= 0 || size == rom.size as u64)
            && (rom.md5 matches Some(m) && m@ == hash)),
        comparison(rom, hash, size, HashAlgorithm::Sha1) is Ok <==> ((rom.size <= 0 || size == rom.size as u64)
            && (rom.sha1 matches Some(h) && h@ == hash)),
{
}

/// Compare a computed hash and size against what the database expects of `rom`.
pub fn compare_hash_and_size(rom: &Rom, hash: &str, size: u64, algorithm: HashAlgorithm) -> (r: Result<(), CheckError>)
    ensures
        r == comparison(*rom, hash@, size, algorithm),
{
    if rom.size > 0 && size != rom.size as u64 {
        return Err(CheckError::SizeMismatch);
    }
    let expected = match algorithm {
        HashAlgorithm::Crc => &rom.crc,
        HashAlgorithm::Md5 => &rom.md5,
        HashAlgorithm::Sha1 => &rom.sha1,
    };
    match expected {
        Some(e) => {
            if crate::text::same(&chars_of(e.as_str()), &chars_of(hash)) {
                Ok(())
            } else {
                Err(CheckError::ChecksumMismatch)
            }
        },
        None => Err(CheckError::ChecksumMismatch),
    }
}

/// Every rule of a header holds of the bytes read from the start of a file:
/// the hex text of the bytes from the rule's offset on begins with the
/// rule's value, whatever its case.
pub open spec fn rules_hold(buffer: Seq<u8>, rules: Seq<Rule>) -> bool {
    forall|i: int|
        0 <= i < rules.len() ==> has_prefix(
            hex_bytes(buffer.skip(#[trigger] rules[i].start_byte as int)),
            lower(rules[i].hex_value@),
        )
}

/// Each rule looks inside what was read.
pub open spec fn rules_in_range(buffer: Seq<u8>, rules: Seq<Rule>) -> bool {
    forall|i: int| 0 <= i < rules.len() ==> 0 <= #[trigger] rules[i].start_byte <= buffer.len()
}

/// How many bytes of header a file starts with: the header's size when every
/// rule holds of the bytes read (up to that size) from the file's start,
/// else none.
pub fn header_size(buffer: &[u8], header: &Header, rules: &Vec<Rule>) -> (n: u64)
    requires
        rules_in_range(buffer@, rules@),
        header.size >= 0,
    ensures
        n == (if rules_hold(buffer@, rules@) {
            header.size as u64
        } else {
            0
        }),
{
    let mut i: usize = 0;
    while i < rules.len()
        invariant
            i <= rules@.len(),
            rules_in_range(buffer@, rules@),
            forall|j: int|
                0 <= j < i ==> has_prefix(
                    hex_bytes(buffer@.skip(#[trigger] rules@[j].start_byte as int)),
                    lower(rules@[j].hex_value@),
                ),
        decreases rules.len() - i,
    {
        let rule = &rules[i];
        let start = rule.start_byte as usize;
        assert(0 <= rules@[i as int].start_byte <= buffer@.len());
        let hex = to_hex(&buffer[start..buffer.len()]);
        let wanted = to_lower(&chars_of(rule.hex_value.as_str()));
        assert(buffer@.subrange(start as int, buffer@.len() as int) =~= buffer@.skip(
            rules@[i as int].start_byte as int,
        ));
        if !starts_with(&hex, &wanted) {
            return 0;
        }
        i += 1;
    }
    header.size as u64
}

} // verus!

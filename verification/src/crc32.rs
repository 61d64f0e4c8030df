//! CRC-32 (IEEE) checksums, computed by `crc32fast`.

use crc32fast::Hasher;
use vstd::prelude::*;

verus! {

/// The hasher type of `crc32fast`, carried through opaquely.
#[verifier::external_type_specification]
#[verifier::external_body]
pub struct ExHasher(Hasher);

/// The bytes a `crc32fast::Hasher` has been fed since it was created or last reset.
pub uninterp spec fn hasher_input(hasher: Hasher) -> Seq<u8>;

/// One step of the reflected CRC-32 register with the IEEE polynomial.
pub open spec fn crc32_shift(c: u32) -> u32 {
    if c & 1u32 == 1u32 {
        (c >> 1u32) ^ 0xEDB8_8320u32
    } else {
        c >> 1u32
    }
}

/// The register after taking in one byte, low bit first.
pub open spec fn crc32_byte(c: u32, b: u8) -> u32 {
    let x = c ^ (b as u32);
    crc32_shift(crc32_shift(crc32_shift(crc32_shift(
        crc32_shift(crc32_shift(crc32_shift(crc32_shift(x))))))))
}

/// The register after taking in `data`, first byte first.
pub open spec fn crc32_register(c: u32, data: Seq<u8>) -> u32
    decreases data.len(),
{
    if data.len() == 0 {
        c
    } else {
        crc32_register(crc32_byte(c, data[0]), data.drop_first())
    }
}

/// CRC-32 (IEEE 802.3): register preset to all ones, result inverted.
pub open spec fn crc32_of(data: Seq<u8>) -> u32 {
    !crc32_register(0xFFFF_FFFFu32, data)
}

/// `crc32fast::Hasher::new`: a hasher that has seen no bytes.
#[verifier::external_body]
fn hasher_new() -> (hasher: Hasher)
    ensures
        hasher_input(hasher) == Seq::<u8>::empty(),
{
    Hasher::new()
}

/// `crc32fast::Hasher::update`: appends `data` to what the hasher has seen.
/// Its byte counter is a `u64`, hence the bound.
#[verifier::external_body]
fn hasher_update(hasher: &mut Hasher, data: &[u8])
    requires
        hasher_input(*old(hasher)).len() + data@.len() <= u64::MAX,
    ensures
        hasher_input(*final(hasher)) == hasher_input(*old(hasher)) + data@,
{
    hasher.update(data)
}

/// `crc32fast::Hasher::reset`: forgets every byte seen so far.
#[verifier::external_body]
fn hasher_reset(hasher: &mut Hasher)
    ensures
        hasher_input(*final(hasher)) == Seq::<u8>::empty(),
{
    hasher.reset()
}

/// `crc32fast::Hasher::finalize`: the CRC-32 (IEEE) of every byte seen.
#[verifier::external_body]
fn hasher_finalize(hasher: Hasher) -> (crc: u32)
    ensures
        crc == crc32_of(hasher_input(hasher)),
{
    hasher.finalize()
}

/// The four bytes of `value`, most significant first.
pub open spec fn be_bytes(value: u32) -> Seq<u8> {
    seq![
        (value >> 24u32) as u8,
        ((value >> 16u32) & 0xffu32) as u8,
        ((value >> 8u32) & 0xffu32) as u8,
        (value & 0xffu32) as u8,
    ]
}

/// A streaming CRC-32 digest; its view is the bytes fed so far.
pub struct Crc32 {
    hasher: Hasher,
}

impl View for Crc32 {
    type V = Seq<u8>;

    closed spec fn view(&self) -> Seq<u8> {
        hasher_input(self.hasher)
    }
}

impl Crc32 {
    /// A digest that has seen nothing.
    pub fn new() -> (digest: Self)
        ensures
            digest@ == Seq::<u8>::empty(),
    {
        Crc32 { hasher: hasher_new() }
    }

    /// Feed `data` to the digest.
    pub fn update(&mut self, data: &[u8])
        requires
            old(self)@.len() + data@.len() <= u64::MAX,
        ensures
            final(self)@ == old(self)@ + data@,
    {
        hasher_update(&mut self.hasher, data);
    }

    /// Forget everything fed so far.
    pub fn reset(&mut self)
        ensures
            final(self)@ == Seq::<u8>::empty(),
    {
        hasher_reset(&mut self.hasher);
    }

    /// Feed `buf` and report all of it as taken.
    pub fn write(&mut self, buf: &[u8]) -> (written: usize)
        requires
            old(self)@.len() + buf@.len() <= u64::MAX,
        ensures
            final(self)@ == old(self)@ + buf@,
            written == buf@.len(),
    {
        self.update(buf);
        buf.len()
    }

    /// Nothing is buffered, so there is nothing to flush.
    pub fn flush(&mut self)
        ensures
            final(self)@ == old(self)@,
    {
    }

    /// The CRC-32 of everything fed, as a number.
    pub fn checksum(self) -> (crc: u32)
        ensures
            crc == crc32_of(self@),
    {
        hasher_finalize(self.hasher)
    }

    /// The CRC-32 of everything fed, as four bytes, most significant first.
    pub fn finalize(self) -> (out: [u8; 4])
        ensures
            out@ == be_bytes(crc32_of(self@)),
    {
        let crc = self.checksum();
        let out = [
            (crc >> 24u32) as u8,
            ((crc >> 16u32) & 0xffu32) as u8,
            ((crc >> 8u32) & 0xffu32) as u8,
            (crc & 0xffu32) as u8,
        ];
        assert(out@ =~= be_bytes(crc));
        out
    }
}

} // verus!

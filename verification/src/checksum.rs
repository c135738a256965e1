//! Streaming 64-bit content checksums (CRC-64/Redis).

use vstd::prelude::*;

verus! {

/// A content checksum.
pub type CheckSum = u64;

/// The parameters that define a CRC algorithm of up to 64 bits, as the
/// catalogue of parametrised CRC algorithms gives them: the width in bits,
/// the generator polynomial, the register's first value, whether input and
/// output are reflected, and the value that the result is combined with at
/// the end.
pub ghost struct Parameters {
    pub width: u8,
    pub poly: u64,
    pub init: u64,
    pub refin: bool,
    pub refout: bool,
    pub xorout: u64,
}

/// The parameters of CRC-64/Redis: those of `crc::CRC_64_REDIS`.
pub open spec fn redis() -> Parameters {
    Parameters {
        width: 64,
        poly: 0xad93d23594c935a9,
        init: 0,
        refin: true,
        refout: true,
        xorout: 0,
    }
}

/// A CRC algorithm with its lookup table: a `crc::Crc<u64>`. The value is
/// opaque to proofs; what is known of it is what `table_parameters` names.
#[verifier::external_body]
pub struct Crc64 {
    table: crc::Crc<u64>,
}

/// A running `crc::Digest` of 64 bits. The value is opaque to proofs; what
/// is known of it is what `digest_parameters` and `digest_input` name.
#[verifier::external_body]
pub struct Digest64<'a> {
    inner: crc::Digest<'a, u64>,
}

/// The checksum of a byte string under a CRC algorithm: what
/// `crc::Digest::finalize` returns for a digest of an algorithm with these
/// parameters that has been fed exactly these bytes.
pub uninterp spec fn crc64(parameters: Parameters, bytes: Seq<u8>) -> u64;

/// The parameters of the algorithm that a table was built for: the fields
/// of `crc::Crc::algorithm`.
pub uninterp spec fn table_parameters(t: Crc64) -> Parameters;

/// The parameters of the algorithm of the table that a digest was started
/// from.
pub uninterp spec fn digest_parameters(d: Digest64) -> Parameters;

/// The bytes that a running digest has been fed since it was started, in
/// the order of feeding. This is the digest's history, of which the digest
/// itself keeps only the running remainder: two digests with different
/// histories may hold the same remainder. `Digest64` therefore offers no
/// copy and no comparison.
pub uninterp spec fn digest_input(d: Digest64) -> Seq<u8>;

/// The CRC-64/Redis checksum of a byte string.
pub open spec fn crc64_redis(bytes: Seq<u8>) -> u64 {
    crc64(redis(), bytes)
}

/// `crc::Crc::<u64>::new` on `crc::CRC_64_REDIS`: a table whose algorithm
/// is the one it was given, CRC-64/Redis.
#[verifier::external_body]
fn redis_table() -> (t: Crc64)
    ensures
        table_parameters(t) == redis(),
{
    Crc64 { table: crc::Crc::<u64>::new(&crc::CRC_64_REDIS) }
}

/// `crc::Crc::digest`: a digest of the table's algorithm that has been fed
/// nothing yet.
#[verifier::external_body]
fn digest_start<'a>(algorithm: &'a Crc64) -> (d: Digest64<'a>)
    ensures
        digest_parameters(d) == table_parameters(*algorithm),
        digest_input(d) == Seq::<u8>::empty(),
{
    Digest64 { inner: algorithm.table.digest() }
}

/// `crc::Digest::update`: the digest has been fed `bs` after what it had
/// been fed before; its algorithm is the same.
#[verifier::external_body]
fn digest_update<'a>(d: &mut Digest64<'a>, bs: &[u8])
    ensures
        digest_parameters(*final(d)) == digest_parameters(*old(d)),
        digest_input(*final(d)) == digest_input(*old(d)) + bs@,
{
    d.inner.update(bs);
}

/// `crc::Digest::finalize`: the checksum, under the digest's algorithm, of
/// everything the digest has been fed.
#[verifier::external_body]
fn digest_finish<'a>(d: Digest64<'a>) -> (sum: u64)
    ensures
        sum == crc64(digest_parameters(d), digest_input(d)),
{
    d.inner.finalize()
}

impl Crc64 {
    /// The parameters of the algorithm.
    pub open spec fn parameters(&self) -> Parameters {
        table_parameters(*self)
    }

    /// Builds the lookup table of CRC-64/Redis.
    pub fn new() -> (r: Crc64)
        ensures
            r.parameters() == redis(),
    {
        redis_table()
    }
}

/// A restartable streaming checksummer.
pub struct CheckSummer<'a> {
    algorithm: &'a Crc64,
    context: Digest64<'a>,
}

impl<'a> View for CheckSummer<'a> {
    type V = Seq<u8>;

    /// The bytes consumed since the checksummer was made or last finalized.
    closed spec fn view(&self) -> Seq<u8> {
        digest_input(self.context)
    }
}

impl<'a> CheckSummer<'a> {
    /// The running digest is one of the checksummer's algorithm. Every
    /// checksummer that this type hands out is in order.
    pub closed spec fn wf(&self) -> bool {
        digest_parameters(self.context) == table_parameters(*self.algorithm)
    }

    /// The parameters of the algorithm that the checksums are taken with.
    pub closed spec fn parameters(&self) -> Parameters {
        table_parameters(*self.algorithm)
    }

    /// A checksummer of an algorithm that has consumed nothing.
    pub fn new(algorithm: &'a Crc64) -> (r: CheckSummer<'a>)
        ensures
            r@ == Seq::<u8>::empty(),
            r.parameters() == algorithm.parameters(),
            r.wf(),
    {
        CheckSummer { algorithm, context: digest_start(algorithm) }
    }

    /// Feeds one more chunk of the stream and hands the checksummer back,
    /// so that calls can be chained.
    pub fn consume(&mut self, bs: &[u8]) -> (r: &mut Self)
        requires
            old(self).wf(),
        ensures
            r@ == old(self)@ + bs@,
            r.parameters() == old(self).parameters(),
            r.wf(),
            *final(self) == *final(r),
    {
        digest_update(&mut self.context, bs);
        self
    }

    /// The checksum, under the checksummer's algorithm, of all chunks
    /// consumed so far, taken together. The checksummer starts over: it
    /// can be used for the next stream.
    pub fn finalize(&mut self) -> (sum: CheckSum)
        requires
            old(self).wf(),
        ensures
            sum == crc64(old(self).parameters(), old(self)@),
            final(self)@ == Seq::<u8>::empty(),
            final(self).parameters() == old(self).parameters(),
            final(self).wf(),
    {
        let mut done = digest_start(self.algorithm);
        std::mem::swap(&mut self.context, &mut done);
        digest_finish(done)
    }
}

} // verus!

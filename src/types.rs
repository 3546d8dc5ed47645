use vstd::prelude::*;

verus! {

/// Width in bytes of every digest.
pub const DIGEST_SIZE: usize = 32;

/// Content identifier of a chunk.
pub struct Digest {
    pub bytes: Vec<u8>,
}

impl View for Digest {
    type V = Seq<u8>;

    open spec fn view(&self) -> Seq<u8> {
        self.bytes@
    }
}

impl Digest {
    pub fn new(bytes: Vec<u8>) -> (r: Digest)
        ensures
            r@ == bytes@,
    {
        Digest { bytes }
    }

    /// Byte-exact comparison with another byte sequence.
    pub fn matches(&self, other: &Vec<u8>) -> (r: bool)
        ensures
            r == (self@ == other@),
    {
        same_bytes(&self.bytes, other)
    }

    pub fn to_vec(&self) -> (r: Vec<u8>)
        ensures
            r@ == self@,
    {
        copy_bytes(&self.bytes)
    }
}

/// Byte-exact equality of two byte vectors.
pub fn same_bytes(a: &Vec<u8>, b: &Vec<u8>) -> (r: bool)
    ensures
        r == (a@ == b@),
{
    if a.len() != b.len() {
        return false;
    }
    let mut i: usize = 0;
    while i < a.len()
        invariant
            a@.len() == b@.len(),
            0 <= i <= a@.len(),
            forall|j: int| 0 <= j < i ==> a@[j] == b@[j],
        decreases a@.len() - i,
    {
        if a[i] != b[i] {
            return false;
        }
        i = i + 1;
    }
    assert(a@ =~= b@);
    true
}

/// A copy of a byte vector.
pub fn copy_bytes(a: &Vec<u8>) -> (r: Vec<u8>)
    ensures
        r@ == a@,
{
    let mut r: Vec<u8> = Vec::with_capacity(a.len());
    let mut i: usize = 0;
    while i < a.len()
        invariant
            0 <= i <= a@.len(),
            r@ == a@.take(i as int),
        decreases a@.len() - i,
    {
        r.push(a[i]);
        i = i + 1;
        assert(r@ =~= a@.take(i as int));
    }
    assert(a@.take(a@.len() as int) =~= a@);
    r
}

/// A digest together with the number of index levels that must be unwound
/// before it addresses application data. Level zero addresses a leaf chunk.
pub struct DataAddress {
    pub digest: Digest,
    pub index_level: u64,
}

/// What the payload of a chunk is: digests of other chunks, or application data.
#[derive(Clone, Copy, PartialEq, Eq, Debug, Structural)]
pub enum DataType {
    Index,
    Data,
}

impl DataType {
    pub open spec fn encrypted(self) -> bool {
        self is Data
    }

    pub open spec fn compressed(self) -> bool {
        self is Data
    }

    /// Whether chunks of this type are stored encrypted.
    pub fn should_encrypt(&self) -> (r: bool)
        ensures
            r == self.encrypted(),
    {
        match self {
            DataType::Data => true,
            DataType::Index => false,
        }
    }

    /// Whether chunks of this type are stored compressed.
    pub fn should_compress(&self) -> (r: bool)
        ensures
            r == self.compressed(),
    {
        match self {
            DataType::Data => true,
            DataType::Index => false,
        }
    }
}

/// Why reading a chunk failed.
#[derive(Debug)]
pub enum ReadError {
    /// The storage backend could not deliver the chunk's bytes.
    Io,
    /// The digest recomputed over the plaintext differs from the requested one.
    Corrupted { expected: Vec<u8>, actual: Vec<u8> },
    /// The stored bytes could not be decrypted.
    Decryption,
    /// The decrypted bytes could not be decompressed.
    Decompression,
    /// The chunk is encrypted but no decrypter was configured.
    NoDecrypter,
    /// An index chunk's length is not a multiple of the digest width.
    TruncatedIndex,
    /// The address asks for more index levels than the reader allows.
    TooDeep,
}

/// Outcome of a verification pass: how many distinct chunks were scanned and
/// which of them failed, in the order in which they were met.
pub struct VerifyResults {
    pub scanned: usize,
    pub errors: Vec<(Vec<u8>, ReadError)>,
}

} // verus!

use vstd::prelude::*;

use crate::digest_set::DigestSet;
use crate::types::{DataType, Digest, ReadError, VerifyResults};

verus! {

/// Storage of a repository: where the stored bytes of a chunk are fetched from,
/// and the hash function that names chunks by their plaintext.
pub trait Repo {
    /// The bytes stored under `digest`.
    spec fn stored(&self, digest: Seq<u8>) -> Seq<u8>;

    /// The digest of a plaintext.
    spec fn digest_of(&self, data: Seq<u8>) -> Seq<u8>;

    /// The stored bytes of the chunk named `digest`.
    fn read_stored(&self, digest: &Digest) -> (r: Result<Vec<u8>, ReadError>)
        ensures
            r matches Ok(v) ==> v@ == self.stored(digest@),
    ;

    /// The digest of a chunk's plaintext.
    fn calculate_digest(&self, data: &Vec<u8>) -> (r: Vec<u8>)
        ensures
            r@ == self.digest_of(data@),
    ;
}

/// Decryption of stored chunks; the chunk's digest is its associated context.
pub trait Decrypter {
    spec fn decrypted(&self, data: Seq<u8>, context: Seq<u8>) -> Seq<u8>;

    fn decrypt(&self, data: Vec<u8>, digest: &Vec<u8>) -> (r: Result<Vec<u8>, ReadError>)
        ensures
            r matches Ok(v) ==> v@ == self.decrypted(data@, digest@),
    ;
}

/// Decompression of stored chunks.
pub trait Compression {
    spec fn decompressed(&self, data: Seq<u8>) -> Seq<u8>;

    fn decompress(&self, data: Vec<u8>) -> (r: Result<Vec<u8>, ReadError>)
        ensures
            r matches Ok(v) ==> v@ == self.decompressed(data@),
    ;
}

/// `a` is `b` followed by zero or more bytes.
pub open spec fn extends(a: Seq<u8>, b: Seq<u8>) -> bool {
    b.is_prefix_of(a)
}

/// Policy of access to the chunks of a repository during a traversal.
pub trait ChunkAccessor: Sized {
    /// What the accessor's own state must satisfy between calls.
    spec fn inv(&self) -> bool;

    /// Whether chunks of type `t` can be read with this accessor's setup.
    spec fn accepts(&self, t: DataType) -> bool;

    /// Whether a successful read always delivers the chunk's content.
    spec fn exact(&self) -> bool;

    /// Whether every read and touch adds its digest to `visited`.
    spec fn records(&self) -> bool;

    /// The digests that the accessor has noted as referenced.
    spec fn visited(&self) -> Set<Seq<u8>>;

    /// Whether the content of `digest` read as `t` hashes back to `digest`.
    spec fn intact(&self, digest: Seq<u8>, t: DataType) -> bool;

    /// Whether reads and touches always succeed.
    spec fn never_fails(&self) -> bool;

    /// The plaintext that a successful read of `digest` as `t` delivers.
    spec fn chunk(&self, digest: Seq<u8>, t: DataType) -> Seq<u8>;

    /// Streams the plaintext of the chunk named `digest` to the end of `out`.
    fn read_chunk_into(&mut self, digest: &Digest, data_type: DataType, out: &mut Vec<u8>) -> (r:
        Result<(), ReadError>)
        requires
            old(self).inv(),
            old(self).accepts(data_type),
        ensures
            final(self).inv(),
            forall|d: Seq<u8>, t: DataType| #[trigger]
                final(self).chunk(d, t) == old(self).chunk(d, t),
            forall|t: DataType| #[trigger] final(self).accepts(t) == old(self).accepts(t),
            final(self).exact() == old(self).exact(),
            final(self).records() == old(self).records(),
            old(self).records() ==> final(self).visited() == old(self).visited().insert(digest@),
            extends(final(out)@, old(out)@),
            r is Ok && old(self).exact() ==> final(out)@ == old(out)@ + old(self).chunk(
                digest@,
                data_type,
            ),
            r is Err && old(self).exact() ==> final(out)@ == old(out)@,
            r is Ok && old(self).exact() ==> old(self).intact(digest@, data_type),
            forall|d: Seq<u8>, t: DataType| #[trigger]
                final(self).intact(d, t) == old(self).intact(d, t),
            final(self).never_fails() == old(self).never_fails(),
            old(self).never_fails() ==> r is Ok,
    ;

    /// Notes that `digest` is referenced, without fetching its content.
    fn touch(&mut self, digest: &Digest) -> (r: Result<(), ReadError>)
        requires
            old(self).inv(),
        ensures
            final(self).inv(),
            forall|d: Seq<u8>, t: DataType| #[trigger]
                final(self).chunk(d, t) == old(self).chunk(d, t),
            forall|t: DataType| #[trigger] final(self).accepts(t) == old(self).accepts(t),
            final(self).exact() == old(self).exact(),
            final(self).records() == old(self).records(),
            old(self).records() ==> final(self).visited() == old(self).visited().insert(digest@),
            final(self).never_fails() == old(self).never_fails(),
            forall|d: Seq<u8>, t: DataType| #[trigger]
                final(self).intact(d, t) == old(self).intact(d, t),
            r is Ok,
    ;
}

/// Which chunks an accessor finds intact, as a function of digest and type.
pub open spec fn checker<A: ChunkAccessor>(a: A) -> spec_fn(Seq<u8>, DataType) -> bool {
    |d: Seq<u8>, t: DataType| a.intact(d, t)
}

/// What an accessor reads, as a function of digest and type.
pub open spec fn reader<A: ChunkAccessor>(a: A) -> spec_fn(Seq<u8>, DataType) -> Seq<u8> {
    |d: Seq<u8>, t: DataType| a.chunk(d, t)
}

/// Accepts a chunk's plaintext if its recomputed digest is the requested one,
/// appending it to `out`; otherwise reports the chunk as corrupted.
pub fn check_chunk(digest: &Digest, data: Vec<u8>, computed: Vec<u8>, out: &mut Vec<u8>) -> (r:
    Result<(), ReadError>)
    ensures
        r is Ok <==> computed@ == digest@,
        r is Ok ==> final(out)@ == old(out)@ + data@,
        r is Err ==> final(out)@ == old(out)@,
        r is Err ==> (r matches Err(ReadError::Corrupted { expected, actual }) && expected@
            == digest@ && actual@ == computed@),
{
    if !digest.matches(&computed) {
        return Err(ReadError::Corrupted { expected: digest.to_vec(), actual: computed });
    }
    let mut data = data;
    out.append(&mut data);
    Ok(())
}

/// Reads chunks from a repository, decrypting, decompressing and checking each
/// one against its digest.
pub struct DefaultChunkAccessor<R, D, C> {
    pub repo: R,
    pub decrypter: Option<D>,
    pub compression: C,
}

impl<R: Repo, D: Decrypter, C: Compression> DefaultChunkAccessor<R, D, C> {
    /// The plaintext of the chunk stored under `d`, read as type `t`: the
    /// stored bytes, decrypted with `d` as context if `t` is encrypted, then
    /// decompressed if `t` is compressed.
    pub open spec fn plain(&self, d: Seq<u8>, t: DataType) -> Seq<u8> {
        let raw = self.repo.stored(d);
        let decrypted = if t.encrypted() {
            match self.decrypter {
                Some(dec) => dec.decrypted(raw, d),
                None => raw,
            }
        } else {
            raw
        };
        if t.compressed() {
            self.compression.decompressed(decrypted)
        } else {
            decrypted
        }
    }

    /// Encrypted chunks can only be read with a decrypter.
    pub open spec fn can_read(&self, t: DataType) -> bool {
        t.encrypted() ==> self.decrypter is Some
    }

    pub fn new(repo: R, decrypter: Option<D>, compression: C) -> (r: Self)
        ensures
            r.repo == repo,
            r.decrypter == decrypter,
            r.compression == compression,
    {
        DefaultChunkAccessor { repo, decrypter, compression }
    }

    pub fn repo(&self) -> (r: &R)
        ensures
            r == &self.repo,
    {
        &self.repo
    }

    /// Fetches, decodes and checks one chunk; on success its plaintext is
    /// appended to `out`, on failure `out` is left as it was. A failure of the
    /// storage, the decrypter or the decompressor is returned as it came.
    pub fn fetch_into(&self, digest: &Digest, data_type: DataType, out: &mut Vec<u8>) -> (r:
        Result<(), ReadError>)
        requires
            self.can_read(data_type),
        ensures
            r is Err ==> final(out)@ == old(out)@,
            r is Ok ==> final(out)@ == old(out)@ + self.plain(digest@, data_type),
            r is Ok ==> self.repo.digest_of(self.plain(digest@, data_type)) == digest@,
    {
        let data = match self.repo.read_stored(digest) {
            Ok(d) => d,
            Err(e) => {
                return Err(e);
            },
        };
        let data = if data_type.should_encrypt() {
            match &self.decrypter {
                Some(dec) => match dec.decrypt(data, &digest.bytes) {
                    Ok(d) => d,
                    Err(e) => {
                        return Err(e);
                    },
                },
                None => {
                    return Err(ReadError::NoDecrypter);
                },
            }
        } else {
            data
        };
        let data = if data_type.should_compress() {
            match self.compression.decompress(data) {
                Ok(d) => d,
                Err(e) => {
                    return Err(e);
                },
            }
        } else {
            data
        };
        let computed = self.repo.calculate_digest(&data);
        check_chunk(digest, data, computed, out)
    }
}

impl<R: Repo, D: Decrypter, C: Compression> ChunkAccessor for DefaultChunkAccessor<R, D, C> {
    open spec fn inv(&self) -> bool {
        true
    }

    open spec fn accepts(&self, t: DataType) -> bool {
        self.can_read(t)
    }

    open spec fn records(&self) -> bool {
        false
    }

    open spec fn visited(&self) -> Set<Seq<u8>> {
        Set::empty()
    }

    open spec fn never_fails(&self) -> bool {
        false
    }

    open spec fn intact(&self, digest: Seq<u8>, t: DataType) -> bool {
        self.repo.digest_of(self.plain(digest, t)) == digest
    }

    open spec fn exact(&self) -> bool {
        true
    }

    open spec fn chunk(&self, digest: Seq<u8>, t: DataType) -> Seq<u8> {
        self.plain(digest, t)
    }

    fn read_chunk_into(&mut self, digest: &Digest, data_type: DataType, out: &mut Vec<u8>) -> (r:
        Result<(), ReadError>)
        ensures
            *final(self) == *old(self),
            r is Err ==> final(out)@ == old(out)@,
            r is Ok ==> old(self).repo.digest_of(old(self).plain(digest@, data_type)) == digest@,
    {
        self.fetch_into(digest, data_type, out)
    }

    fn touch(&mut self, digest: &Digest) -> (r: Result<(), ReadError>)
        ensures
            r is Ok,
            *final(self) == *old(self),
    {
        Ok(())
    }
}

/// Reads chunks like `DefaultChunkAccessor` and records every digest that is
/// read or touched; a touch-only traversal so collects the live chunks.
pub struct RecordingChunkAccessor<R, D, C> {
    pub raw: DefaultChunkAccessor<R, D, C>,
    pub accessed: DigestSet,
}

impl<R: Repo, D: Decrypter, C: Compression> RecordingChunkAccessor<R, D, C> {
    /// Records into `accessed`, which the caller takes back with
    /// `into_accessed`.
    pub fn new(repo: R, accessed: DigestSet, decrypter: Option<D>, compression: C) -> (r: Self)
        ensures
            r.accessed == accessed,
            r.raw.repo == repo,
            r.raw.decrypter == decrypter,
            r.raw.compression == compression,
    {
        RecordingChunkAccessor {
            raw: DefaultChunkAccessor::new(repo, decrypter, compression),
            accessed,
        }
    }

    pub fn repo(&self) -> (r: &R)
        ensures
            r == &self.raw.repo,
    {
        self.raw.repo()
    }

    /// Adds `digest` to the recorded set; recording a digest again changes
    /// nothing.
    pub fn record(&mut self, digest: &Digest)
        requires
            old(self).accessed.wf(),
        ensures
            final(self).accessed.wf(),
            final(self).accessed@ == old(self).accessed@.insert(digest@),
            old(self).accessed@.contains(digest@) ==> final(self).accessed.items@
                == old(self).accessed.items@,
            final(self).raw == old(self).raw,
    {
        self.accessed.insert(digest);
    }

    /// The set of recorded digests.
    pub fn into_accessed(self) -> (r: DigestSet)
        ensures
            r == self.accessed,
    {
        self.accessed
    }
}

impl<R: Repo, D: Decrypter, C: Compression> ChunkAccessor for RecordingChunkAccessor<R, D, C> {
    open spec fn inv(&self) -> bool {
        self.accessed.wf()
    }

    open spec fn accepts(&self, t: DataType) -> bool {
        self.raw.can_read(t)
    }

    open spec fn records(&self) -> bool {
        true
    }

    open spec fn visited(&self) -> Set<Seq<u8>> {
        self.accessed@
    }

    open spec fn never_fails(&self) -> bool {
        false
    }

    open spec fn intact(&self, digest: Seq<u8>, t: DataType) -> bool {
        self.raw.repo.digest_of(self.raw.plain(digest, t)) == digest
    }

    open spec fn exact(&self) -> bool {
        true
    }

    open spec fn chunk(&self, digest: Seq<u8>, t: DataType) -> Seq<u8> {
        self.raw.plain(digest, t)
    }

    fn touch(&mut self, digest: &Digest) -> (r: Result<(), ReadError>)
        ensures
            r is Ok,
            final(self).accessed@ == old(self).accessed@.insert(digest@),
            old(self).accessed@.contains(digest@) ==> final(self).accessed.items@
                == old(self).accessed.items@,
            final(self).raw == old(self).raw,
    {
        self.record(digest);
        Ok(())
    }

    fn read_chunk_into(&mut self, digest: &Digest, data_type: DataType, out: &mut Vec<u8>) -> (r:
        Result<(), ReadError>)
        ensures
            final(self).accessed@ == old(self).accessed@.insert(digest@),
            final(self).raw == old(self).raw,
            r is Err ==> final(out)@ == old(out)@,
            r is Ok ==> old(self).raw.repo.digest_of(old(self).raw.plain(digest@, data_type))
                == digest@,
    {
        self.record(digest);
        self.raw.fetch_into(digest, data_type, out)
    }
}

/// Checks chunks like `DefaultChunkAccessor`, but each distinct digest only
/// once, and keeps the failures instead of reporting them to the traversal.
pub struct VerifyingChunkAccessor<R, D, C> {
    pub raw: DefaultChunkAccessor<R, D, C>,
    pub accessed: DigestSet,
    pub errors: Vec<(Vec<u8>, ReadError)>,
}

impl<R: Repo, D: Decrypter, C: Compression> VerifyingChunkAccessor<R, D, C> {
    pub fn new(repo: R, decrypter: Option<D>, compression: C) -> (r: Self)
        ensures
            r.accessed.wf(),
            r.accessed@ == Set::<Seq<u8>>::empty(),
            r.errors@.len() == 0,
            r.raw.repo == repo,
            r.raw.decrypter == decrypter,
            r.raw.compression == compression,
    {
        VerifyingChunkAccessor {
            raw: DefaultChunkAccessor::new(repo, decrypter, compression),
            accessed: DigestSet::new(),
            errors: Vec::new(),
        }
    }

    pub fn repo(&self) -> (r: &R)
        ensures
            r == &self.raw.repo,
    {
        self.raw.repo()
    }

    /// Checks the chunk named `digest` unless it was checked before in this
    /// run. A failure is appended to the error list, paired with the digest;
    /// a success appends the chunk's plaintext to `out`.
    pub fn verify_chunk(&mut self, digest: &Digest, data_type: DataType, out: &mut Vec<u8>)
        requires
            old(self).accessed.wf(),
            old(self).raw.can_read(data_type),
        ensures
            final(self).accessed.wf(),
            final(self).accessed@ == old(self).accessed@.insert(digest@),
            final(self).raw == old(self).raw,
            old(self).accessed@.contains(digest@) ==> final(self).errors@ == old(self).errors@
                && final(out)@ == old(out)@,
            !old(self).accessed@.contains(digest@) ==> {
                ||| (final(self).errors@ == old(self).errors@.push(final(self).errors@.last())
                    && final(self).errors@.last().0@ == digest@ && final(out)@ == old(out)@)
                ||| (final(self).errors@ == old(self).errors@ && final(out)@ == old(out)@
                    + old(self).raw.plain(digest@, data_type) && old(self).raw.repo.digest_of(
                    old(self).raw.plain(digest@, data_type),
                ) == digest@)
            },
    {
        if !self.accessed.insert(digest) {
            return ;
        }
        let res = self.raw.fetch_into(digest, data_type, out);
        self.note_result(digest, res);
    }

    /// Keeps the outcome of checking `digest`: a failure is appended to the
    /// error list, paired with the digest; a success changes nothing.
    pub fn note_result(&mut self, digest: &Digest, res: Result<(), ReadError>)
        ensures
            final(self).accessed == old(self).accessed,
            final(self).raw == old(self).raw,
            res is Ok ==> final(self).errors@ == old(self).errors@,
            res matches Err(e) ==> final(self).errors@ == old(self).errors@.push(
                final(self).errors@.last(),
            ) && final(self).errors@.last().0@ == digest@ && final(self).errors@.last().1 == e,
    {
        match res {
            Ok(()) => {},
            Err(e) => {
                let ghost before = self.errors@;
                self.errors.push((digest.to_vec(), e));
                assert(self.errors@ == before.push(self.errors@.last()));
            },
        }
    }

    /// The report of the run: the number of distinct chunks scanned and the
    /// failures in the order in which they were met.
    pub fn get_results(self) -> (r: VerifyResults)
        requires
            self.accessed.wf(),
        ensures
            r.scanned == self.accessed@.len(),
            r.errors == self.errors,
    {
        let scanned = self.accessed.len();
        VerifyResults { scanned, errors: self.errors }
    }
}

impl<R: Repo, D: Decrypter, C: Compression> ChunkAccessor for VerifyingChunkAccessor<R, D, C> {
    open spec fn inv(&self) -> bool {
        self.accessed.wf()
    }

    open spec fn accepts(&self, t: DataType) -> bool {
        self.raw.can_read(t)
    }

    open spec fn records(&self) -> bool {
        false
    }

    open spec fn visited(&self) -> Set<Seq<u8>> {
        self.accessed@
    }

    open spec fn never_fails(&self) -> bool {
        true
    }

    open spec fn intact(&self, digest: Seq<u8>, t: DataType) -> bool {
        self.raw.repo.digest_of(self.raw.plain(digest, t)) == digest
    }

    open spec fn exact(&self) -> bool {
        false
    }

    open spec fn chunk(&self, digest: Seq<u8>, t: DataType) -> Seq<u8> {
        self.raw.plain(digest, t)
    }

    fn touch(&mut self, digest: &Digest) -> (r: Result<(), ReadError>)
        ensures
            r is Ok,
            *final(self) == *old(self),
    {
        Ok(())
    }

    fn read_chunk_into(&mut self, digest: &Digest, data_type: DataType, out: &mut Vec<u8>) -> (r:
        Result<(), ReadError>)
        ensures
            r is Ok,
            final(self).accessed@ == old(self).accessed@.insert(digest@),
            final(self).raw == old(self).raw,
            old(self).accessed@.contains(digest@) ==> final(self).errors@ == old(self).errors@
                && final(out)@ == old(out)@,
            !old(self).accessed@.contains(digest@) ==> {
                ||| (final(self).errors@ == old(self).errors@.push(final(self).errors@.last())
                    && final(self).errors@.last().0@ == digest@ && final(out)@ == old(out)@)
                ||| (final(self).errors@ == old(self).errors@ && final(out)@ == old(out)@
                    + old(self).raw.plain(digest@, data_type) && old(self).raw.repo.digest_of(
                    old(self).raw.plain(digest@, data_type),
                ) == digest@)
            },
    {
        self.verify_chunk(digest, data_type, out);
        Ok(())
    }
}

} // verus!

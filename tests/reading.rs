use std::cell::RefCell;
use std::collections::hash_map::DefaultHasher;
use std::collections::HashMap;
use std::hash::{Hash, Hasher};

use vstd::seq::Seq;

use rdedup_read::accessor::{
    check_chunk, ChunkAccessor, Compression, Decrypter, DefaultChunkAccessor,
    RecordingChunkAccessor, Repo, VerifyingChunkAccessor,
};
use rdedup_read::context::{ReadContext, ReadRequest, DEFAULT_MAX_DEPTH};
use rdedup_read::digest_set::DigestSet;
use rdedup_read::translator::IndexTranslator;
use rdedup_read::types::{same_bytes, DataAddress, DataType, Digest, ReadError, DIGEST_SIZE};

const KEY: u8 = 0x5a;
const MARK: u8 = 0xc0;

fn hash32(data: &[u8]) -> Vec<u8> {
    let mut out = Vec::new();
    for round in 0u8..4 {
        let mut h = DefaultHasher::new();
        round.hash(&mut h);
        data.hash(&mut h);
        out.extend_from_slice(&h.finish().to_le_bytes());
    }
    assert_eq!(out.len(), DIGEST_SIZE);
    out
}

struct MemRepo {
    chunks: HashMap<Vec<u8>, Vec<u8>>,
    loads: RefCell<Vec<Vec<u8>>>,
}

impl MemRepo {
    fn new() -> MemRepo {
        MemRepo { chunks: HashMap::new(), loads: RefCell::new(Vec::new()) }
    }

    fn store(&mut self, plain: &[u8], data_type: DataType) -> Vec<u8> {
        let digest = hash32(plain);
        let stored = match data_type {
            DataType::Data => {
                let mut v = vec![MARK];
                v.extend_from_slice(plain);
                v.iter().map(|b| b ^ KEY).collect()
            }
            DataType::Index => plain.to_vec(),
        };
        self.chunks.insert(digest.clone(), stored);
        digest
    }

    fn loads_of(&self, digest: &[u8]) -> usize {
        self.loads.borrow().iter().filter(|d| d.as_slice() == digest).count()
    }
}

// The spec functions of the traits are only read by the verifier.
impl<'a> Repo for &'a MemRepo {
    fn stored(&self, _digest: Seq<u8>) -> Seq<u8> {
        unreachable!()
    }

    fn digest_of(&self, _data: Seq<u8>) -> Seq<u8> {
        unreachable!()
    }

    fn read_stored(&self, digest: &Digest) -> Result<Vec<u8>, ReadError> {
        self.loads.borrow_mut().push(digest.bytes.clone());
        self.chunks.get(&digest.bytes).cloned().ok_or(ReadError::Io)
    }

    fn calculate_digest(&self, data: &Vec<u8>) -> Vec<u8> {
        hash32(data)
    }
}

struct XorDecrypter;

impl Decrypter for XorDecrypter {
    fn decrypted(&self, _data: Seq<u8>, _context: Seq<u8>) -> Seq<u8> {
        unreachable!()
    }

    fn decrypt(&self, data: Vec<u8>, _digest: &Vec<u8>) -> Result<Vec<u8>, ReadError> {
        Ok(data.iter().map(|b| b ^ KEY).collect())
    }
}

struct MarkCompression;

impl Compression for MarkCompression {
    fn decompressed(&self, _data: Seq<u8>) -> Seq<u8> {
        unreachable!()
    }

    fn decompress(&self, data: Vec<u8>) -> Result<Vec<u8>, ReadError> {
        if data.first() == Some(&MARK) {
            Ok(data[1..].to_vec())
        } else {
            Err(ReadError::Decompression)
        }
    }
}

fn addr(digest: &[u8], level: u64) -> DataAddress {
    DataAddress { digest: Digest::new(digest.to_vec()), index_level: level }
}

fn read_all<A: ChunkAccessor>(ctx: &mut ReadContext<A>, digest: &[u8], level: u64) -> Result<Vec<u8>, ReadError> {
    let mut out = Vec::new();
    let req = ReadRequest::new(DataType::Data, addr(digest, level), true);
    ctx.read_recursively(&req, &mut out).map(|_| out)
}

fn plain_ctx(repo: &MemRepo) -> ReadContext<DefaultChunkAccessor<&MemRepo, XorDecrypter, MarkCompression>> {
    ReadContext::new(DefaultChunkAccessor::new(repo, Some(XorDecrypter), MarkCompression))
}

fn leaves() -> Vec<Vec<u8>> {
    vec![b"alpha ".to_vec(), b"beta ".to_vec(), b"gamma ".to_vec(), b"delta".to_vec()]
}

/// Stores the leaves and one index chunk over them; returns (root, leaf digests).
fn one_level(repo: &mut MemRepo, parts: &[Vec<u8>]) -> (Vec<u8>, Vec<Vec<u8>>) {
    let digests: Vec<Vec<u8>> = parts.iter().map(|p| repo.store(p, DataType::Data)).collect();
    let index: Vec<u8> = digests.concat();
    (repo.store(&index, DataType::Index), digests)
}

#[test]
fn round_trip_one_level() {
    let mut repo = MemRepo::new();
    let (root, _) = one_level(&mut repo, &leaves());
    let mut ctx = plain_ctx(&repo);
    assert_eq!(read_all(&mut ctx, &root, 1).unwrap(), b"alpha beta gamma delta".to_vec());
}

#[test]
fn round_trip_two_levels() {
    let mut repo = MemRepo::new();
    let digests: Vec<Vec<u8>> = leaves().iter().map(|p| repo.store(p, DataType::Data)).collect();
    let lower_a = repo.store(&digests[..3].concat(), DataType::Index);
    let lower_b = repo.store(&digests[3..].concat(), DataType::Index);
    let top = repo.store(&[lower_a, lower_b].concat(), DataType::Index);
    let mut ctx = plain_ctx(&repo);
    assert_eq!(read_all(&mut ctx, &top, 2).unwrap(), b"alpha beta gamma delta".to_vec());
}

#[test]
fn round_trip_empty_index() {
    let mut repo = MemRepo::new();
    let root = repo.store(&[], DataType::Index);
    let mut ctx = plain_ctx(&repo);
    assert_eq!(read_all(&mut ctx, &root, 1).unwrap(), Vec::<u8>::new());
}

#[test]
fn corrupted_leaf_is_reported() {
    let mut repo = MemRepo::new();
    let (root, digests) = one_level(&mut repo, &leaves());
    repo.chunks.get_mut(&digests[2]).unwrap()[3] ^= 1;
    let mut ctx = plain_ctx(&repo);
    match read_all(&mut ctx, &root, 1) {
        Err(ReadError::Corrupted { expected, actual }) => {
            assert_eq!(expected, digests[2]);
            assert_ne!(actual, digests[2]);
        }
        other => panic!("unexpected {:?}", other),
    }
}

#[test]
fn corrupted_index_is_reported() {
    let mut repo = MemRepo::new();
    let (root, _) = one_level(&mut repo, &leaves());
    repo.chunks.get_mut(&root).unwrap()[0] ^= 0x80;
    let mut ctx = plain_ctx(&repo);
    match read_all(&mut ctx, &root, 1) {
        Err(ReadError::Corrupted { expected, .. }) => assert_eq!(expected, root),
        other => panic!("unexpected {:?}", other),
    }
}

#[test]
fn every_single_byte_mutation_fails() {
    let mut repo = MemRepo::new();
    let digest = repo.store(b"payload", DataType::Data);
    let len = repo.chunks[&digest].len();
    for pos in 0..len {
        let mut local = MemRepo::new();
        let mut stored = repo.chunks[&digest].clone();
        stored[pos] ^= 0x01;
        local.chunks.insert(digest.clone(), stored);
        let mut ctx = plain_ctx(&local);
        assert!(read_all(&mut ctx, &digest, 0).is_err());
    }
}

#[test]
fn repeated_touch_keeps_set() {
    let repo = MemRepo::new();
    let mut acc = RecordingChunkAccessor::new(&repo, DigestSet::new(), Some(XorDecrypter), MarkCompression);
    let d = Digest::new(vec![7u8; DIGEST_SIZE]);
    acc.touch(&d).unwrap();
    let after_one = acc.accessed.items.clone();
    acc.touch(&d).unwrap();
    acc.touch(&d).unwrap();
    assert_eq!(acc.accessed.items, after_one);
    assert_eq!(acc.into_accessed().len(), 1);
}

#[test]
fn reachability_scan_marks_live_chunks() {
    let mut repo = MemRepo::new();
    let (root, digests) = one_level(&mut repo, &leaves());
    let unrelated = repo.store(b"garbage", DataType::Data);
    let acc = RecordingChunkAccessor::new(&repo, DigestSet::new(), Some(XorDecrypter), MarkCompression);
    let mut ctx = ReadContext::new(acc);
    let mut out = Vec::new();
    let req = ReadRequest::new(DataType::Data, addr(&root, 1), false);
    ctx.read_recursively(&req, &mut out).unwrap();
    assert!(out.is_empty());
    let set = ctx.into_accessor().into_accessed();
    assert_eq!(set.len(), 5);
    assert!(set.contains(&Digest::new(root.clone())));
    for d in &digests {
        assert!(set.contains(&Digest::new(d.clone())));
        assert_eq!(repo.loads_of(d), 0);
    }
    assert!(!set.contains(&Digest::new(unrelated)));
}

#[test]
fn verify_fetches_each_digest_once() {
    let mut repo = MemRepo::new();
    let a = repo.store(b"aaaa", DataType::Data);
    let b = repo.store(b"bbbb", DataType::Data);
    let root = repo.store(&[a.clone(), b.clone(), a.clone(), a.clone()].concat(), DataType::Index);
    let mut ctx = ReadContext::new(VerifyingChunkAccessor::new(&repo, Some(XorDecrypter), MarkCompression));
    read_all(&mut ctx, &root, 1).unwrap();
    let results = ctx.into_accessor().get_results();
    assert_eq!(repo.loads_of(&a), 1);
    assert_eq!(results.scanned, 3);
    assert!(results.errors.is_empty());
}

#[test]
fn verify_isolates_one_corrupt_leaf() {
    let mut repo = MemRepo::new();
    let parts: Vec<Vec<u8>> = (0u8..6).map(|i| vec![i; 10]).collect();
    let (root, digests) = one_level(&mut repo, &parts);
    repo.chunks.get_mut(&digests[4]).unwrap()[5] ^= 0x10;
    let mut ctx = ReadContext::new(VerifyingChunkAccessor::new(&repo, Some(XorDecrypter), MarkCompression));
    assert!(read_all(&mut ctx, &root, 1).is_ok());
    let results = ctx.into_accessor().get_results();
    assert_eq!(results.errors.len(), 1);
    assert_eq!(results.errors[0].0, digests[4]);
    assert!(matches!(results.errors[0].1, ReadError::Corrupted { .. }));
    assert_eq!(results.scanned, 7);
}

#[test]
fn translator_alignment_any_chunking() {
    let stream: Vec<u8> = (0..(3 * DIGEST_SIZE) as u32).map(|i| (i * 7 % 251) as u8).collect();
    let mut whole = IndexTranslator::new(DataType::Data);
    let at_once: Vec<Vec<u8>> = whole.write(&stream).into_iter().map(|d| d.bytes).collect();
    assert!(whole.finish().is_ok());
    let mut bytewise = IndexTranslator::new(DataType::Data);
    let mut one_by_one = Vec::new();
    for b in &stream {
        one_by_one.extend(bytewise.write(&[*b]).into_iter().map(|d| d.bytes));
    }
    assert!(bytewise.finish().is_ok());
    let mut odd = IndexTranslator::new(DataType::Data);
    let mut uneven = Vec::new();
    for piece in stream.chunks(13) {
        uneven.extend(odd.write(piece).into_iter().map(|d| d.bytes));
    }
    assert!(odd.finish().is_ok());
    assert_eq!(at_once.len(), 3);
    assert_eq!(at_once, one_by_one);
    assert_eq!(at_once, uneven);
    assert_eq!(at_once[1], stream[DIGEST_SIZE..2 * DIGEST_SIZE].to_vec());
}

#[test]
fn translator_alignment_same_output() {
    let mut repo = MemRepo::new();
    let (root, _) = one_level(&mut repo, &leaves());
    let index = repo.chunks[&root].clone();
    let mut ctx = plain_ctx(&repo);
    let mut t = IndexTranslator::new(DataType::Data);
    let mut out = Vec::new();
    for b in &index {
        for d in t.write(&[*b]) {
            let req = ReadRequest::new(DataType::Data, DataAddress { digest: d, index_level: 0 }, true);
            ctx.read_recursively(&req, &mut out).unwrap();
        }
    }
    assert!(t.finish().is_ok());
    assert_eq!(out, read_all(&mut ctx, &root, 1).unwrap());
}

#[test]
fn translator_keeps_partial_digest() {
    let mut t = IndexTranslator::new(DataType::Index);
    assert!(t.write(&[1u8; 40]).len() == 1);
    assert_eq!(t.digest_buf, vec![1u8; 8]);
    assert!(matches!(t.finish(), Err(ReadError::TruncatedIndex)));
}

#[test]
fn truncated_index_is_an_error() {
    let mut repo = MemRepo::new();
    let a = repo.store(b"x", DataType::Data);
    let mut index = a.clone();
    index.extend_from_slice(&[9, 9, 9]);
    let root = repo.store(&index, DataType::Index);
    let mut ctx = plain_ctx(&repo);
    assert!(matches!(read_all(&mut ctx, &root, 1), Err(ReadError::TruncatedIndex)));
}

#[test]
fn depth_zero_is_one_fetch() {
    let mut repo = MemRepo::new();
    let (_, digests) = one_level(&mut repo, &leaves());
    let mut ctx = plain_ctx(&repo);
    assert_eq!(read_all(&mut ctx, &digests[1], 0).unwrap(), b"beta ".to_vec());
    assert_eq!(repo.loads.borrow().len(), 1);
}

#[test]
fn missing_chunk_is_io_error() {
    let repo = MemRepo::new();
    let mut ctx = plain_ctx(&repo);
    assert!(matches!(read_all(&mut ctx, &[3u8; DIGEST_SIZE], 0), Err(ReadError::Io)));
}

#[test]
fn every_single_byte_mutation_of_index_is_corruption() {
    let mut repo = MemRepo::new();
    let (root, _) = one_level(&mut repo, &leaves());
    let len = repo.chunks[&root].len();
    for pos in 0..len {
        let mut local = MemRepo::new();
        local.chunks = repo.chunks.clone();
        local.chunks.get_mut(&root).unwrap()[pos] ^= 0x01;
        let mut ctx = plain_ctx(&local);
        match read_all(&mut ctx, &root, 1) {
            Err(ReadError::Corrupted { expected, .. }) => assert_eq!(expected, root),
            other => panic!("unexpected {:?}", other),
        }
    }
}

#[test]
fn verify_run_completes_despite_missing_chunks() {
    let mut repo = MemRepo::new();
    let (root, digests) = one_level(&mut repo, &leaves());
    repo.chunks.remove(&digests[0]);
    repo.chunks.remove(&digests[3]);
    let mut ctx = ReadContext::new(VerifyingChunkAccessor::new(&repo, Some(XorDecrypter), MarkCompression));
    let out = read_all(&mut ctx, &root, 1).unwrap();
    assert_eq!(out, b"beta gamma ".to_vec());
    let results = ctx.into_accessor().get_results();
    assert_eq!(results.scanned, 5);
    assert_eq!(results.errors.len(), 2);
    assert_eq!(results.errors[0].0, digests[0]);
    assert_eq!(results.errors[1].0, digests[3]);
    assert!(matches!(results.errors[0].1, ReadError::Io));
}

#[test]
fn touch_only_scan_needs_no_decrypter() {
    let mut repo = MemRepo::new();
    let (root, digests) = one_level(&mut repo, &leaves());
    let acc = RecordingChunkAccessor::<&MemRepo, XorDecrypter, MarkCompression>::new(&repo, DigestSet::new(), None, MarkCompression);
    let mut ctx = ReadContext::new(acc);
    let mut out = Vec::new();
    let req = ReadRequest::new(DataType::Data, addr(&root, 1), false);
    ctx.read_recursively(&req, &mut out).unwrap();
    let set = ctx.into_accessor().into_accessed();
    assert_eq!(set.len(), 1 + digests.len());
}

#[test]
fn bad_compression_is_reported() {
    let mut repo = MemRepo::new();
    let d = repo.store(b"zip", DataType::Data);
    repo.chunks.get_mut(&d).unwrap()[0] ^= 0xff;
    let mut ctx = plain_ctx(&repo);
    assert!(matches!(read_all(&mut ctx, &d, 0), Err(ReadError::Decompression)));
}

#[test]
fn check_chunk_accepts_and_rejects() {
    let digest = Digest::new(vec![1, 2, 3]);
    let mut out = vec![9u8];
    assert!(check_chunk(&digest, vec![4, 5], vec![1, 2, 3], &mut out).is_ok());
    assert_eq!(out, vec![9, 4, 5]);
    match check_chunk(&digest, vec![6], vec![1, 2, 4], &mut out) {
        Err(ReadError::Corrupted { expected, actual }) => {
            assert_eq!(expected, vec![1, 2, 3]);
            assert_eq!(actual, vec![1, 2, 4]);
        }
        other => panic!("unexpected {:?}", other),
    }
    assert_eq!(out, vec![9, 4, 5]);
}

#[test]
fn data_types_and_digests() {
    assert!(DataType::Data.should_encrypt());
    assert!(DataType::Data.should_compress());
    assert!(!DataType::Index.should_encrypt());
    assert!(!DataType::Index.should_compress());
    assert!(same_bytes(&vec![1, 2], &vec![1, 2]));
    assert!(!same_bytes(&vec![1, 2], &vec![1, 3]));
    assert!(!Digest::new(vec![1]).matches(&vec![1, 1]));
    let mut set = DigestSet::new();
    assert!(set.insert(&Digest::new(vec![1])));
    assert!(!set.insert(&Digest::new(vec![1])));
    assert!(set.insert(&Digest::new(vec![2])));
    assert_eq!(set.len(), 2);
}

#[test]
fn too_deep_address_is_refused() {
    let mut repo = MemRepo::new();
    let (root, _) = one_level(&mut repo, &leaves());
    let mut ctx = ReadContext::with_max_depth(DefaultChunkAccessor::new(&repo, Some(XorDecrypter), MarkCompression), 0);
    assert!(matches!(read_all(&mut ctx, &root, 1), Err(ReadError::TooDeep)));
    assert_eq!(repo.loads.borrow().len(), 0);
    let mut ctx = plain_ctx(&repo);
    assert_eq!(ctx.max_depth, DEFAULT_MAX_DEPTH);
    assert!(matches!(read_all(&mut ctx, &root, DEFAULT_MAX_DEPTH + 1), Err(ReadError::TooDeep)));
}

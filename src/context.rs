use vstd::prelude::*;

use crate::accessor::{checker, extends, reader, ChunkAccessor};
use crate::translator::{
    digest_views, digests_of, joined, lemma_decode_joined, remainder_of, IndexTranslator,
};
use crate::types::{copy_bytes, DataAddress, DataType, Digest, ReadError, DIGEST_SIZE};

verus! {

/// One step of a traversal: what to resolve, the type of its leaves, and
/// whether their bytes are wanted (`keep`) or the leaves are only touched.
pub struct ReadRequest {
    pub data_address: DataAddress,
    pub data_type: DataType,
    pub keep: bool,
}

impl ReadRequest {
    pub fn new(data_type: DataType, data_address: DataAddress, keep: bool) -> (r: ReadRequest)
        ensures
            r.data_type == data_type,
            r.data_address == data_address,
            r.keep == keep,
    {
        ReadRequest { data_address, data_type, keep }
    }
}

/// The contents of the chunks named by `ds`, read as `t`, one after another.
pub open spec fn concat_chunks(
    f: spec_fn(Seq<u8>, DataType) -> Seq<u8>,
    ds: Seq<Seq<u8>>,
    t: DataType,
) -> Seq<u8>
    decreases ds.len(),
{
    if ds.len() == 0 {
        seq![]
    } else {
        concat_chunks(f, ds.drop_last(), t) + f(ds.last(), t)
    }
}

/// The content that resolving digest `d` at `level` delivers when `f` gives
/// each chunk's content: the chunk itself at level zero; otherwise the
/// concatenation, over the digests encoded by the index content one level
/// down, of their chunks.
pub open spec fn flatten(
    f: spec_fn(Seq<u8>, DataType) -> Seq<u8>,
    d: Seq<u8>,
    level: nat,
    t: DataType,
) -> Seq<u8>
    decreases level,
{
    if level == 0 {
        f(d, t)
    } else {
        concat_chunks(f, digests_of(flatten(f, d, (level - 1) as nat, DataType::Index)), t)
    }
}

/// Reading an index whose content is the digests `ds` written one after
/// another, one level deep, yields the contents of those chunks in order,
/// repeats included; an empty index yields nothing.
pub proof fn lemma_round_trip(
    f: spec_fn(Seq<u8>, DataType) -> Seq<u8>,
    root: Seq<u8>,
    ds: Seq<Seq<u8>>,
    t: DataType,
)
    requires
        forall|i: int| 0 <= i < ds.len() ==> #[trigger] ds[i].len() == DIGEST_SIZE,
        f(root, DataType::Index) == joined(ds),
    ensures
        flatten(f, root, 1, t) == concat_chunks(f, ds, t),
        remainder_of(flatten(f, root, 0, DataType::Index)).len() == 0,
{
    lemma_decode_joined(ds);
    assert(flatten(f, root, 0, DataType::Index) == joined(ds));
    assert(flatten(f, root, 1, t) == concat_chunks(
        f,
        digests_of(flatten(f, root, 0, DataType::Index)),
        t,
    ));
}

/// The contents of the first `i` chunks of `ds` begin the contents of all.
proof fn lemma_concat_prefix(
    f: spec_fn(Seq<u8>, DataType) -> Seq<u8>,
    ds: Seq<Seq<u8>>,
    i: int,
    t: DataType,
)
    requires
        0 <= i <= ds.len(),
    ensures
        concat_chunks(f, ds.take(i), t).is_prefix_of(concat_chunks(f, ds, t)),
    decreases ds.len(),
{
    if i == ds.len() {
        assert(ds.take(i) =~= ds);
    } else {
        lemma_concat_prefix(f, ds.drop_last(), i, t);
        assert(ds.drop_last().take(i) =~= ds.take(i));
    }
}

/// A prefix of a prefix is a prefix.
proof fn lemma_prefix_trans(a: Seq<u8>, b: Seq<u8>, c: Seq<u8>)
    requires
        a.is_prefix_of(b),
        b.is_prefix_of(c),
    ensures
        a.is_prefix_of(c),
{
    assert(a =~= c.subrange(0, a.len() as int)) by {
        assert forall|k: int| 0 <= k < a.len() implies a[k] == c[k] by {
            assert(a[k] == b[k]);
            assert(b[k] == c[k]);
        }
    }
}

/// `b` reads as `a` does.
pub open spec fn same_policy<A: ChunkAccessor>(a: A, b: A) -> bool {
    &&& forall|d: Seq<u8>, t: DataType| #[trigger] b.chunk(d, t) == a.chunk(d, t)
    &&& forall|t: DataType| #[trigger] b.accepts(t) == a.accepts(t)
    &&& b.exact() == a.exact()
    &&& b.records() == a.records()
    &&& b.never_fails() == a.never_fails()
    &&& forall|d: Seq<u8>, t: DataType| #[trigger] b.intact(d, t) == a.intact(d, t)
}

/// Every chunk that resolving `d` at `level` reads is intact under `g`: the
/// index chunks of each level, and the chunks their digests name.
pub open spec fn tree_intact(
    g: spec_fn(Seq<u8>, DataType) -> bool,
    f: spec_fn(Seq<u8>, DataType) -> Seq<u8>,
    d: Seq<u8>,
    level: nat,
    t: DataType,
) -> bool
    decreases level,
{
    if level == 0 {
        g(d, t)
    } else {
        &&& tree_intact(g, f, d, (level - 1) as nat, DataType::Index)
        &&& forall|j: int|
            0 <= j < digests_of(flatten(f, d, (level - 1) as nat, DataType::Index)).len() ==> g(
                #[trigger] digests_of(flatten(f, d, (level - 1) as nat, DataType::Index))[j],
                t,
            )
    }
}

/// The digests that resolving `d` at `level` reads or touches when `f` gives
/// each chunk's content: `d` itself, and every digest decoded from the index
/// content of each level below.
pub open spec fn tree_digests(
    f: spec_fn(Seq<u8>, DataType) -> Seq<u8>,
    d: Seq<u8>,
    level: nat,
) -> Set<Seq<u8>>
    decreases level,
{
    if level == 0 {
        set![d]
    } else {
        tree_digests(f, d, (level - 1) as nat) + digests_of(
            flatten(f, d, (level - 1) as nat, DataType::Index),
        ).to_set()
    }
}

proof fn lemma_same_reader<A: ChunkAccessor>(a: A, b: A)
    requires
        same_policy(a, b),
    ensures
        reader(a) == reader(b),
        checker(a) == checker(b),
{
    assert(reader(a) =~= reader(b));
    assert(checker(a) =~= checker(b));
}

/// Resolves data addresses through index chunks down to leaf chunks, with the
/// accessor deciding how chunks are fetched.
pub struct ReadContext<A> {
    pub accessor: A,
    pub max_depth: u64,
}

/// Index depth accepted by a reader built with `ReadContext::new`.
pub const DEFAULT_MAX_DEPTH: u64 = 16;

impl<A: ChunkAccessor> ReadContext<A> {
    pub fn new(accessor: A) -> (r: ReadContext<A>)
        ensures
            r.accessor == accessor,
            r.max_depth == DEFAULT_MAX_DEPTH,
    {
        ReadContext { accessor, max_depth: DEFAULT_MAX_DEPTH }
    }

    /// A reader that refuses addresses with more than `max_depth` index levels.
    pub fn with_max_depth(accessor: A, max_depth: u64) -> (r: ReadContext<A>)
        ensures
            r.accessor == accessor,
            r.max_depth == max_depth,
    {
        ReadContext { accessor, max_depth }
    }

    pub fn into_accessor(self) -> (r: A)
        ensures
            r == self.accessor,
    {
        self.accessor
    }

    /// Unwinds one index level: the index content one level down is decoded
    /// into digests, each of which names a chunk whose content goes on to the
    /// caller's output (or is only touched).
    fn on_index(&mut self, req: &ReadRequest, out: &mut Vec<u8>) -> (r: Result<(), ReadError>)
        requires
            old(self).accessor.inv(),
            old(self).accessor.accepts(DataType::Index),
            req.keep ==> old(self).accessor.accepts(req.data_type),
            0 < req.data_address.index_level <= old(self).max_depth,
        ensures
            final(self).accessor.inv(),
            same_policy(old(self).accessor, final(self).accessor),
            final(self).max_depth == old(self).max_depth,
            extends(final(out)@, old(out)@),
            !req.keep ==> final(out)@ == old(out)@,
            r is Ok && req.keep && old(self).accessor.exact() ==> final(out)@ == old(out)@
                + flatten(
                reader(old(self).accessor),
                req.data_address.digest@,
                req.data_address.index_level as nat,
                req.data_type,
            ),
            r is Ok && old(self).accessor.exact() ==> remainder_of(
                flatten(
                    reader(old(self).accessor),
                    req.data_address.digest@,
                    (req.data_address.index_level - 1) as nat,
                    DataType::Index,
                ),
            ).len() == 0,
            r is Ok && old(self).accessor.exact() && old(self).accessor.records()
                ==> final(self).accessor.visited() == old(self).accessor.visited() + tree_digests(
                reader(old(self).accessor),
                req.data_address.digest@,
                req.data_address.index_level as nat,
            ),
            old(self).accessor.exact() && req.keep ==> extends(
                old(out)@ + flatten(
                    reader(old(self).accessor),
                    req.data_address.digest@,
                    req.data_address.index_level as nat,
                    req.data_type,
                ),
                final(out)@,
            ),
            r is Ok && req.keep && old(self).accessor.exact() ==> tree_intact(
                checker(old(self).accessor),
                reader(old(self).accessor),
                req.data_address.digest@,
                req.data_address.index_level as nat,
                req.data_type,
            ),
            old(self).accessor.never_fails() ==> r is Ok || r matches Err(
                ReadError::TruncatedIndex,
            ),
        decreases req.data_address.index_level, 0int,
    {
        let ghost f = reader(self.accessor);
        let ghost level = req.data_address.index_level as nat;
        let ghost index_content = flatten(
            f,
            req.data_address.digest@,
            (level - 1) as nat,
            DataType::Index,
        );
        let mut translator = IndexTranslator::new(req.data_type);
        let da = DataAddress {
            digest: Digest::new(copy_bytes(&req.data_address.digest.bytes)),
            index_level: req.data_address.index_level - 1,
        };
        let sub = ReadRequest::new(DataType::Index, da, true);
        let mut index_bytes: Vec<u8> = Vec::new();
        match self.read_recursively(&sub, &mut index_bytes) {
            Ok(()) => {},
            Err(e) => {
                proof {
                    assert(old(out)@.is_prefix_of(old(out)@ + flatten(f, req.data_address.digest@, level, req.data_type)));
                }
                return Err(e);
            },
        }
        proof {
            lemma_same_reader(old(self).accessor, self.accessor);
            assert(Seq::<u8>::empty() + index_bytes@ =~= index_bytes@);
        }
        let ghost visited_before = self.accessor.visited();
        if index_bytes.len() == 0 {
            proof {
                assert(digests_of(index_bytes@).to_set() =~= Set::<Seq<u8>>::empty());
                assert(visited_before + Set::<Seq<u8>>::empty() =~= visited_before);
                if old(self).accessor.exact() && old(self).accessor.records() {
                    assert(old(self).accessor.visited() + tree_digests(
                        f,
                        req.data_address.digest@,
                        level,
                    ) =~= visited_before);
                }
                assert(digests_of(index_bytes@) =~= Seq::<Seq<u8>>::empty());
                assert(concat_chunks(f, digests_of(index_bytes@), req.data_type) =~= seq![]);
                assert(old(out)@ + seq![] =~= old(out)@);
            }
            return translator.finish();
        }
        let digests = translator.write(index_bytes.as_slice());
        let ghost views = digest_views(digests@);
        proof {
            assert(flatten(f, req.data_address.digest@, level, req.data_type) == concat_chunks(
                f,
                digests_of(index_content),
                req.data_type,
            ));
        }
        let mut i: usize = 0;
        proof {
            assert(views.take(0) =~= Seq::<Seq<u8>>::empty());
            assert(old(out)@ + concat_chunks(f, views.take(0), req.data_type) =~= old(out)@);
            assert(views.take(0).to_set() =~= Set::<Seq<u8>>::empty());
            assert(visited_before + Set::<Seq<u8>>::empty() =~= visited_before);
        }
        while i < digests.len()
            invariant
                self.accessor.inv(),
                same_policy(old(self).accessor, self.accessor),
                self.accessor.accepts(DataType::Index),
                req.keep ==> self.accessor.accepts(req.data_type),
                f == reader(old(self).accessor),
                views == digest_views(digests@),
                level == req.data_address.index_level as nat,
                req.keep && old(self).accessor.exact() ==> forall|j: int|
                    0 <= j < i ==> #[trigger] checker(old(self).accessor)(views[j], req.data_type),
                old(self).accessor.exact() ==> tree_intact(
                    checker(old(self).accessor),
                    f,
                    req.data_address.digest@,
                    (level - 1) as nat,
                    DataType::Index,
                ),
                old(self).accessor.exact() ==> views == digests_of(index_content),
                flatten(f, req.data_address.digest@, level, req.data_type) == concat_chunks(
                    f,
                    digests_of(index_content),
                    req.data_type,
                ),
                i <= digests@.len(),
                translator.data_type == req.data_type,
                extends(out@, old(out)@),
                !req.keep ==> out@ == old(out)@,
                req.keep && old(self).accessor.exact() ==> out@ == old(out)@ + concat_chunks(
                    f,
                    views.take(i as int),
                    req.data_type,
                ),
                self.max_depth == old(self).max_depth,
                0 < req.data_address.index_level <= self.max_depth,
                old(self).accessor.exact() && old(self).accessor.records() ==> self.accessor.visited()
                    == visited_before + views.take(i as int).to_set(),
            decreases digests@.len() - i,
        {
            // Each decoded digest names a chunk of the level below at level zero:
            // any deeper levels were unwound by the nested read that produced
            // this index content.
            let ghost before = out@;
            let ghost cur = self.accessor;
            let res = if req.keep {
                let child = ReadRequest::new(
                    translator.data_type,
                    DataAddress { digest: Digest::new(copy_bytes(&digests[i].bytes)), index_level: 0 },
                    true,
                );
                self.read_recursively(&child, out)
            } else {
                self.accessor.touch(&digests[i])
            };
            match res {
                Ok(()) => {},
                Err(e) => {
                    proof {
                        lemma_same_reader(old(self).accessor, cur);
                        if req.keep && old(self).accessor.exact() {
                            let whole = old(out)@ + concat_chunks(f, views, req.data_type);
                            let next = old(out)@ + concat_chunks(f, views.take(i + 1), req.data_type);
                            assert(views[i as int] == digests@[i as int]@);
                            assert(views.take(i + 1).drop_last() =~= views.take(i as int));
                            assert(views.take(i + 1).last() == views[i as int]);
                            assert(before + f(views[i as int], req.data_type) =~= next);
                            lemma_concat_prefix(f, views, i + 1, req.data_type);
                            assert(next.is_prefix_of(whole)) by {
                                let p = concat_chunks(f, views.take(i + 1), req.data_type);
                                let q = concat_chunks(f, views, req.data_type);
                                assert forall|k: int| 0 <= k < next.len() implies next[k] == whole[k] by {
                                    if k >= old(out)@.len() {
                                        assert(next[k] == p[k - old(out)@.len()]);
                                        assert(whole[k] == q[k - old(out)@.len()]);
                                    }
                                }
                                assert(next =~= whole.subrange(0, next.len() as int));
                            }
                            lemma_prefix_trans(out@, next, whole);
                        }
                    }
                    return Err(e);
                },
            }
            proof {
                lemma_same_reader(old(self).accessor, cur);
                assert(views[i as int] == digests@[i as int]@);
                assert(views.take(i + 1).drop_last() =~= views.take(i as int));
                assert(views.take(i + 1).last() == views[i as int]);
                views.take(i as int).lemma_push_to_set_commute(views[i as int]);
                assert(views.take(i + 1) =~= views.take(i as int).push(views[i as int]));
                if old(self).accessor.exact() && old(self).accessor.records() {
                    assert(self.accessor.visited() =~= visited_before + views.take(i + 1).to_set());
                }
                if req.keep && old(self).accessor.exact() {
                    assert(checker(old(self).accessor)(views[i as int], req.data_type));
                    assert(out@ == before + f(views[i as int], req.data_type));
                    assert(out@ =~= old(out)@ + concat_chunks(f, views.take(i + 1), req.data_type));
                }
            }
            i = i + 1;
        }
        proof {
            assert(views.take(i as int) =~= views);
            if old(self).accessor.exact() && old(self).accessor.records() {
                assert(self.accessor.visited() =~= old(self).accessor.visited() + tree_digests(
                    f,
                    req.data_address.digest@,
                    level,
                ));
            }
        }
        translator.finish()
    }

    /// Resolves a leaf: its result and output are those of one read of the
    /// chunk by the accessor, or of one touch when only touching.
    fn on_data(&mut self, req: &ReadRequest, out: &mut Vec<u8>) -> (r: Result<(), ReadError>)
        requires
            old(self).accessor.inv(),
            req.keep ==> old(self).accessor.accepts(req.data_type),
        ensures
            final(self).accessor.inv(),
            same_policy(old(self).accessor, final(self).accessor),
            extends(final(out)@, old(out)@),
            !req.keep ==> final(out)@ == old(out)@,
            r is Ok && req.keep && old(self).accessor.exact() ==> final(out)@ == old(out)@
                + old(self).accessor.chunk(req.data_address.digest@, req.data_type),
            old(self).accessor.records() ==> final(self).accessor.visited() == old(
                self,
            ).accessor.visited().insert(req.data_address.digest@),
            final(self).max_depth == old(self).max_depth,
            !req.keep ==> r is Ok,
            old(self).accessor.never_fails() ==> r is Ok,
            r is Err && old(self).accessor.exact() && req.keep ==> final(out)@ == old(out)@,
            r is Ok && old(self).accessor.exact() && req.keep ==> old(self).accessor.intact(
                req.data_address.digest@,
                req.data_type,
            ),
    {
        if req.keep {
            self.accessor.read_chunk_into(&req.data_address.digest, req.data_type, out)
        } else {
            self.accessor.touch(&req.data_address.digest)
        }
    }

    /// Resolves `req`: a leaf when its index level is zero, an index otherwise.
    /// Output is only ever appended to, and a touch-only request leaves it as
    /// it was. With an accessor whose reads deliver whole chunks, a successful
    /// read appends exactly the content of the tree below the address. An
    /// address deeper than `max_depth` is refused before any chunk is accessed.
    pub fn read_recursively(&mut self, req: &ReadRequest, out: &mut Vec<u8>) -> (r: Result<
        (),
        ReadError,
    >)
        requires
            old(self).accessor.inv(),
            old(self).accessor.accepts(DataType::Index),
            req.keep ==> old(self).accessor.accepts(req.data_type),
        ensures
            final(self).accessor.inv(),
            same_policy(old(self).accessor, final(self).accessor),
            final(self).max_depth == old(self).max_depth,
            extends(final(out)@, old(out)@),
            !req.keep ==> final(out)@ == old(out)@,
            r is Ok && req.keep && old(self).accessor.exact() ==> final(out)@ == old(out)@
                + flatten(
                reader(old(self).accessor),
                req.data_address.digest@,
                req.data_address.index_level as nat,
                req.data_type,
            ),
            r is Ok && old(self).accessor.exact() && req.data_address.index_level > 0
                ==> remainder_of(
                flatten(
                    reader(old(self).accessor),
                    req.data_address.digest@,
                    (req.data_address.index_level - 1) as nat,
                    DataType::Index,
                ),
            ).len() == 0,
            r is Ok && old(self).accessor.exact() && old(self).accessor.records()
                ==> final(self).accessor.visited() == old(self).accessor.visited() + tree_digests(
                reader(old(self).accessor),
                req.data_address.digest@,
                req.data_address.index_level as nat,
            ),
            old(self).accessor.exact() && req.keep ==> extends(
                old(out)@ + flatten(
                    reader(old(self).accessor),
                    req.data_address.digest@,
                    req.data_address.index_level as nat,
                    req.data_type,
                ),
                final(out)@,
            ),
            r is Ok && req.keep && old(self).accessor.exact() ==> tree_intact(
                checker(old(self).accessor),
                reader(old(self).accessor),
                req.data_address.digest@,
                req.data_address.index_level as nat,
                req.data_type,
            ),
            req.data_address.index_level == 0 && !req.keep ==> r is Ok,
            req.data_address.index_level == 0 && old(self).accessor.never_fails() ==> r is Ok,
            req.data_address.index_level <= old(self).max_depth && old(
                self,
            ).accessor.never_fails() ==> r is Ok || r matches Err(ReadError::TruncatedIndex),
            req.data_address.index_level > old(self).max_depth ==> r matches Err(
                ReadError::TooDeep,
            ),
            req.data_address.index_level > old(self).max_depth ==> final(out)@ == old(out)@
                && *final(self) == *old(self),
        decreases req.data_address.index_level, 1int,
    {
        if req.data_address.index_level > self.max_depth {
            return Err(ReadError::TooDeep);
        }
        if req.data_address.index_level == 0 {
            self.on_data(req, out)
        } else {
            self.on_index(req, out)
        }
    }
}

} // verus!

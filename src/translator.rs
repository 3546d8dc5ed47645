use vstd::prelude::*;

use crate::types::{DataType, Digest, ReadError, DIGEST_SIZE};

verus! {

/// The complete digests at the front of a byte stream, in order.
pub open spec fn digests_of(s: Seq<u8>) -> Seq<Seq<u8>>
    decreases s.len(),
{
    if s.len() < DIGEST_SIZE {
        seq![]
    } else {
        seq![s.take(DIGEST_SIZE as int)] + digests_of(s.skip(DIGEST_SIZE as int))
    }
}

/// The bytes of a stream that remain after its complete digests.
pub open spec fn remainder_of(s: Seq<u8>) -> Seq<u8>
    decreases s.len(),
{
    if s.len() < DIGEST_SIZE {
        s
    } else {
        remainder_of(s.skip(DIGEST_SIZE as int))
    }
}

pub open spec fn digest_views(ds: Seq<Digest>) -> Seq<Seq<u8>> {
    ds.map_values(|d: Digest| d@)
}

/// Feeding a stream in two parts yields what feeding it whole yields: the
/// digests of the first part, then those of its leftover followed by the
/// second part, with the same final leftover.
pub proof fn lemma_split_stream(a: Seq<u8>, b: Seq<u8>)
    ensures
        digests_of(a + b) == digests_of(a) + digests_of(remainder_of(a) + b),
        remainder_of(a + b) == remainder_of(remainder_of(a) + b),
    decreases a.len(),
{
    if a.len() < DIGEST_SIZE {
        assert(digests_of(a) =~= seq![]);
        assert(digests_of(a) + digests_of(remainder_of(a) + b) =~= digests_of(a + b));
    } else {
        let d = DIGEST_SIZE as int;
        assert((a + b).take(d) =~= a.take(d));
        assert((a + b).skip(d) =~= a.skip(d) + b);
        lemma_split_stream(a.skip(d), b);
        assert(digests_of(a + b) =~= seq![a.take(d)] + digests_of(a.skip(d) + b));
        assert(digests_of(a) + digests_of(remainder_of(a) + b) =~= seq![a.take(d)] + (
        digests_of(a.skip(d)) + digests_of(remainder_of(a.skip(d)) + b)));
    }
}

/// Byte sequences written one after another.
pub open spec fn joined(ds: Seq<Seq<u8>>) -> Seq<u8>
    decreases ds.len(),
{
    if ds.len() == 0 {
        seq![]
    } else {
        ds[0] + joined(ds.skip(1))
    }
}

/// Digests written one after another decode back to the same digests, with
/// nothing left over.
pub proof fn lemma_decode_joined(ds: Seq<Seq<u8>>)
    requires
        forall|i: int| 0 <= i < ds.len() ==> #[trigger] ds[i].len() == DIGEST_SIZE,
    ensures
        digests_of(joined(ds)) == ds,
        remainder_of(joined(ds)).len() == 0,
    decreases ds.len(),
{
    if ds.len() == 0 {
        assert(digests_of(joined(ds)) =~= ds);
    } else {
        let d = DIGEST_SIZE as int;
        let rest = ds.skip(1);
        assert forall|i: int| 0 <= i < rest.len() implies #[trigger] rest[i].len() == DIGEST_SIZE by {
            assert(rest[i] == ds[i + 1]);
        }
        lemma_decode_joined(rest);
        assert(ds[0].len() == DIGEST_SIZE);
        assert(joined(ds).take(d) =~= ds[0]);
        assert(joined(ds).skip(d) =~= joined(rest));
        assert(digests_of(joined(ds)) =~= seq![ds[0]] + rest);
        assert(seq![ds[0]] + rest =~= ds);
    }
}

/// The digests produced by writing `pieces` one after another to a
/// translator whose buffer holds `buf`.
pub open spec fn written(buf: Seq<u8>, pieces: Seq<Seq<u8>>) -> Seq<Seq<u8>>
    decreases pieces.len(),
{
    if pieces.len() == 0 {
        seq![]
    } else {
        digests_of(buf + pieces[0]) + written(remainder_of(buf + pieces[0]), pieces.skip(1))
    }
}

/// The buffer left after writing `pieces` one after another from `buf`.
pub open spec fn left_after(buf: Seq<u8>, pieces: Seq<Seq<u8>>) -> Seq<u8>
    decreases pieces.len(),
{
    if pieces.len() == 0 {
        buf
    } else {
        left_after(remainder_of(buf + pieces[0]), pieces.skip(1))
    }
}

proof fn lemma_remainder_short(s: Seq<u8>)
    ensures
        remainder_of(s).len() < DIGEST_SIZE,
    decreases s.len(),
{
    if s.len() >= DIGEST_SIZE {
        lemma_remainder_short(s.skip(DIGEST_SIZE as int));
    }
}

proof fn lemma_written_from(buf: Seq<u8>, pieces: Seq<Seq<u8>>)
    requires
        buf.len() < DIGEST_SIZE,
    ensures
        written(buf, pieces) == digests_of(buf + joined(pieces)),
        left_after(buf, pieces) == remainder_of(buf + joined(pieces)),
    decreases pieces.len(),
{
    if pieces.len() == 0 {
        assert(buf + joined(pieces) =~= buf);
        assert(digests_of(buf) =~= seq![]);
    } else {
        let a = buf + pieces[0];
        let rest = pieces.skip(1);
        lemma_split_stream(a, joined(rest));
        lemma_remainder_short(a);
        lemma_written_from(remainder_of(a), rest);
        assert(buf + joined(pieces) =~= a + joined(rest));
    }
}

/// However a stream is cut into pieces, writing the pieces one after another
/// to a fresh translator yields the digests of the whole stream, in order,
/// and leaves the same bytes buffered.
pub proof fn lemma_any_chunking(pieces: Seq<Seq<u8>>)
    ensures
        written(seq![], pieces) == digests_of(joined(pieces)),
        left_after(seq![], pieces) == remainder_of(joined(pieces)),
{
    lemma_written_from(seq![], pieces);
    assert(Seq::<u8>::empty() + joined(pieces) =~= joined(pieces));
}

/// Turns a stream of bytes, written in pieces of any size, into the sequence of
/// fixed-width digests that it encodes.
pub struct IndexTranslator {
    pub digest_buf: Vec<u8>,
    pub data_type: DataType,
}

fn push_range(buf: &mut Vec<u8>, bytes: &[u8], from: usize, to: usize)
    requires
        from <= to <= bytes@.len(),
    ensures
        final(buf)@ == old(buf)@ + bytes@.subrange(from as int, to as int),
{
    let mut i: usize = from;
    while i < to
        invariant
            from <= i <= to <= bytes@.len(),
            buf@ == old(buf)@ + bytes@.subrange(from as int, i as int),
        decreases to - i,
    {
        buf.push(bytes[i]);
        i = i + 1;
        assert(buf@ =~= old(buf)@ + bytes@.subrange(from as int, i as int));
    }
}

impl IndexTranslator {
    pub open spec fn wf(&self) -> bool {
        self.digest_buf@.len() < DIGEST_SIZE
    }

    /// A translator with an empty buffer, for an index whose leaves hold
    /// `data_type` content.
    pub fn new(data_type: DataType) -> (r: IndexTranslator)
        ensures
            r.wf(),
            r.digest_buf@ == Seq::<u8>::empty(),
            r.data_type == data_type,
    {
        IndexTranslator { digest_buf: Vec::with_capacity(DIGEST_SIZE), data_type }
    }

    /// Accepts the next piece of the stream and returns the digests that it
    /// completes, in order; the bytes of an incomplete digest stay buffered.
    pub fn write(&mut self, bytes: &[u8]) -> (r: Vec<Digest>)
        requires
            old(self).wf(),
            bytes@.len() > 0,
        ensures
            final(self).wf(),
            final(self).data_type == old(self).data_type,
            digest_views(r@) == digests_of(old(self).digest_buf@ + bytes@),
            final(self).digest_buf@ == remainder_of(old(self).digest_buf@ + bytes@),
    {
        let ghost all = old(self).digest_buf@ + bytes@;
        let mut done: Vec<Digest> = Vec::new();
        let mut pos: usize = 0;
        assert(bytes@.skip(0) =~= bytes@);
        assert(digest_views(done@) + digests_of(all) =~= digests_of(all));
        loop
            invariant
                all == old(self).digest_buf@ + bytes@,
                pos <= bytes@.len(),
                self.wf(),
                self.data_type == old(self).data_type,
                digests_of(all) == digest_views(done@) + digests_of(
                    self.digest_buf@ + bytes@.skip(pos as int),
                ),
                remainder_of(all) == remainder_of(self.digest_buf@ + bytes@.skip(pos as int)),
            decreases bytes@.len() - pos,
        {
            let has_already = self.digest_buf.len();
            let ghost s = self.digest_buf@ + bytes@.skip(pos as int);
            if bytes.len() - pos < DIGEST_SIZE - has_already {
                push_range(&mut self.digest_buf, bytes, pos, bytes.len());
                assert(self.digest_buf@ =~= s);
                assert(digests_of(s) =~= seq![]);
                assert(remainder_of(s) == s);
                assert(digest_views(done@) + digests_of(s) =~= digest_views(done@));
                return done;
            }
            let needs = DIGEST_SIZE - has_already;
            push_range(&mut self.digest_buf, bytes, pos, pos + needs);
            assert(self.digest_buf@ =~= s.take(DIGEST_SIZE as int));
            let mut full: Vec<u8> = Vec::with_capacity(DIGEST_SIZE);
            std::mem::swap(&mut full, &mut self.digest_buf);
            let ghost before = done@;
            done.push(Digest { bytes: full });
            pos = pos + needs;
            assert(s.skip(DIGEST_SIZE as int) =~= self.digest_buf@ + bytes@.skip(pos as int));
            assert(digest_views(done@) =~= digest_views(before) + seq![s.take(DIGEST_SIZE as int)]);
            assert(digest_views(done@) + digests_of(self.digest_buf@ + bytes@.skip(pos as int))
                =~= digest_views(before) + digests_of(s));
        }
    }

    /// Ends the stream: it must have held a whole number of digests.
    pub fn finish(self) -> (r: Result<(), ReadError>)
        ensures
            r is Ok <==> self.digest_buf@.len() == 0,
            r is Err ==> r matches Err(ReadError::TruncatedIndex),
    {
        if self.digest_buf.len() == 0 {
            Ok(())
        } else {
            Err(ReadError::TruncatedIndex)
        }
    }
}

} // verus!

//! Building corpus store: closed rings of point IDs written as one
//! self-delimiting byte stream.  Each ring is its IDs as big-endian 64-bit
//! words followed by the reserved terminator word zero — ID zero never names
//! a point — so the stream can be written in one pass and read back ring by
//! ring in a second pass, never holding more than one ring in memory.

use vstd::prelude::*;
use crate::encoding::{u64_be_bytes, u64_of_be_bytes, push_u64_be, read_u64_be,
    lemma_u64_be_round_trip};

verus! {

/// True of a vertex list the corpus accepts: a closed ring stores at least
/// three vertex IDs, and ID zero is reserved as the record terminator.
pub open spec fn valid_ring(ids: Seq<u64>) -> bool {
    ids.len() >= 3 && forall|i: int| 0 <= i < ids.len() ==> ids[i] != 0
}

/// The byte image of one ring: each ID as eight big-endian bytes, then the
/// terminator word.
pub open spec fn ring_image(ids: Seq<u64>) -> Seq<u8>
    decreases ids.len(),
{
    if ids.len() == 0 {
        u64_be_bytes(0)
    } else {
        u64_be_bytes(ids[0]) + ring_image(ids.drop_first())
    }
}

/// The byte image of a whole corpus: the rings' images in order.
pub open spec fn corpus_image(rings: Seq<Seq<u64>>) -> Seq<u8>
    decreases rings.len(),
{
    if rings.len() == 0 {
        Seq::<u8>::empty()
    } else {
        ring_image(rings[0]) + corpus_image(rings.drop_first())
    }
}

/// A ring image holds eight bytes per ID plus the terminator word.
pub proof fn lemma_ring_image_len(ids: Seq<u64>)
    ensures
        ring_image(ids).len() == 8 * ids.len() + 8,
    decreases ids.len(),
{
    if ids.len() > 0 {
        lemma_ring_image_len(ids.drop_first());
    }
}

/// Word slot `j` of a ring image holds the `j`-th ID, or the terminator.
pub proof fn lemma_ring_image_slot(ids: Seq<u64>, j: int)
    requires
        0 <= j <= ids.len(),
    ensures
        ring_image(ids).subrange(8 * j, 8 * j + 8) == u64_be_bytes(
            if j < ids.len() {
                ids[j]
            } else {
                0
            },
        ),
    decreases j,
{
    lemma_ring_image_len(ids);
    if j == 0 {
        if ids.len() == 0 {
            assert(ring_image(ids).subrange(0, 8) =~= u64_be_bytes(0));
        } else {
            lemma_ring_image_len(ids.drop_first());
            assert(ring_image(ids).subrange(0, 8) =~= u64_be_bytes(ids[0]));
        }
    } else {
        lemma_ring_image_slot(ids.drop_first(), j - 1);
        lemma_ring_image_len(ids.drop_first());
        assert(ring_image(ids).subrange(8 * j, 8 * j + 8) =~= ring_image(
            ids.drop_first(),
        ).subrange(8 * (j - 1), 8 * (j - 1) + 8));
        if j < ids.len() {
            assert(ids.drop_first()[j - 1] == ids[j]);
        }
    }
}

/// Appending a ring appends exactly its image.
pub proof fn lemma_corpus_image_push(rings: Seq<Seq<u64>>, r: Seq<u64>)
    ensures
        corpus_image(rings.push(r)) == corpus_image(rings) + ring_image(r),
    decreases rings.len(),
{
    assert(rings.push(r).len() == rings.len() + 1);
    assert(corpus_image(rings.push(r)) == ring_image(rings.push(r)[0]) + corpus_image(
        rings.push(r).drop_first(),
    ));
    if rings.len() == 0 {
        assert(rings.push(r)[0] == r);
        assert(rings.push(r).drop_first() =~= Seq::<Seq<u64>>::empty());
        assert(corpus_image(rings.push(r)) =~= corpus_image(rings) + ring_image(r));
    } else {
        assert(rings.push(r)[0] == rings[0]);
        assert(rings.push(r).drop_first() =~= rings.drop_first().push(r));
        lemma_corpus_image_push(rings.drop_first(), r);
        assert(corpus_image(rings.push(r)) =~= corpus_image(rings) + ring_image(r));
    }
}

/// The image of a corpus splits at any ring boundary.
pub proof fn lemma_corpus_image_split(rings: Seq<Seq<u64>>, k: int)
    requires
        0 <= k <= rings.len(),
    ensures
        corpus_image(rings) == corpus_image(rings.take(k)) + corpus_image(rings.skip(k)),
    decreases k,
{
    if k == 0 {
        assert(rings.take(0) =~= Seq::<Seq<u64>>::empty());
        assert(rings.skip(0) =~= rings);
        assert(corpus_image(rings) =~= corpus_image(rings.take(0)) + corpus_image(rings.skip(0)));
    } else {
        assert(rings.take(k) =~= rings.take(k - 1).push(rings[k - 1]));
        lemma_corpus_image_push(rings.take(k - 1), rings[k - 1]);
        lemma_corpus_image_split(rings, k - 1);
        assert(rings.skip(k - 1).len() > 0);
        assert(rings.skip(k - 1)[0] == rings[k - 1]);
        assert(rings.skip(k - 1).drop_first() =~= rings.skip(k));
        assert(corpus_image(rings) =~= corpus_image(rings.take(k)) + corpus_image(rings.skip(k)));
    }
}

/// Append the image of `ids[from..]` followed by the terminator word.
fn push_ring_tail(out: &mut Vec<u8>, ids: &Vec<u64>, from: usize)
    requires
        from <= ids@.len(),
    ensures
        final(out)@ == old(out)@ + ring_image(ids@.skip(from as int)),
    decreases ids@.len() - from,
{
    if from == ids.len() {
        push_u64_be(out, 0);
        proof {
            assert(ids@.skip(from as int) =~= Seq::<u64>::empty());
        }
    } else {
        push_u64_be(out, ids[from]);
        push_ring_tail(out, ids, from + 1);
        proof {
            let s = ids@.skip(from as int);
            assert(s[0] == ids@[from as int]);
            assert(s.drop_first() =~= ids@.skip(from as int + 1));
            assert(out@ =~= old(out)@ + ring_image(ids@.skip(from as int)));
        }
    }
}

/// A corpus of building rings held as one self-delimiting byte stream, with
/// a read cursor for the aggregation pass.
pub struct BuildingCorpus {
    data: Vec<u8>,
    pos: usize,
    rings: Ghost<Seq<Seq<u64>>>,
    read: Ghost<int>,
}

impl BuildingCorpus {
    /// The rings appended so far, in order.
    pub closed spec fn rings(self) -> Seq<Seq<u64>> {
        self.rings@
    }

    /// How many rings the read cursor has already passed.
    pub closed spec fn read_count(self) -> int {
        self.read@
    }

    /// Well-formed: the bytes are exactly the rings' images, every ring is
    /// valid, and the cursor sits on a ring boundary.
    pub closed spec fn wf(self) -> bool {
        &&& self.data@ == corpus_image(self.rings@)
        &&& forall|k: int| 0 <= k < self.rings@.len() ==> valid_ring(#[trigger] self.rings@[k])
        &&& 0 <= self.read@ <= self.rings@.len()
        &&& self.pos as int == corpus_image(self.rings@.take(self.read@)).len()
    }

    /// An empty corpus.
    pub fn new() -> (c: Self)
        ensures
            c.wf(),
            c.rings() =~= Seq::<Seq<u64>>::empty(),
            c.read_count() == 0,
    {
        let c = BuildingCorpus {
            data: Vec::new(),
            pos: 0,
            rings: Ghost(Seq::empty()),
            read: Ghost(0),
        };
        proof {
            assert(c.rings@.take(0) =~= Seq::<Seq<u64>>::empty());
        }
        c
    }

    /// The byte stream itself, as it would stand on disk.
    pub fn byte_image(&self) -> (bytes: &Vec<u8>)
        requires
            self.wf(),
        ensures
            bytes@ == corpus_image(self.rings()),
    {
        &self.data
    }

    /// Write one building ring at the end of the stream.
    pub fn append_building(&mut self, ids: &Vec<u64>)
        requires
            old(self).wf(),
            valid_ring(ids@),
        ensures
            final(self).wf(),
            final(self).rings() == old(self).rings().push(ids@),
            final(self).read_count() == old(self).read_count(),
    {
        push_ring_tail(&mut self.data, ids, 0);
        proof {
            assert(ids@.skip(0) =~= ids@);
        }
        self.rings = Ghost(self.rings@.push(ids@));
        proof {
            lemma_corpus_image_push(old(self).rings@, ids@);
            assert(self.rings@.take(self.read@) =~= old(self).rings@.take(self.read@));
        }
    }

    /// Reset the cursor so the rings can be read back from the start.
    pub fn rewind(&mut self)
        requires
            old(self).wf(),
        ensures
            final(self).wf(),
            final(self).rings() == old(self).rings(),
            final(self).read_count() == 0,
    {
        self.pos = 0;
        self.read = Ghost(0);
        proof {
            assert(self.rings@.take(0) =~= Seq::<Seq<u64>>::empty());
        }
    }

    /// Read the next ring, advancing the cursor; `None` at end of store.
    /// Reading back yields exactly the rings that were appended, in order.
    pub fn next_building(&mut self) -> (r: Option<Vec<u64>>)
        requires
            old(self).wf(),
        ensures
            final(self).wf(),
            final(self).rings() == old(self).rings(),
            old(self).read_count() < old(self).rings().len() ==> (r matches Some(v)
                && v@ == old(self).rings()[old(self).read_count()]
                && final(self).read_count() == old(self).read_count() + 1),
            old(self).read_count() == old(self).rings().len() ==> (r is None
                && final(self).read_count() == old(self).read_count()),
    {
        let ghost rings = self.rings@;
        let ghost k = self.read@;
        proof {
            lemma_corpus_image_split(rings, k);
            if k < rings.len() {
                assert(rings.skip(k).len() > 0);
                assert(rings.skip(k)[0] == rings[k]);
                assert(rings.skip(k).drop_first() =~= rings.skip(k + 1));
                lemma_ring_image_len(rings[k]);
            }
        }
        let dlen: usize = self.data.len();
        if self.pos >= dlen {
            proof {
                if k < rings.len() {
                    lemma_ring_image_len(rings[k]);
                    assert(false);
                }
            }
            return None;
        }
        proof {
            if k >= rings.len() {
                assert(rings.skip(k) =~= Seq::<Seq<u64>>::empty());
                assert(false);
            }
        }
        let ghost ring = rings[k];
        let ghost base = self.pos as int;
        proof {
            assert(valid_ring(ring));
            lemma_ring_image_len(ring);
            assert(self.data@ == corpus_image(rings.take(k)) + (ring_image(ring) + corpus_image(
                rings.skip(k + 1),
            )));
            assert(self.data@.subrange(base, base + 8) =~= ring_image(ring).subrange(
                0int,
                8int,
            ));
            lemma_ring_image_slot(ring, 0);
            lemma_u64_be_round_trip(ring[0]);
        }
        let mut ids: Vec<u64> = Vec::new();
        let mut j: usize = 0;
        let mut w: u64 = read_u64_be(&self.data, self.pos);
        self.pos = self.pos + 8;
        while w != 0
            invariant
                self.data@ == old(self).data@,
                self.rings@ == rings,
                self.read@ == k,
                0 <= k < rings.len(),
                ring == rings[k],
                valid_ring(ring),
                base == corpus_image(rings.take(k)).len(),
                self.data@ == corpus_image(rings.take(k)) + (ring_image(ring) + corpus_image(
                    rings.skip(k + 1),
                )),
                j == ids@.len(),
                j <= ring.len(),
                ids@ == ring.take(j as int),
                self.pos as int == base + 8 * (j + 1),
                w == (if j < ring.len() {
                    ring[j as int]
                } else {
                    0
                }),
            decreases ring.len() - j,
        {
            proof {
                if j >= ring.len() {
                    assert(false);
                }
            }
            ids.push(w);
            j = j + 1;
            proof {
                lemma_ring_image_len(ring);
                assert(self.pos as int == base + 8 * (j as int));
                assert(self.data@.subrange(
                    base + 8 * (j as int),
                    base + 8 * (j as int) + 8,
                ) =~= ring_image(ring).subrange(8 * (j as int), 8 * (j as int) + 8));
                lemma_ring_image_slot(ring, j as int);
                if j < ring.len() {
                    lemma_u64_be_round_trip(ring[j as int]);
                } else {
                    lemma_u64_be_round_trip(0);
                }
                assert(ids@ =~= ring.take(j as int));
            }
            // the exec length call carries the byte count's usize bound,
            // which the cursor advance below needs
            let _bound: usize = self.data.len();
            w = read_u64_be(&self.data, self.pos);
            self.pos = self.pos + 8;
        }
        proof {
            assert(j == ring.len());
            assert(ids@ =~= ring);
            assert(rings.take(k + 1) =~= rings.take(k).push(ring));
            lemma_corpus_image_push(rings.take(k), ring);
            lemma_ring_image_len(ring);
        }
        self.read = Ghost(k + 1);
        Some(ids)
    }
}

} // verus!

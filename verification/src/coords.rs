//! Fixed-stride coordinate store: record `i` holds the two big-endian
//! single-precision words of point `i`'s projected coordinate, and a reserved
//! sentinel pair marks a record as absent.  Writing past the current end first
//! fills every intervening record with the sentinel, so sparse or out-of-order
//! point IDs never read back as a valid-looking coordinate.

use vstd::prelude::*;
use crate::encoding::{u32_be_bytes, u32_of_be_bytes, push_u32_be, read_u32_be,
    lemma_u32_be_round_trip};

verus! {

/// Bit pattern of the reserved "absent" coordinate word: the IEEE
/// single-precision positive-infinity image, which no finite projected
/// coordinate produces.
pub const ABSENT_BITS: u32 = 0x7f800000;

/// One projected coordinate, held as the bit patterns of its two
/// single-precision words.
#[derive(Clone, Copy, PartialEq, Eq, Structural, Debug)]
pub struct Coord {
    pub x_bits: u32,
    pub y_bits: u32,
}

/// The record that marks a point as absent.
pub open spec fn absent_record() -> Coord {
    Coord { x_bits: ABSENT_BITS, y_bits: ABSENT_BITS }
}

/// True of a record that reads back as "no coordinate stored".
pub open spec fn is_absent(c: Coord) -> bool {
    c.x_bits == ABSENT_BITS || c.y_bits == ABSENT_BITS
}

/// Disk-backed in spirit, the store is a dense array of records indexed by
/// point ID; `records()` is its abstract content, absent records included.
pub struct CoordStore {
    records: Vec<Coord>,
}

impl CoordStore {
    /// The dense record sequence the store holds.
    pub closed spec fn records(self) -> Seq<Coord> {
        self.records@
    }

    /// What `get` returns for a point ID: the stored pair, unless the ID lies
    /// past the last record written or the record holds the sentinel.
    pub open spec fn spec_get(self, id: u64) -> Option<Coord> {
        if id < self.records().len() && !is_absent(self.records()[id as int]) {
            Some(self.records()[id as int])
        } else {
            None
        }
    }

    /// An empty store: every ID is absent.
    pub fn new() -> (s: Self)
        ensures
            s.records() =~= Seq::<Coord>::empty(),
    {
        CoordStore { records: Vec::new() }
    }

    /// Number of records the store currently holds.
    pub fn len(&self) -> (n: usize)
        ensures
            n == self.records().len(),
    {
        self.records.len()
    }

    /// Record a coordinate for a point ID.  Every record between the old end
    /// of the store and `id` is initialized to the sentinel before the write,
    /// and no previously written record other than `id`'s is disturbed.
    pub fn set(&mut self, id: u64, c: Coord)
        requires
            id + 1 <= usize::MAX,
        ensures
            final(self).records().len() == if id + 1 > old(self).records().len() {
                id + 1
            } else {
                old(self).records().len() as int
            },
            final(self).records()[id as int] == c,
            forall|j: int|
                0 <= j < final(self).records().len() && j != id ==> final(self).records()[j] == (
                if j < old(self).records().len() {
                    old(self).records()[j]
                } else {
                    absent_record()
                }),
    {
        let idx: usize = id as usize;
        while self.records.len() < idx + 1
            invariant
                idx + 1 <= usize::MAX,
                self.records@.len() >= old(self).records@.len(),
                self.records@.len() <= idx + 1 || self.records@.len() == old(
                    self,
                ).records@.len(),
                forall|j: int|
                    0 <= j < self.records@.len() ==> self.records@[j] == (
                    if j < old(self).records@.len() {
                        old(self).records@[j]
                    } else {
                        absent_record()
                    }),
            decreases idx + 1 - self.records@.len(),
        {
            self.records.push(Coord { x_bits: ABSENT_BITS, y_bits: ABSENT_BITS });
        }
        let slot = vstd::std_specs::vec::vec_index_mut(&mut self.records, idx);
        *slot = c;
    }

    /// Look a point ID up; absence is derived from the sentinel, never from
    /// the store's length alone.
    pub fn get(&self, id: u64) -> (r: Option<Coord>)
        ensures
            r == self.spec_get(id),
    {
        if id < self.records.len() as u64 {
            let c = self.records[id as usize];
            if c.x_bits == ABSENT_BITS || c.y_bits == ABSENT_BITS {
                None
            } else {
                Some(c)
            }
        } else {
            None
        }
    }
}

/// The 8-byte image of one record: its two words big-endian, x first.
pub open spec fn record_image(c: Coord) -> Seq<u8> {
    u32_be_bytes(c.x_bits) + u32_be_bytes(c.y_bits)
}

/// The byte image of a dense record sequence: record `i` occupies bytes
/// `[8 * i, 8 * (i + 1))`.
pub open spec fn records_image(recs: Seq<Coord>) -> Seq<u8>
    decreases recs.len(),
{
    if recs.len() == 0 {
        Seq::<u8>::empty()
    } else {
        record_image(recs[0]) + records_image(recs.drop_first())
    }
}

/// A byte image holds 8 bytes per record.
pub proof fn lemma_records_image_len(recs: Seq<Coord>)
    ensures
        records_image(recs).len() == 8 * recs.len(),
    decreases recs.len(),
{
    if recs.len() > 0 {
        lemma_records_image_len(recs.drop_first());
    }
}

/// Appending a record appends exactly its image.
pub proof fn lemma_records_image_push(recs: Seq<Coord>, c: Coord)
    ensures
        records_image(recs.push(c)) == records_image(recs) + record_image(c),
    decreases recs.len(),
{
    assert(recs.push(c).len() == recs.len() + 1);
    assert(records_image(recs.push(c)) == record_image(recs.push(c)[0]) + records_image(
        recs.push(c).drop_first(),
    ));
    if recs.len() == 0 {
        assert(recs.push(c)[0] == c);
        assert(recs.push(c).drop_first() =~= Seq::<Coord>::empty());
        assert(records_image(recs.push(c)) =~= records_image(recs) + record_image(c));
    } else {
        assert(recs.push(c)[0] == recs[0]);
        assert(recs.push(c).drop_first() =~= recs.drop_first().push(c));
        lemma_records_image_push(recs.drop_first(), c);
        assert(records_image(recs.push(c)) =~= records_image(recs) + record_image(c));
    }
}

/// Record `i`'s two words read back from the byte image as they were stored.
pub proof fn lemma_records_image_slot(recs: Seq<Coord>, i: int)
    requires
        0 <= i < recs.len(),
    ensures
        u32_of_be_bytes(records_image(recs).subrange(8 * i, 8 * i + 4)) == recs[i].x_bits,
        u32_of_be_bytes(records_image(recs).subrange(8 * i + 4, 8 * i + 8)) == recs[i].y_bits,
    decreases i,
{
    lemma_records_image_len(recs);
    lemma_records_image_len(recs.drop_first());
    if i == 0 {
        assert(records_image(recs).subrange(0, 4) =~= u32_be_bytes(recs[0].x_bits));
        assert(records_image(recs).subrange(4, 8) =~= u32_be_bytes(recs[0].y_bits));
        lemma_u32_be_round_trip(recs[0].x_bits);
        lemma_u32_be_round_trip(recs[0].y_bits);
    } else {
        lemma_records_image_slot(recs.drop_first(), i - 1);
        assert(records_image(recs).subrange(8 * i, 8 * i + 4) =~= records_image(
            recs.drop_first(),
        ).subrange(8 * (i - 1), 8 * (i - 1) + 4));
        assert(records_image(recs).subrange(8 * i + 4, 8 * i + 8) =~= records_image(
            recs.drop_first(),
        ).subrange(8 * (i - 1) + 4, 8 * (i - 1) + 8));
        assert(recs.drop_first()[i - 1] == recs[i]);
    }
}

impl CoordStore {
    /// Serialize the store to its fixed-stride byte image.
    pub fn file_image(&self) -> (bytes: Vec<u8>)
        ensures
            bytes@ == records_image(self.records()),
            bytes@.len() == 8 * self.records().len(),
    {
        let mut out: Vec<u8> = Vec::new();
        let n: usize = self.records.len();
        let mut i: usize = 0;
        while i < n
            invariant
                n == self.records@.len(),
                i <= n,
                out@ == records_image(self.records@.take(i as int)),
            decreases n - i,
        {
            let c = self.records[i];
            push_u32_be(&mut out, c.x_bits);
            push_u32_be(&mut out, c.y_bits);
            proof {
                assert(self.records@.take(i + 1) =~= self.records@.take(i as int).push(
                    self.records@[i as int],
                ));
                lemma_records_image_push(self.records@.take(i as int), self.records@[i as int]);
                assert(out@ =~= records_image(self.records@.take(i + 1)));
            }
            i = i + 1;
        }
        proof {
            assert(self.records@.take(n as int) =~= self.records@);
            lemma_records_image_len(self.records@);
        }
        out
    }

    /// Rebuild a store from a byte image; `None` exactly when the image is
    /// not a whole number of 8-byte records.  Together with
    /// `lemma_records_image_slot` this gives the round trip: the image of a
    /// store reads back as the same store.
    pub fn of_file_image(bytes: &Vec<u8>) -> (r: Option<CoordStore>)
        ensures
            (r is Some) <==> bytes@.len() % 8 == 0,
            r matches Some(s) ==> {
                &&& s.records().len() == bytes@.len() / 8
                &&& forall|i: int|
                    0 <= i < s.records().len() ==> #[trigger] s.records()[i] == (Coord {
                        x_bits: u32_of_be_bytes(bytes@.subrange(8 * i, 8 * i + 4)),
                        y_bits: u32_of_be_bytes(bytes@.subrange(8 * i + 4, 8 * i + 8)),
                    })
            },
    {
        let len: usize = bytes.len();
        if len % 8 != 0 {
            return None;
        }
        let n: usize = len / 8;
        let mut recs: Vec<Coord> = Vec::new();
        let mut i: usize = 0;
        while i < n
            invariant
                bytes@.len() == len,
                len % 8 == 0,
                n == len / 8,
                i <= n,
                recs@.len() == i,
                forall|k: int|
                    0 <= k < i ==> #[trigger] recs@[k] == (Coord {
                        x_bits: u32_of_be_bytes(bytes@.subrange(8 * k, 8 * k + 4)),
                        y_bits: u32_of_be_bytes(bytes@.subrange(8 * k + 4, 8 * k + 8)),
                    }),
            decreases n - i,
        {
            let off: usize = 8 * i;
            let x = read_u32_be(bytes, off);
            let y = read_u32_be(bytes, off + 4);
            recs.push(Coord { x_bits: x, y_bits: y });
            i = i + 1;
        }
        Some(CoordStore { records: recs })
    }
}

} // verus!

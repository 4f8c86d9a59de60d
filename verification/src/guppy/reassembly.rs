//! A success response put back together from its packets, which may come
//! out of order and more than once.
use std::collections::BTreeMap;

use vstd::prelude::*;
use vstd::std_specs::cmp::OrdSpec;
use vstd::std_specs::iter::IteratorSpec;

verus! {

broadcast use {vstd::std_specs::btree::group_btree_axioms, vstd::laws_cmp::group_laws_cmp};

/// The chunks received so far of one success response.
pub struct Reassembly {
    pub first_seq: u32,
    pub mime: String,
    /// Each chunk's data by its sequence number, the first packet's
    /// included.
    pub chunks: BTreeMap<u32, Vec<u8>>,
    /// The highest number such that every number from `first_seq` up to it
    /// has arrived.
    pub contiguous_end: u32,
    /// Every data byte received, duplicates included; it bounds memory
    /// against a hostile sender.
    pub buffered: usize,
    /// The empty continuation's number, once seen.
    pub eof_seq: Option<u32>,
}

/// Keys in strictly increasing order.
pub open spec fn increasing(ks: Seq<u32>) -> bool {
    forall|i: int, j: int| 0 <= i < j < ks.len() ==> ks[i] < ks[j]
}

/// The keys of a map in increasing order.
pub open spec fn key_order(d: Set<u32>) -> Seq<u32> {
    choose|ks: Seq<u32>| increasing(ks) && ks.to_set() == d
}

/// Byte runs one after another.
pub open spec fn flatten(vs: Seq<Seq<u8>>) -> Seq<u8>
    decreases vs.len(),
{
    if vs.len() == 0 {
        seq![]
    } else {
        flatten(vs.drop_last()) + vs.last()
    }
}

/// The chunks' data one after another, in sequence order.
pub open spec fn ordered_body(m: Map<u32, Vec<u8>>) -> Seq<u8> {
    flatten(key_order(m.dom()).map_values(|k: u32| m[k]@))
}

/// Two increasing key sequences over the same keys are the same sequence.
pub proof fn lemma_increasing_unique(a: Seq<u32>, b: Seq<u32>)
    requires
        increasing(a),
        increasing(b),
        a.to_set() == b.to_set(),
    ensures
        a == b,
    decreases a.len(),
{
    if a.len() == 0 {
        if b.len() > 0 {
            assert(b.to_set().contains(b[0]));
        }
        assert(b.len() == 0);
        assert(a =~= b);
    } else {
        assert(a.to_set().contains(a[0]));
        assert(b.len() > 0) by {
            if b.len() == 0 {
                assert(!b.to_set().contains(a[0]));
            }
        }
        // Each sequence starts with the least key.
        assert(b.to_set().contains(a[0]));
        let ia = choose|i: int| 0 <= i < b.len() && b[i] == a[0];
        assert(a.to_set().contains(b[0]));
        let ib = choose|i: int| 0 <= i < a.len() && a[i] == b[0];
        assert(a[0] == b[0]) by {
            if a[0] != b[0] {
                assert(ia > 0 && ib > 0);
                assert(b[0] < b[ia]);
                assert(a[0] < a[ib]);
            }
        }
        let a2 = a.drop_first();
        let b2 = b.drop_first();
        assert(a2.to_set() == b2.to_set()) by {
            assert forall|x: u32| a2.to_set().contains(x) implies b2.to_set().contains(x) by {
                let i = choose|i: int| 0 <= i < a2.len() && a2[i] == x;
                assert(a[i + 1] == x && x > a[0]);
                assert(b.to_set().contains(x));
                let j = choose|j: int| 0 <= j < b.len() && b[j] == x;
                assert(j > 0);
                assert(b2[j - 1] == x);
            }
            assert forall|x: u32| b2.to_set().contains(x) implies a2.to_set().contains(x) by {
                let i = choose|i: int| 0 <= i < b2.len() && b2[i] == x;
                assert(b[i + 1] == x && x > b[0]);
                assert(a.to_set().contains(x));
                let j = choose|j: int| 0 <= j < a.len() && a[j] == x;
                assert(j > 0);
                assert(a2[j - 1] == x);
            }
            assert(a2.to_set() =~= b2.to_set());
        }
        lemma_increasing_unique(a2, b2);
        assert(a =~= b) by {
            assert forall|i: int| 0 <= i < a.len() implies a[i] == b[i] by {
                if i > 0 {
                    assert(a[i] == a2[i - 1] && b[i] == b2[i - 1]);
                }
            }
        }
    }
}

/// The order a `BTreeMap` of `u32` keys walks them in is increasing.
proof fn lemma_btree_order(ks: Seq<u32>)
    requires
        vstd::std_specs::btree::increasing_seq(ks),
    ensures
        increasing(ks),
{
    assert forall|i: int, j: int| 0 <= i < j < ks.len() implies ks[i] < ks[j] by {
        assert(ks[i].cmp_spec(&ks[j]) is Less);
    }
}

impl Reassembly {
    /// The reassembly is consistent: the first chunk's number starts the
    /// contiguous run, every number in the run has arrived, and every chunk
    /// lies at or after the first.
    pub open spec fn well_formed(&self) -> bool {
        &&& self.first_seq <= self.contiguous_end
        &&& forall|s: u32|
            self.first_seq <= s <= self.contiguous_end ==> #[trigger] self.chunks@.contains_key(s)
        &&& forall|s: u32| #[trigger] self.chunks@.contains_key(s) ==> self.first_seq <= s
        &&& self.contiguous_end < u32::MAX ==> !self.chunks@.contains_key(
            (self.contiguous_end + 1) as u32,
        )
    }

    /// A reassembly begun by a first packet.
    pub fn start(seq: u32, mime: String, data: Vec<u8>) -> (r: Self)
        ensures
            r.well_formed(),
            r.first_seq == seq,
            r.mime == mime,
            r.contiguous_end == seq,
            r.chunks@ == Map::<u32, Vec<u8>>::empty().insert(seq, data),
            r.buffered == data@.len(),
            r.eof_seq is None,
    {
        let buffered = data.len();
        let mut chunks: BTreeMap<u32, Vec<u8>> = BTreeMap::new();
        chunks.insert(seq, data);
        let r = Reassembly { first_seq: seq, mime, chunks, contiguous_end: seq, buffered, eof_seq: None };
        assert(seq < u32::MAX ==> !r.chunks@.contains_key((seq + 1) as u32));
        r
    }

    /// Takes in a continuation's data: the bytes are counted, a chunk not
    /// seen before is kept (a duplicate is dropped), and the contiguous run
    /// grows over every number now present.
    pub fn insert(&mut self, seq: u32, data: Vec<u8>)
        requires
            old(self).well_formed(),
            old(self).first_seq < seq,
            old(self).buffered + data@.len() <= usize::MAX,
        ensures
            final(self).well_formed(),
            final(self).first_seq == old(self).first_seq,
            final(self).mime == old(self).mime,
            final(self).eof_seq == old(self).eof_seq,
            final(self).buffered == old(self).buffered + data@.len(),
            final(self).chunks@ == (if old(self).chunks@.contains_key(seq) {
                old(self).chunks@
            } else {
                old(self).chunks@.insert(seq, data)
            }),
            final(self).contiguous_end >= old(self).contiguous_end,
    {
        self.buffered = self.buffered + data.len();
        if !self.chunks.contains_key(&seq) {
            self.chunks.insert(seq, data);
        }
        while self.contiguous_end < u32::MAX && self.chunks.contains_key(&(self.contiguous_end + 1))
            invariant
                self.first_seq <= self.contiguous_end,
                forall|s: u32|
                    self.first_seq <= s <= self.contiguous_end ==> #[trigger] self.chunks@.contains_key(s),
                forall|s: u32| #[trigger] self.chunks@.contains_key(s) ==> self.first_seq <= s,
                self.first_seq == old(self).first_seq,
                self.mime == old(self).mime,
                self.eof_seq == old(self).eof_seq,
                self.buffered == old(self).buffered + data@.len(),
                self.chunks@ == (if old(self).chunks@.contains_key(seq) {
                    old(self).chunks@
                } else {
                    old(self).chunks@.insert(seq, data)
                }),
                self.contiguous_end >= old(self).contiguous_end,
            decreases u32::MAX - self.contiguous_end,
        {
            self.contiguous_end = self.contiguous_end + 1;
        }
    }

    /// Whether the response is whole: the end has been seen right after the
    /// contiguous run.
    pub fn complete(&self) -> (r: bool)
        ensures
            r == (self.eof_seq == Some((self.contiguous_end + 1) as u32) && self.contiguous_end
                < u32::MAX),
    {
        self.contiguous_end < u32::MAX && self.eof_seq == Some(self.contiguous_end + 1)
    }

    /// The body: every chunk's data in sequence order.
    pub fn body(&self) -> (r: Vec<u8>)
        ensures
            r@ == ordered_body(self.chunks@),
    {
        let mut body: Vec<u8> = Vec::new();
        let ghost m = self.chunks@;
        let values = self.chunks.values();
        let ghost ks = choose|key_seq: Seq<u32>|
            {
                &&& vstd::std_specs::btree::increasing_seq(key_seq)
                &&& key_seq.to_set() == m.dom()
                &&& key_seq.no_duplicates()
                &&& values.remaining() == key_seq.map(|i: int, k: u32| &m[k])
            };
        proof {
            lemma_btree_order(ks);
        }
        assert(key_order(m.dom()) == ks) by {
            lemma_increasing_unique(key_order(m.dom()), ks);
        }
        let ghost vs = ks.map_values(|k: u32| m[k]@);
        for chunk in it: values
            invariant
                m == self.chunks@,
                it.seq() == ks.map(|i: int, k: u32| &m[k]),
                body@ == flatten(vs.take(it.index() as int)),
                vs == ks.map_values(|k: u32| m[k]@),
        {
            let ghost i = it.index() as int;
            assert(vs.take(i + 1).drop_last() =~= vs.take(i));
            assert(vs.take(i + 1).last() == chunk@);
            crate::bytes::append_bytes(&mut body, chunk.as_slice());
        }
        assert(vs.take(ks.len() as int) =~= vs);
        body
    }
}

} // verus!

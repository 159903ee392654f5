//! The flat, append-only vector index: normalized embedding vectors keyed by
//! document identifier, with exhaustive nearest-neighbour selection and a
//! raw little-endian on-disk form.
//!
//! Vector components are IEEE-754 bit patterns (`u32`); the index never does
//! floating-point arithmetic itself. The caller normalizes embeddings before
//! `add`, and hands `search` one order-preserving integer distance key per
//! stored vector (computed from the cosine distances of the query against
//! the stored vectors, in storage order).

use vstd::prelude::*;
use vstd::hash_set::HashSetWithView;
use crate::codec::le_bytes_u32s;
use crate::codec::le_bytes_u64s;
use crate::codec::lemma_u32s_round_trip;
use crate::codec::lemma_u64s_round_trip;
use crate::codec::u32_to_bytes;
use crate::codec::u32s_le_bytes;
use crate::codec::u64_to_bytes;
use crate::codec::u64s_le_bytes;
use crate::codec::bytes_to_u32;
use crate::codec::bytes_to_u64;

verus! {

broadcast use
    vstd::seq_lib::group_to_multiset_ensures,
    vstd::multiset::group_multiset_axioms,
    vstd::multiset::group_multiset_properties,
;

/// Why an index operation failed.
#[derive(Clone, Copy, Debug, PartialEq, Eq, Structural)]
pub enum IndexError {
    /// An embedding's width disagrees with the index's width; the index is
    /// left unchanged.
    DimensionMismatch { expected: usize, got: usize },
    /// The on-disk pair of artifacts violates the length invariant.
    IndexCorrupt,
    /// A strict open found one of the on-disk artifacts missing.
    IndexNotFound,
}

/// The mathematical content of a [`VectorIndex`]: its width, its ordered
/// identifier sequence, and its flat component buffer.
#[verifier::ext_equal]
pub ghost struct IndexView {
    pub dims: usize,
    pub ids: Seq<u64>,
    pub vecs: Seq<u32>,
}

/// The length invariant: vector `i` occupies components
/// `[i * dims, (i + 1) * dims)` of the flat buffer.
pub open spec fn wf(v: IndexView) -> bool {
    v.vecs.len() == v.ids.len() * v.dims
}

/// What one `add` call does to the index content: a wrong-width embedding
/// and a re-added identifier leave it unchanged; otherwise the identifier
/// and the components are appended.
pub open spec fn add_effect(v: IndexView, doc_id: u64, emb: Seq<u32>) -> IndexView {
    if emb.len() != v.dims {
        v
    } else if v.ids.contains(doc_id) {
        v
    } else {
        IndexView { dims: v.dims, ids: v.ids.push(doc_id), vecs: v.vecs + emb }
    }
}

/// The stored entries paired with the caller's distance keys, in storage
/// order.
pub open spec fn entries_seq(ids: Seq<u64>, dist: Seq<u64>) -> Seq<(u64, u64)> {
    Seq::new(ids.len(), |i: int| (ids[i], dist[i]))
}

/// Non-decreasing by distance key.
pub open spec fn sorted_by_dist(s: Seq<(u64, u64)>) -> bool {
    forall|i: int, j: int| 0 <= i <= j < s.len() ==> (#[trigger] s[i]).1 <= (#[trigger] s[j]).1
}

/// Dedup idempotence: adding the same identifier twice is the same as
/// adding it once, whatever the embedding.
pub proof fn lemma_add_idempotent(v: IndexView, doc_id: u64, emb: Seq<u32>)
    ensures
        add_effect(add_effect(v, doc_id, emb), doc_id, emb) == add_effect(v, doc_id, emb),
{
    let v1 = add_effect(v, doc_id, emb);
    if emb.len() == v.dims && !v.ids.contains(doc_id) {
        assert(v1.ids[v1.ids.len() - 1] == doc_id);
        assert(v1.ids.contains(doc_id));
    }
}

/// `add` keeps identifiers unique: the membership check skips every
/// identifier that is already stored.
pub proof fn lemma_add_preserves_unique(v: IndexView, doc_id: u64, emb: Seq<u32>)
    requires
        v.ids.no_duplicates(),
    ensures
        add_effect(v, doc_id, emb).ids.no_duplicates(),
{
}

/// `add` preserves the length invariant.
pub proof fn lemma_add_preserves_wf(v: IndexView, doc_id: u64, emb: Seq<u32>)
    requires
        wf(v),
    ensures
        wf(add_effect(v, doc_id, emb)),
{
    if emb.len() == v.dims && !v.ids.contains(doc_id) {
        assert((v.ids.len() + 1) * v.dims == v.ids.len() * v.dims + v.dims) by (nonlinear_arith);
    }
}

/// Round-trip: the encoded artifacts of a well-formed index decode to the
/// identical identifier sequence and bit-identical component buffer, and
/// the decoded pair satisfies the corruption check for the same width.
pub proof fn lemma_save_open_round_trip(v: IndexView)
    requires
        wf(v),
    ensures
        le_bytes_u64s(u64s_le_bytes(v.ids)) == v.ids,
        le_bytes_u32s(u32s_le_bytes(v.vecs)) == v.vecs,
        le_bytes_u64s(u64s_le_bytes(v.ids)).len() * v.dims
            == le_bytes_u32s(u32s_le_bytes(v.vecs)).len(),
{
    lemma_u64s_round_trip(v.ids);
    lemma_u32s_round_trip(v.vecs);
}

proof fn lemma_to_set_push(s: Seq<u64>, x: u64)
    ensures
        s.push(x).to_set() =~= s.to_set().insert(x),
{
    assert forall|y: u64| s.push(x).to_set().contains(y)
        implies s.to_set().insert(x).contains(y) by {
        let k = choose|k: int| 0 <= k < s.push(x).len() && s.push(x)[k] == y;
        if k < s.len() {
            assert(s[k] == y);
        }
    }
    assert forall|y: u64| s.to_set().insert(x).contains(y)
        implies s.push(x).to_set().contains(y) by {
        if s.contains(y) {
            let k = choose|k: int| 0 <= k < s.len() && s[k] == y;
            assert(s.push(x)[k] == y);
        } else {
            assert(s.push(x)[s.len() as int] == y);
        }
    }
}

/// The durable embedding store for one collection: a fixed vector width, an
/// ordered identifier sequence, the parallel flat component buffer, and a
/// membership set for constant-time dedup.
pub struct VectorIndex {
    dims: usize,
    doc_ids: Vec<u64>,
    vectors: Vec<u32>,
    doc_id_set: HashSetWithView<u64>,
}

impl View for VectorIndex {
    type V = IndexView;

    closed spec fn view(&self) -> IndexView {
        IndexView { dims: self.dims, ids: self.doc_ids@, vecs: self.vectors@ }
    }
}

impl VectorIndex {
    /// The representation invariant: the length invariant of the view plus
    /// agreement of the membership set with the identifier sequence.
    pub closed spec fn inv(&self) -> bool {
        &&& wf(self@)
        &&& self.doc_id_set@ == self.doc_ids@.to_set()
    }

    /// An empty index of the given width.
    pub fn new(dims: usize) -> (r: Self)
        ensures
            r.inv(),
            r@.dims == dims,
            r@.ids == Seq::<u64>::empty(),
            r@.vecs == Seq::<u32>::empty(),
    {
        let r = VectorIndex {
            dims,
            doc_ids: Vec::new(),
            vectors: Vec::new(),
            doc_id_set: HashSetWithView::new(),
        };
        proof {
            assert(r.doc_ids@.to_set() =~= Set::<u64>::empty());
            assert(r@.ids.len() * r@.dims == 0) by (nonlinear_arith)
                requires
                    r@.ids.len() == 0,
            ;
        }
        r
    }

    /// The fixed vector width of this index.
    pub fn dimensions(&self) -> (r: usize)
        ensures
            r == self@.dims,
    {
        self.dims
    }

    /// How many vectors are stored.
    pub fn len(&self) -> (r: usize)
        ensures
            r == self@.ids.len(),
    {
        self.doc_ids.len()
    }

    /// The stored identifiers, in insertion order.
    pub fn doc_ids(&self) -> (r: &Vec<u64>)
        ensures
            r@ == self@.ids,
    {
        &self.doc_ids
    }

    /// The flat component buffer, in the same order as the identifiers.
    pub fn vectors(&self) -> (r: &Vec<u32>)
        ensures
            r@ == self@.vecs,
    {
        &self.vectors
    }

    /// Membership test against the identifier set.
    pub fn contains(&self, doc_id: u64) -> (r: bool)
        requires
            self.inv(),
        ensures
            r == self@.ids.contains(doc_id),
    {
        self.doc_id_set.contains(&doc_id)
    }

    /// Appends one already-normalized embedding under a fresh identifier.
    /// A wrong-width embedding is rejected and changes nothing; a known
    /// identifier makes the call a successful no-op.
    pub fn add(&mut self, doc_id: u64, embedding: &Vec<u32>) -> (r: Result<(), IndexError>)
        requires
            old(self).inv(),
        ensures
            final(self).inv(),
            final(self)@ == add_effect(old(self)@, doc_id, embedding@),
            r is Ok <==> embedding@.len() == old(self)@.dims,
            r matches Err(e) ==> e == (IndexError::DimensionMismatch {
                expected: old(self)@.dims,
                got: embedding@.len() as usize,
            }),
    {
        if embedding.len() != self.dims {
            return Err(IndexError::DimensionMismatch {
                expected: self.dims,
                got: embedding.len(),
            });
        }
        let inserted = self.doc_id_set.insert(doc_id);
        if !inserted {
            proof {
                assert(old(self)@.ids.contains(doc_id));
                assert(self.doc_id_set@ =~= old(self).doc_id_set@);
                assert(self@ =~= add_effect(old(self)@, doc_id, embedding@));
            }
            return Ok(());
        }
        self.doc_ids.push(doc_id);
        let ghost prev_vecs = self.vectors@;
        let mut j: usize = 0;
        while j < embedding.len()
            invariant
                j <= embedding.len(),
                self.vectors@ =~= prev_vecs + embedding@.take(j as int),
                prev_vecs == old(self).vectors@,
                self.dims == old(self).dims,
                self.doc_ids@ == old(self).doc_ids@.push(doc_id),
                self.doc_id_set@ == old(self).doc_id_set@.insert(doc_id),
            decreases embedding.len() - j,
        {
            let c = embedding[j];
            proof {
                assert(prev_vecs + embedding@.take(j + 1)
                    =~= (prev_vecs + embedding@.take(j as int)).push(embedding@[j as int]));
            }
            self.vectors.push(c);
            j = j + 1;
        }
        proof {
            assert(embedding@.take(embedding@.len() as int) =~= embedding@);
            lemma_to_set_push(old(self).doc_ids@, doc_id);
            assert(self.doc_id_set@ =~= self.doc_ids@.to_set());
            assert(!old(self)@.ids.contains(doc_id));
            assert(self@ =~= add_effect(old(self)@, doc_id, embedding@));
            lemma_add_preserves_wf(old(self)@, doc_id, embedding@);
        }
        Ok(())
    }

    /// Encodes the identifier sequence as its on-disk artifact.
    pub fn ids_bytes(&self) -> (r: Vec<u8>)
        ensures
            r@ == u64s_le_bytes(self@.ids),
    {
        u64_to_bytes(&self.doc_ids)
    }

    /// Encodes the component buffer as its on-disk artifact.
    pub fn vectors_bytes(&self) -> (r: Vec<u8>)
        ensures
            r@ == u32s_le_bytes(self@.vecs),
    {
        u32_to_bytes(&self.vectors)
    }

    /// Rebuilds an index of width `dims` from the two on-disk artifacts.
    /// Fails with `IndexCorrupt` exactly when the identifier count times
    /// `dims` does not equal the component count; length is inferred from
    /// the byte lengths, a trailing partial chunk being ignored.
    pub fn from_artifacts(dims: usize, ids_bytes: &Vec<u8>, vec_bytes: &Vec<u8>) -> (r: Result<
        Self,
        IndexError,
    >)
        ensures
            r is Ok <==> le_bytes_u64s(ids_bytes@).len() * dims == le_bytes_u32s(vec_bytes@).len(),
            r matches Ok(ix) ==> {
                &&& ix.inv()
                &&& ix@.dims == dims
                &&& ix@.ids == le_bytes_u64s(ids_bytes@)
                &&& ix@.vecs == le_bytes_u32s(vec_bytes@)
            },
            r matches Err(e) ==> e == IndexError::IndexCorrupt,
    {
        let doc_ids = bytes_to_u64(ids_bytes);
        let vectors = bytes_to_u32(vec_bytes);
        let consistent: bool = if dims == 0 {
            vectors.len() == 0
        } else {
            vectors.len() / dims == doc_ids.len() && vectors.len() % dims == 0
        };
        proof {
            assert(consistent <==> doc_ids@.len() * dims == vectors@.len()) by (nonlinear_arith)
                requires
                    consistent == if dims == 0 {
                        vectors@.len() == 0
                    } else {
                        (vectors@.len() as int) / (dims as int) == doc_ids@.len()
                            && (vectors@.len() as int) % (dims as int) == 0
                    },
            ;
        }
        if !consistent {
            return Err(IndexError::IndexCorrupt);
        }
        let mut doc_id_set: HashSetWithView<u64> = HashSetWithView::new();
        let mut i: usize = 0;
        while i < doc_ids.len()
            invariant
                i <= doc_ids.len(),
                doc_id_set@ == doc_ids@.take(i as int).to_set(),
            decreases doc_ids.len() - i,
        {
            let id = doc_ids[i];
            proof {
                lemma_to_set_push(doc_ids@.take(i as int), id);
                assert(doc_ids@.take(i + 1) =~= doc_ids@.take(i as int).push(id));
            }
            doc_id_set.insert(id);
            i = i + 1;
        }
        proof {
            assert(doc_ids@.take(doc_ids@.len() as int) =~= doc_ids@);
        }
        Ok(VectorIndex { dims, doc_ids, vectors, doc_id_set })
    }

    /// Exhaustive exact nearest-neighbour selection. `query_len` is the
    /// width of the caller's query vector; `distances[i]` is the caller's
    /// order-preserving distance key of the query against stored vector
    /// `i`. Returns the `limit` stored entries with the smallest keys,
    /// nearest first; a wrong query width is rejected; an empty index
    /// yields an empty result.
    pub fn search(&self, query_len: usize, distances: &Vec<u64>, limit: usize) -> (r: Result<
        Vec<(u64, u64)>,
        IndexError,
    >)
        requires
            self.inv(),
            distances@.len() == self@.ids.len(),
        ensures
            r is Ok <==> query_len == self@.dims,
            r matches Err(e) ==> e == (IndexError::DimensionMismatch {
                expected: self@.dims,
                got: query_len,
            }),
            r matches Ok(res) ==> {
                let entries = entries_seq(self@.ids, distances@);
                &&& res@.len() == if (limit as int) <= entries.len() {
                    limit as int
                } else {
                    entries.len() as int
                }
                &&& sorted_by_dist(res@)
                &&& forall|e: (u64, u64)| #[trigger]
                    res@.to_multiset().count(e) <= entries.to_multiset().count(e)
                &&& res@.len() > 0 ==> forall|e: (u64, u64)|
                    entries.to_multiset().count(e) > #[trigger] res@.to_multiset().count(e)
                        ==> e.1 >= res@[res@.len() - 1].1
            },
    {
        if query_len != self.dims {
            return Err(IndexError::DimensionMismatch { expected: self.dims, got: query_len });
        }
        let ghost entries = entries_seq(self@.ids, distances@);
        let n = self.doc_ids.len();
        let mut list: Vec<(u64, u64)> = Vec::new();
        let mut i: usize = 0;
        while i < n
            invariant
                i <= n,
                n == entries.len(),
                n == self.doc_ids@.len(),
                n == distances@.len(),
                entries == entries_seq(self.doc_ids@, distances@),
                sorted_by_dist(list@),
                list@.len() == if (limit as int) <= (i as int) {
                    limit as int
                } else {
                    i as int
                },
                forall|e: (u64, u64)| #[trigger]
                    list@.to_multiset().count(e) <= entries.take(i as int).to_multiset().count(e),
                forall|e: (u64, u64)|
                    entries.take(i as int).to_multiset().count(e)
                        > #[trigger] list@.to_multiset().count(e) ==> {
                        &&& list@.len() == limit
                        &&& list@.len() > 0 ==> e.1 >= list@[list@.len() - 1].1
                    },
            decreases n - i,
        {
            let id = self.doc_ids[i];
            let d = distances[i];
            let ghost e = (id, d);
            let ghost prev = list@;
            proof {
                assert(entries[i as int] == e);
                assert(entries.take(i + 1) =~= entries.take(i as int).push(e));
                assert(entries.take(i as int).push(e).to_multiset()
                    =~= entries.take(i as int).to_multiset().insert(e));
            }
            if list.len() < limit {
                insert_sorted(&mut list, (id, d));
                proof {
                    assert forall|x: (u64, u64)| entries.take(i + 1).to_multiset().count(x)
                        > #[trigger] list@.to_multiset().count(x) implies {
                        &&& list@.len() == limit
                        &&& list@.len() > 0 ==> x.1 >= list@[list@.len() - 1].1
                    } by {
                        if x == e {
                            assert(entries.take(i as int).to_multiset().count(x)
                                > prev.to_multiset().count(x));
                        } else {
                            assert(entries.take(i as int).to_multiset().count(x)
                                > prev.to_multiset().count(x));
                        }
                        assert(prev.len() == limit);
                        assert(false);
                    }
                }
            } else if limit > 0 && d < list[limit - 1].1 {
                let ghost w = prev[prev.len() - 1];
                let last = list.len() - 1;
                list.remove(last);
                proof {
                    assert(prev.remove(prev.len() - 1).to_multiset()
                        =~= prev.to_multiset().remove(w));
                }
                insert_sorted(&mut list, (id, d));
                proof {
                    let mid = prev.remove(prev.len() - 1);
                    assert forall|x: (u64, u64)| #[trigger] list@.to_multiset().count(x)
                        <= entries.take(i + 1).to_multiset().count(x) by {
                        assert(list@.to_multiset().count(x) == if x == e {
                            mid.to_multiset().count(x) + 1
                        } else {
                            mid.to_multiset().count(x)
                        });
                        assert(mid.to_multiset().count(x) == if x == w {
                            prev.to_multiset().count(x) - 1
                        } else {
                            prev.to_multiset().count(x) as int
                        });
                    }
                    assert forall|x: (u64, u64)| entries.take(i + 1).to_multiset().count(x)
                        > #[trigger] list@.to_multiset().count(x) implies {
                        &&& list@.len() == limit
                        &&& list@.len() > 0 ==> x.1 >= list@[list@.len() - 1].1
                    } by {
                        assert(w.1 >= list@[list@.len() - 1].1);
                        if x != e && x != w {
                            assert(entries.take(i as int).to_multiset().count(x)
                                > prev.to_multiset().count(x));
                        }
                        if x == e {
                            assert(entries.take(i as int).to_multiset().count(e)
                                <= prev.to_multiset().count(e));
                        }
                    }
                }
            } else {
                proof {
                    assert forall|x: (u64, u64)| entries.take(i + 1).to_multiset().count(x)
                        > #[trigger] list@.to_multiset().count(x) implies {
                        &&& list@.len() == limit
                        &&& list@.len() > 0 ==> x.1 >= list@[list@.len() - 1].1
                    } by {
                        if x != e {
                            assert(entries.take(i as int).to_multiset().count(x)
                                > list@.to_multiset().count(x));
                        } else {
                            assert(list@.len() == limit);
                            if list@.len() > 0 {
                                assert(d >= list@[list@.len() - 1].1);
                            }
                        }
                    }
                }
            }
            i = i + 1;
        }
        proof {
            assert(entries.take(n as int) =~= entries);
        }
        Ok(list)
    }
}

/// The destructive-reset rule of opening a collection directory: stored
/// metadata with a different width than requested destroys the store,
/// which is then recreated empty under the new width; a missing store or
/// a matching width keeps what is on disk.
pub fn reset_needed(stored_dims: Option<usize>, requested: usize) -> (r: bool)
    ensures
        r == (stored_dims matches Some(d) && d != requested),
{
    match stored_dims {
        Some(d) => d != requested,
        None => false,
    }
}

/// The strict-open rule: all three on-disk artifacts (metadata,
/// components, identifiers) must exist, else the store counts as never
/// created, which is distinct from corrupt.
pub fn check_artifacts_present(meta: bool, vectors: bool, ids: bool) -> (r: Result<
    (),
    IndexError,
>)
    ensures
        r is Ok <==> (meta && vectors && ids),
        r matches Err(e) ==> e == IndexError::IndexNotFound,
{
    if meta && vectors && ids {
        Ok(())
    } else {
        Err(IndexError::IndexNotFound)
    }
}

/// Inserts one entry into a distance-sorted candidate list, keeping it
/// sorted; equal keys keep earlier entries first.
fn insert_sorted(list: &mut Vec<(u64, u64)>, e: (u64, u64))
    requires
        sorted_by_dist(old(list)@),
    ensures
        sorted_by_dist(final(list)@),
        final(list)@.len() == old(list)@.len() + 1,
        final(list)@.to_multiset() == old(list)@.to_multiset().insert(e),
        final(list)@[final(list)@.len() - 1].1 == if old(list)@.len() == 0 {
            e.1
        } else if e.1 > old(list)@[old(list)@.len() - 1].1 {
            e.1
        } else {
            old(list)@[old(list)@.len() - 1].1
        },
    {
        let mut p: usize = 0;
        while p < list.len() && list[p].1 <= e.1
            invariant
                p <= list@.len(),
                forall|k: int| 0 <= k < p ==> (#[trigger] list@[k]).1 <= e.1,
                list@ == old(list)@,
            decreases list@.len() - p,
        {
            p = p + 1;
        }
        proof {
            old(list)@.insert_ensures(p as int, e);
            vstd::seq_lib::to_multiset_insert(old(list)@, p as int, e);
        }
        list.insert(p, e);
        proof {
            let s = old(list)@;
            let s2 = list@;
            assert forall|i: int, j: int| 0 <= i <= j < s2.len() implies
                (#[trigger] s2[i]).1 <= (#[trigger] s2[j]).1 by {
                if i < p && j == p {
                    assert(s2[i] == s[i]);
                } else if i == p && j > p {
                    assert(s2[j] == s[j - 1]);
                    if p < s.len() {
                        assert(s[p as int].1 > e.1);
                        assert(s[p as int].1 <= s[j - 1].1);
                    }
                } else if i < p && j > p {
                    assert(s2[i] == s[i] && s2[j] == s[j - 1]);
                } else if i < p && j < p {
                    assert(s2[i] == s[i] && s2[j] == s[j]);
                } else if i > p && j > p {
                    assert(s2[i] == s[i - 1] && s2[j] == s[j - 1]);
                }
            }
            if s.len() > 0 {
                if p == s.len() {
                    assert(s2[s2.len() - 1] == e);
                    assert(s[s.len() - 1].1 <= e.1);
                } else {
                    assert(s2[s2.len() - 1] == s[s.len() - 1]);
                    assert(s[p as int].1 > e.1);
                    assert(s[s.len() - 1].1 >= s[p as int].1);
                }
            }
        }
    }

} // verus!

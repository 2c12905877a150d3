//! Bookkeeping around the vector store: pairing ids, vectors and payloads
//! into points for an upsert, deciding whether a collection must be created,
//! and holding search results to the promised score threshold and result
//! count. The store itself is an external service reached over HTTP by the
//! surrounding application; similarity scores arrive here in hundredths, so
//! that `90` stands for a similarity the provider reported as `0.90`.

use vstd::prelude::*;

use crate::chunker::Chunk;
use crate::errors::RagError;
use crate::text::str_eq;

verus! {

/// One point of a collection: an identifier, its embedding vector (opaque to
/// this library) and the chunk stored as payload.
pub struct Point<T> {
    pub id: u64,
    pub vector: T,
    pub payload: Chunk,
}

/// Identifiers `1..=n`, the ids the embedding pipeline assigns to the chunks
/// of one document, in chunk order.
pub fn make_point_ids(n: usize) -> (r: Vec<u64>)
    ensures
        r@.len() == n,
        forall|i: int| 0 <= i < n ==> r@[i] == i + 1,
{
    let mut r: Vec<u64> = Vec::new();
    let mut i: usize = 0;
    while i < n
        invariant
            i <= n,
            r@.len() == i,
            forall|k: int| 0 <= k < i ==> r@[k] == k + 1,
        decreases n - i,
    {
        r.push((i as u64) + 1);
        i += 1;
    }
    r
}

/// Pair ids, vectors and payloads one-to-one into upsert points. The three
/// lists must have the same length; otherwise nothing is paired and an
/// argument error is reported.
pub fn build_points<T>(ids: Vec<u64>, vectors: Vec<T>, payloads: Vec<Chunk>) -> (r: Result<
    Vec<Point<T>>,
    RagError,
>)
    ensures
        match r {
            Ok(pts) => {
                &&& ids@.len() == vectors@.len() && ids@.len() == payloads@.len()
                &&& pts@.len() == ids@.len()
                &&& forall|i: int|
                    0 <= i < pts@.len() ==> {
                        &&& (#[trigger] pts@[i]).id == ids@[i]
                        &&& pts@[i].vector == vectors@[i]
                        &&& pts@[i].payload == payloads@[i]
                    }
            },
            Err(e) => {
                &&& !(ids@.len() == vectors@.len() && ids@.len() == payloads@.len())
                &&& e is Argument
                &&& e.detail() == "Ids, vectors, and payloads must have the same length"@
            },
        },
{
    if ids.len() != vectors.len() || ids.len() != payloads.len() {
        return Err(RagError::Argument("Ids, vectors, and payloads must have the same length".to_owned()));
    }
    let ghost all_ids = ids@;
    let ghost all_vectors = vectors@;
    let ghost all_payloads = payloads@;
    let mut ids = ids;
    let mut vectors = vectors;
    let mut payloads = payloads;
    let mut pts: Vec<Point<T>> = Vec::new();
    proof {
        assert(all_ids.skip(0) =~= ids@);
        assert(all_vectors.skip(0) =~= vectors@);
        assert(all_payloads.skip(0) =~= payloads@);
    }
    while ids.len() > 0
        invariant
            pts@.len() <= all_ids.len(),
            all_ids.len() == all_vectors.len() && all_ids.len() == all_payloads.len(),
            ids@ == all_ids.skip(pts@.len() as int),
            vectors@ == all_vectors.skip(pts@.len() as int),
            payloads@ == all_payloads.skip(pts@.len() as int),
            forall|i: int|
                0 <= i < pts@.len() ==> {
                    &&& (#[trigger] pts@[i]).id == all_ids[i]
                    &&& pts@[i].vector == all_vectors[i]
                    &&& pts@[i].payload == all_payloads[i]
                },
        decreases ids@.len(),
    {
        let ghost k = pts@.len() as int;
        let id = ids.remove(0);
        let vector = vectors.remove(0);
        let payload = payloads.remove(0);
        proof {
            assert(ids@ =~= all_ids.skip(k + 1));
            assert(vectors@ =~= all_vectors.skip(k + 1));
            assert(payloads@ =~= all_payloads.skip(k + 1));
        }
        pts.push(Point { id, vector, payload });
        proof {
            assert(pts@.len() == k + 1);
        }
    }
    Ok(pts)
}

/// Whether a collection named `name` appears in the listed collection names.
pub fn collection_exists(names: &Vec<String>, name: &str) -> (r: bool)
    ensures
        r == exists|i: int| 0 <= i < names@.len() && (#[trigger] names@[i])@ == name@,
{
    let mut j: usize = 0;
    while j < names.len()
        invariant
            j <= names@.len(),
            forall|i: int| 0 <= i < j ==> (#[trigger] names@[i])@ != name@,
        decreases names@.len() - j,
    {
        if str_eq(names[j].as_str(), name) {
            return true;
        }
        j += 1;
    }
    false
}

/// What to do about a collection before using it.
pub enum CollectionPlan {
    UseExisting,
    Create(usize),
}

/// Decide how to set up the collection `name`: use it when it already
/// exists; create it with the requested vector size when it is absent and a
/// size was given; report a configuration error when it is absent and no
/// size was given.
pub fn plan_collection_setup(name: &str, exists: bool, vector_size: Option<usize>) -> (r: Result<
    CollectionPlan,
    RagError,
>)
    ensures
        match r {
            Ok(plan) => {
                &&& exists ==> plan == CollectionPlan::UseExisting
                &&& !exists ==> vector_size is Some && plan == CollectionPlan::Create(
                    vector_size->0,
                )
            },
            Err(e) => {
                &&& !exists && vector_size is None
                &&& e is Configuration
                &&& e.detail() == "Collection '"@ + name@
                    + "' does not exist. Provide vector_size to create it."@
            },
        },
{
    if exists {
        Ok(CollectionPlan::UseExisting)
    } else {
        match vector_size {
            Some(size) => Ok(CollectionPlan::Create(size)),
            None => {
                let mut detail = String::new();
                detail.append("Collection '");
                detail.append(name);
                detail.append("' does not exist. Provide vector_size to create it.");
                Err(RagError::Configuration(detail))
            },
        }
    }
}

/// One search result: the stored point's id, its similarity score in
/// hundredths, and the payload fields the retrieval pipeline reads.
pub struct SearchHit {
    pub id: u64,
    pub score_centi: i32,
    pub chunk_text: Option<String>,
    pub source: Option<String>,
    pub model_name: Option<String>,
}

/// The mathematical value of a search hit.
pub struct HitView {
    pub id: u64,
    pub score_centi: int,
    pub chunk_text: Option<Seq<char>>,
    pub source: Option<Seq<char>>,
    pub model_name: Option<Seq<char>>,
}

/// The view of an optional string.
pub open spec fn opt_view(o: Option<String>) -> Option<Seq<char>> {
    match o {
        Some(s) => Some(s@),
        None => None,
    }
}

impl View for SearchHit {
    type V = HitView;

    open spec fn view(&self) -> HitView {
        HitView {
            id: self.id,
            score_centi: self.score_centi as int,
            chunk_text: opt_view(self.chunk_text),
            source: opt_view(self.source),
            model_name: opt_view(self.model_name),
        }
    }
}

/// The views of a sequence of hits.
pub open spec fn hit_views(hits: Seq<SearchHit>) -> Seq<HitView> {
    hits.map_values(|h: SearchHit| h@)
}

/// The hits of `hits` whose score reaches the threshold `t`, in order.
pub open spec fn qualified(hits: Seq<HitView>, t: int) -> Seq<HitView>
    decreases hits.len(),
{
    if hits.len() == 0 {
        Seq::empty()
    } else if hits.last().score_centi >= t {
        qualified(hits.drop_last(), t).push(hits.last())
    } else {
        qualified(hits.drop_last(), t)
    }
}

/// The hits a search is allowed to hand on: those at or above the threshold,
/// cut off after the first `top_k`.
pub open spec fn accepted(hits: Seq<HitView>, top_k: int, t: int) -> Seq<HitView> {
    let q = qualified(hits, t);
    if q.len() <= top_k {
        q
    } else {
        q.take(top_k)
    }
}

/// Every qualified hit clears the threshold.
proof fn lemma_qualified_scores(hits: Seq<HitView>, t: int)
    ensures
        forall|i: int|
            0 <= i < qualified(hits, t).len() ==> (#[trigger] qualified(hits, t)[i]).score_centi
                >= t,
    decreases hits.len(),
{
    if hits.len() > 0 {
        lemma_qualified_scores(hits.drop_last(), t);
    }
}

/// Scores never increase along `hits`.
pub open spec fn sorted_by_score_desc(hits: Seq<HitView>) -> bool {
    forall|i: int, j: int|
        0 <= i < j < hits.len() ==> #[trigger] hits[i].score_centi >= #[trigger] hits[j].score_centi
}

/// Every qualified hit is one of the hits.
proof fn lemma_qualified_element_from(hits: Seq<HitView>, t: int, k: int)
    requires
        0 <= k < qualified(hits, t).len(),
    ensures
        exists|i: int| 0 <= i < hits.len() && hits[i] == qualified(hits, t)[k],
    decreases hits.len(),
{
    if hits.len() > 0 {
        let q = qualified(hits, t);
        let qd = qualified(hits.drop_last(), t);
        if hits.last().score_centi >= t && k == q.len() - 1 {
            assert(hits[hits.len() - 1] == q[k]);
        } else {
            lemma_qualified_element_from(hits.drop_last(), t, k);
            let i = choose|i: int|
                0 <= i < hits.drop_last().len() && hits.drop_last()[i] == qd[k];
            assert(hits[i] == q[k]);
        }
    }
}

/// Qualification keeps a score-descending order.
proof fn lemma_qualified_sorted(hits: Seq<HitView>, t: int)
    requires
        sorted_by_score_desc(hits),
    ensures
        sorted_by_score_desc(qualified(hits, t)),
    decreases hits.len(),
{
    if hits.len() > 0 {
        let prefix = hits.drop_last();
        assert forall|i: int, j: int| 0 <= i < j < prefix.len() implies #[trigger] prefix[i].score_centi
            >= #[trigger] prefix[j].score_centi by {
            assert(prefix[i] == hits[i]);
            assert(prefix[j] == hits[j]);
        }
        lemma_qualified_sorted(prefix, t);
        if hits.last().score_centi >= t {
            let qd = qualified(prefix, t);
            let q = qualified(hits, t);
            assert forall|i: int, j: int| 0 <= i < j < q.len() implies #[trigger] q[i].score_centi
                >= #[trigger] q[j].score_centi by {
                if j < q.len() - 1 {
                    assert(q[i] == qd[i]);
                    assert(q[j] == qd[j]);
                } else {
                    assert(q[j] == hits.last());
                    assert(q[i] == qd[i]);
                    lemma_qualified_element_from(prefix, t, i);
                    let w = choose|w: int| 0 <= w < prefix.len() && prefix[w] == qd[i];
                    assert(hits[w] == qd[i]);
                    assert(hits[w].score_centi >= hits[hits.len() - 1].score_centi);
                }
            }
        }
    }
}

/// The accepted hits of a score-descending response stay score-descending:
/// threshold filtering and the cut at `top_k` keep the provider's ranking.
pub proof fn lemma_accepted_keeps_descending_order(hits: Seq<HitView>, top_k: int, t: int)
    requires
        0 <= top_k,
        sorted_by_score_desc(hits),
    ensures
        sorted_by_score_desc(accepted(hits, top_k, t)),
{
    lemma_qualified_sorted(hits, t);
    let q = qualified(hits, t);
    let a = accepted(hits, top_k, t);
    assert forall|i: int, j: int| 0 <= i < j < a.len() implies #[trigger] a[i].score_centi
        >= #[trigger] a[j].score_centi by {
        assert(a[i] == q[i]);
        assert(a[j] == q[j]);
    }
}

/// Qualification distributes over concatenation.
proof fn lemma_qualified_append(a: Seq<HitView>, b: Seq<HitView>, t: int)
    ensures
        qualified(a + b, t) == qualified(a, t) + qualified(b, t),
    decreases b.len(),
{
    if b.len() == 0 {
        assert(a + b =~= a);
        assert(qualified(a, t) + qualified(b, t) =~= qualified(a, t));
    } else {
        lemma_qualified_append(a, b.drop_last(), t);
        assert((a + b).drop_last() =~= a + b.drop_last());
        assert((a + b).last() == b.last());
        if b.last().score_centi >= t {
            assert(qualified(a, t) + qualified(b, t) =~= (qualified(a, t) + qualified(
                b.drop_last(),
                t,
            )).push(b.last()));
        }
    }
}

/// Hold a search response to its promise: no returned hit scores below
/// `score_threshold_centi`, and at most `top_k` hits come back, in the
/// provider's order.
pub fn accept_search_results(hits: Vec<SearchHit>, top_k: usize, score_threshold_centi: i32) -> (r:
    Vec<SearchHit>)
    ensures
        hit_views(r@) == accepted(hit_views(hits@), top_k as int, score_threshold_centi as int),
        r@.len() <= top_k,
        forall|i: int|
            0 <= i < r@.len() ==> (#[trigger] r@[i]).score_centi >= score_threshold_centi,
        sorted_by_score_desc(hit_views(hits@)) ==> sorted_by_score_desc(hit_views(r@)),
{
    let ghost all = hit_views(hits@);
    let ghost t = score_threshold_centi as int;
    let mut hits = hits;
    let mut out: Vec<SearchHit> = Vec::new();
    let ghost mut seen: int = 0;
    proof {
        assert(all.take(0) =~= Seq::<HitView>::empty());
        assert(all.skip(0) =~= hit_views(hits@));
    }
    while hits.len() > 0 && out.len() < top_k
        invariant
            t == score_threshold_centi as int,
            0 <= seen <= all.len(),
            hit_views(hits@) == all.skip(seen),
            hits@.len() == all.len() - seen,
            hit_views(out@) == qualified(all.take(seen), t),
            out@.len() <= top_k,
            forall|i: int|
                0 <= i < out@.len() ==> (#[trigger] out@[i]).score_centi
                    >= score_threshold_centi,
        decreases hits@.len(),
    {
        let ghost prev_hits = hits@;
        let h = hits.remove(0);
        proof {
            assert(hit_views(prev_hits)[0] == h@);
            assert(h@ == all[seen]);
            assert forall|i: int| 0 <= i < hits@.len() implies hit_views(hits@)[i] == all.skip(
                seen + 1,
            )[i] by {
                assert(hits@[i] == prev_hits[i + 1]);
                assert(hit_views(prev_hits)[i + 1] == all.skip(seen)[i + 1]);
            }
            assert(hit_views(hits@) =~= all.skip(seen + 1));
            assert(all.take(seen + 1).drop_last() =~= all.take(seen));
            assert(all.take(seen + 1).last() == all[seen]);
        }
        if h.score_centi >= score_threshold_centi {
            proof {
                assert(hit_views(out@.push(h)) =~= hit_views(out@).push(h@));
                assert(h@.score_centi == h.score_centi as int);
                assert(all[seen].score_centi >= t);
                assert(qualified(all.take(seen + 1), t) == qualified(all.take(seen), t).push(
                    all[seen],
                ));
            }
            out.push(h);
        } else {
            proof {
                assert(all[seen].score_centi < t);
                assert(qualified(all.take(seen + 1), t) == qualified(all.take(seen), t));
            }
        }
        proof {
            seen = seen + 1;
        }
    }
    proof {
        let q = qualified(all, t);
        lemma_qualified_scores(all, t);
        if hits.len() == 0 {
            assert(all.take(seen) =~= all);
        } else {
            assert(all.take(seen) + all.skip(seen) =~= all);
            lemma_qualified_append(all.take(seen), all.skip(seen), t);
            assert(q.take(top_k as int) =~= hit_views(out@));
        }
        if sorted_by_score_desc(all) {
            lemma_accepted_keeps_descending_order(all, top_k as int, t);
        }
    }
    out
}

} // verus!

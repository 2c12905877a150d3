//! Batch orchestration for the embedding provider: texts are partitioned
//! into fixed-size request batches and the per-batch results are
//! concatenated back in input order. The HTTP requests themselves are made
//! by the surrounding application; everything here is the bookkeeping that
//! makes one vector come back for each text, in order.

use vstd::prelude::*;

use crate::chunker::{grouped, lemma_grouped_flatten, lemma_grouped_sizes};

verus! {

/// Number of texts sent to the embedding provider per request.
pub const EMBED_BATCH_SIZE: usize = 64;

/// The views of a sequence of vectors.
pub open spec fn vec_views<T>(parts: Seq<Vec<T>>) -> Seq<Seq<T>> {
    parts.map_values(|p: Vec<T>| p@)
}

/// Partition `texts` into request batches of at most [`EMBED_BATCH_SIZE`]
/// texts each, in order; only the final batch may be smaller.
pub fn make_batches(texts: &Vec<String>) -> (r: Vec<Vec<String>>)
    ensures
        vec_views(r@) == grouped(texts@, EMBED_BATCH_SIZE as nat),
{
    let m: usize = EMBED_BATCH_SIZE;
    let mut out: Vec<Vec<String>> = Vec::new();
    let mut i: usize = 0;
    proof {
        assert(texts@.skip(0) =~= texts@);
    }
    while i < texts.len()
        invariant
            i <= texts@.len(),
            m == EMBED_BATCH_SIZE,
            grouped(texts@, m as nat) =~= vec_views(out@) + grouped(texts@.skip(i as int), m as nat),
        decreases texts@.len() - i,
    {
        let remaining = texts.len() - i;
        let size = if remaining <= m {
            remaining
        } else {
            m
        };
        let gend = i + size;
        let ghost rest = texts@.skip(i as int);
        proof {
            if remaining <= m {
                assert(rest =~= texts@.subrange(i as int, gend as int));
            } else {
                assert(rest.take(m as int) =~= texts@.subrange(i as int, gend as int));
                assert(rest.skip(m as int) =~= texts@.skip(gend as int));
            }
        }
        let mut batch: Vec<String> = Vec::new();
        let mut j = i;
        while j < gend
            invariant
                i <= j <= gend <= texts@.len(),
                batch@ == texts@.subrange(i as int, j as int),
            decreases gend - j,
        {
            proof {
                assert(texts@.subrange(i as int, j as int).push(texts@[j as int])
                    =~= texts@.subrange(i as int, j + 1));
            }
            batch.push(texts[j].clone());
            j += 1;
        }
        proof {
            assert(vec_views(out@.push(batch)) =~= vec_views(out@).push(batch@));
            assert(grouped(rest, m as nat) =~= seq![batch@] + grouped(
                texts@.skip(gend as int),
                m as nat,
            ));
        }
        out.push(batch);
        i = gend;
    }
    proof {
        assert(texts@.skip(i as int) =~= Seq::<String>::empty());
        assert(vec_views(out@) =~= grouped(texts@, m as nat));
    }
    out
}

/// Concatenate per-batch results back into one vector, preserving order.
pub fn concat_batches<T>(parts: Vec<Vec<T>>) -> (r: Vec<T>)
    ensures
        r@ == vec_views(parts@).flatten(),
{
    let ghost all = vec_views(parts@);
    let mut parts = parts;
    let mut r: Vec<T> = Vec::new();
    while parts.len() > 0
        invariant
            all.flatten() == r@ + vec_views(parts@).flatten(),
        decreases parts@.len(),
    {
        let ghost prev = parts@;
        let mut p = parts.remove(0);
        proof {
            assert(parts@ =~= prev.drop_first());
            assert(vec_views(prev).drop_first() =~= vec_views(parts@));
            assert(vec_views(prev).first() == p@);
            assert(vec_views(prev).flatten() == p@ + vec_views(parts@).flatten());
        }
        r.append(&mut p);
        proof {
            assert(all.flatten() =~= r@ + vec_views(parts@).flatten());
        }
    }
    proof {
        assert(vec_views(parts@) =~= Seq::<Seq<T>>::empty());
        assert(r@ + vec_views(parts@).flatten() =~= r@);
    }
    r
}

/// Two sequences of batches with the same shape flatten to the same length.
pub proof fn lemma_flatten_shape_len<A, B>(xs: Seq<Seq<A>>, ys: Seq<Seq<B>>)
    requires
        xs.len() == ys.len(),
        forall|j: int| 0 <= j < xs.len() ==> (#[trigger] xs[j]).len() == ys[j].len(),
    ensures
        xs.flatten().len() == ys.flatten().len(),
    decreases xs.len(),
{
    if xs.len() > 0 {
        lemma_flatten_shape_len(xs.drop_first(), ys.drop_first());
    }
}

/// In a batch sequence whose batches all hold exactly `m` elements except
/// possibly the last, element `k` of batch `j` sits at position `j * m + k`
/// of the flattened sequence.
pub proof fn lemma_flatten_index_uniform<B>(ys: Seq<Seq<B>>, m: nat, j: int, k: int)
    requires
        m >= 1,
        forall|l: int| 0 <= l < ys.len() - 1 ==> (#[trigger] ys[l]).len() == m,
        0 <= j < ys.len(),
        0 <= k < ys[j].len(),
        ys[j].len() <= m,
    ensures
        0 <= j * m + k < ys.flatten().len(),
        ys.flatten()[j * m + k] == ys[j][k],
    decreases j,
{
    if j == 0 {
        assert(ys.flatten() == ys.first() + ys.drop_first().flatten());
        assert(j * m + k == k) by (nonlinear_arith)
            requires
                j == 0,
        ;
        assert(ys.flatten()[k] == ys[0][k]);
    } else {
        let rest = ys.drop_first();
        assert forall|l: int| 0 <= l < rest.len() - 1 implies (#[trigger] rest[l]).len() == m by {
            assert(rest[l] == ys[l + 1]);
        }
        assert(rest[j - 1] == ys[j]);
        lemma_flatten_index_uniform(rest, m, j - 1, k);
        assert(ys.flatten() == ys.first() + rest.flatten());
        assert(ys[0].len() == m);
        assert((j - 1) * m + k + m == j * m + k) by (nonlinear_arith);
        assert(0 <= j * m + k < ys.flatten().len());
        assert(ys.flatten()[j * m + k] == rest.flatten()[(j - 1) * m + k]);
    }
}

/// Every run before the last holds exactly `m` elements.
pub proof fn lemma_grouped_full_sizes<A>(items: Seq<A>, m: nat)
    requires
        m >= 1,
    ensures
        forall|j: int|
            0 <= j < grouped(items, m).len() - 1 ==> (#[trigger] grouped(items, m)[j]).len()
                == m,
    decreases items.len(),
{
    if items.len() > m {
        lemma_grouped_full_sizes(items.skip(m as int), m);
        let g = grouped(items, m);
        assert forall|j: int| 0 <= j < g.len() - 1 implies (#[trigger] g[j]).len() == m by {
            if j > 0 {
                assert(g[j] == grouped(items.skip(m as int), m)[j - 1]);
            }
        }
    }
}

/// Embedding a text list batch-by-batch is one-to-one and order-preserving:
/// when the provider answers every batch with as many vectors as the batch
/// holds texts, the concatenated results hold exactly one vector per input
/// text, and the vector for the text at position `j * EMBED_BATCH_SIZE + k`
/// is element `k` of the answer to batch `j`.
pub proof fn lemma_embed_one_to_one<T>(texts: Seq<String>, responses: Seq<Seq<T>>)
    requires
        responses.len() == grouped(texts, EMBED_BATCH_SIZE as nat).len(),
        forall|j: int|
            0 <= j < responses.len() ==> (#[trigger] responses[j]).len() == grouped(
                texts,
                EMBED_BATCH_SIZE as nat,
            )[j].len(),
    ensures
        responses.flatten().len() == texts.len(),
        forall|j: int, k: int|
            0 <= j < responses.len() && 0 <= k < responses[j].len() ==> responses.flatten()[j * (
            EMBED_BATCH_SIZE as int) + k] == #[trigger] responses[j][k],
{
    let m = EMBED_BATCH_SIZE as nat;
    let g = grouped(texts, m);
    lemma_grouped_flatten(texts, m);
    lemma_flatten_shape_len(g, responses);
    lemma_grouped_sizes(texts, m);
    lemma_grouped_full_sizes(texts, m);
    assert forall|j: int, k: int|
        0 <= j < responses.len() && 0 <= k < responses[j].len() implies responses.flatten()[j * (
    EMBED_BATCH_SIZE as int) + k] == #[trigger] responses[j][k] by {
        lemma_flatten_index_uniform(responses, m, j, k);
    }
}

} // verus!

//! Positional pairing of record identifiers with the embeddings computed for
//! them.

use vstd::prelude::*;

verus! {

/// One pending write: the embedding to store for the record `id`.
#[derive(Clone, Debug, PartialEq)]
pub struct EmbeddingWrite<V> {
    pub id: i64,
    pub embedding: V,
}

/// The number of pairs that `ids` and `embeddings` give: the length of the
/// shorter of the two.
pub open spec fn paired_len(ids_len: nat, embeddings_len: nat) -> nat {
    if ids_len <= embeddings_len {
        ids_len
    } else {
        embeddings_len
    }
}

/// The writes for a batch: position `i` pairs the `i`-th identifier with the
/// `i`-th embedding. Whatever one sequence holds beyond the length of the
/// other is left out.
pub open spec fn paired<V>(ids: Seq<i64>, embeddings: Seq<V>) -> Seq<EmbeddingWrite<V>> {
    Seq::new(
        paired_len(ids.len(), embeddings.len()),
        |i: int| (EmbeddingWrite { id: ids[i], embedding: embeddings[i] }),
    )
}

/// Pairs each embedding with the identifier at the same position.
pub fn pair_embeddings<V>(embeddings: Vec<V>, ids: &Vec<i64>) -> (writes: Vec<EmbeddingWrite<V>>)
    ensures
        writes@ == paired(ids@, embeddings@),
{
    let ghost all = embeddings@;
    let n: usize = if ids.len() <= embeddings.len() {
        ids.len()
    } else {
        embeddings.len()
    };
    let mut rest = embeddings;
    rest.truncate(n);
    // Embeddings can only be moved out from the back, so the pairs are first
    // collected last to first and then turned round.
    let mut backwards: Vec<EmbeddingWrite<V>> = Vec::new();
    while rest.len() > 0
        invariant
            n <= ids.len(),
            n <= all.len(),
            rest.len() + backwards.len() == n,
            rest@ == all.subrange(0, rest.len() as int),
            forall|k: int|
                0 <= k < backwards.len() ==> backwards[k] == (EmbeddingWrite {
                    id: ids[n - 1 - k],
                    embedding: all[n - 1 - k],
                }),
        decreases rest.len(),
    {
        let i: usize = rest.len() - 1;
        let embedding = rest.pop().unwrap();
        backwards.push(EmbeddingWrite { id: ids[i], embedding });
    }
    let ghost turned = backwards@;
    let mut writes: Vec<EmbeddingWrite<V>> = Vec::new();
    while backwards.len() > 0
        invariant
            turned.len() == n,
            backwards.len() + writes.len() == n,
            backwards@ == turned.subrange(0, backwards.len() as int),
            forall|k: int| 0 <= k < writes.len() ==> writes[k] == turned[n - 1 - k],
        decreases backwards.len(),
    {
        let write = backwards.pop().unwrap();
        writes.push(write);
    }
    proof {
        assert(writes@ =~= paired(ids@, all));
    }
    writes
}

} // verus!

//! Records awaiting an embedding, and the two parallel sequences a batch is
//! split into before it is encoded.

use vstd::prelude::*;

verus! {

/// One unit of text awaiting an embedding.
#[derive(Clone, Debug, PartialEq, Eq)]
pub struct Record {
    pub id: i64,
    pub content: String,
}

/// The identifiers of a batch, in batch order.
pub open spec fn ids_of(batch: Seq<Record>) -> Seq<i64> {
    Seq::new(batch.len(), |i: int| batch[i].id)
}

/// The text payloads of a batch, in batch order.
pub open spec fn texts_of(batch: Seq<Record>) -> Seq<Seq<char>> {
    Seq::new(batch.len(), |i: int| batch[i].content@)
}

/// The payloads held by a vector of strings.
pub open spec fn string_views(texts: Seq<String>) -> Seq<Seq<char>> {
    Seq::new(texts.len(), |i: int| texts[i]@)
}

/// Splits a batch into its identifiers and its text payloads. Both keep the
/// order of the batch, so position `i` of one belongs to position `i` of the
/// other.
pub fn split_batch(batch: &Vec<Record>) -> (parts: (Vec<i64>, Vec<String>))
    ensures
        parts.0@ == ids_of(batch@),
        string_views(parts.1@) == texts_of(batch@),
{
    let mut ids: Vec<i64> = Vec::new();
    let mut texts: Vec<String> = Vec::new();
    let mut i: usize = 0;
    while i < batch.len()
        invariant
            i <= batch.len(),
            ids.len() == i,
            texts.len() == i,
            forall|k: int| 0 <= k < i ==> ids[k] == batch[k].id,
            forall|k: int| 0 <= k < i ==> texts[k]@ == batch[k].content@,
        decreases batch.len() - i,
    {
        ids.push(batch[i].id);
        texts.push(batch[i].content.clone());
        i += 1;
    }
    proof {
        assert(ids@ =~= ids_of(batch@));
        assert(string_views(texts@) =~= texts_of(batch@));
    }
    (ids, texts)
}

} // verus!

//! The shape in which the model takes a batch: the token ids of all texts
//! end to end, with the place where each text begins.

use crate::tokens::TokenSequence;
use vstd::prelude::*;

verus! {

/// A batch laid out for one forward pass.
///
/// The texts of the batch lie end to end. Text `i` occupies the places from
/// `cumulative_seq_lengths[i]` up to, not including,
/// `cumulative_seq_lengths[i + 1]`, in `input_ids`, `token_type_ids` and
/// `position_ids` alike.
#[derive(Debug, PartialEq, Eq)]
pub struct PackedBatch {
    /// The token ids of all texts.
    pub input_ids: Vec<u32>,
    /// The segment each token belongs to: a text is one segment, so zero
    /// throughout.
    pub token_type_ids: Vec<u32>,
    /// The place of each token within its own text, counted from zero.
    pub position_ids: Vec<u32>,
    /// Where each text begins, and, last, where the last one ends.
    pub cumulative_seq_lengths: Vec<u32>,
    /// The number of tokens of the longest text.
    pub max_length: u32,
    /// The texts to return one pooled vector for: all of them.
    pub pooled_indices: Vec<u32>,
    /// The texts to return a vector per token for: none.
    pub raw_indices: Vec<u32>,
}

/// The token ids of each of `sequences`.
pub open spec fn ids_of(sequences: Seq<TokenSequence>) -> Seq<Seq<u32>> {
    sequences.map_values(|sequence: TokenSequence| sequence@)
}

/// The numbers from zero up to, not including, `count`.
pub open spec fn counting(count: nat) -> Seq<u32> {
    Seq::new(count, |i: int| i as u32)
}

/// The place of each token of `texts` within its own text.
pub open spec fn positions(texts: Seq<Seq<u32>>) -> Seq<u32> {
    texts.map_values(|text: Seq<u32>| counting(text.len())).flatten()
}

/// Where each of `texts` begins when they lie end to end, and, last, where
/// the last one ends.
pub open spec fn offsets(texts: Seq<Seq<u32>>) -> Seq<u32> {
    Seq::new(texts.len() + 1, |i: int| texts.take(i).flatten().len() as u32)
}

/// The number of tokens of the longest of `texts`, zero if there is none.
pub open spec fn longest(texts: Seq<Seq<u32>>) -> nat
    decreases texts.len(),
{
    if texts.len() == 0 {
        0
    } else if texts.last().len() >= longest(texts.drop_last()) {
        texts.last().len()
    } else {
        longest(texts.drop_last())
    }
}

/// Whether a batch of `texts` can be laid out: the places and the texts
/// are numbered in 32 bits.
pub open spec fn fits(texts: Seq<Seq<u32>>) -> bool {
    texts.len() <= u32::MAX && texts.flatten().len() <= u32::MAX
}

/// Whether `packed` is the layout of `texts`.
pub open spec fn lays_out(texts: Seq<Seq<u32>>, packed: PackedBatch) -> bool {
    &&& packed.input_ids@ == texts.flatten()
    &&& packed.token_type_ids@ == Seq::new(texts.flatten().len(), |i: int| 0u32)
    &&& packed.position_ids@ == positions(texts)
    &&& packed.cumulative_seq_lengths@ == offsets(texts)
    &&& packed.max_length == longest(texts)
    &&& packed.pooled_indices@ == counting(texts.len())
    &&& packed.raw_indices@ == Seq::<u32>::empty()
}

/// The tokens of the first texts of a batch are among those of the batch.
proof fn lemma_count_grows(texts: Seq<Seq<u32>>, upto: int)
    requires
        0 <= upto <= texts.len(),
    ensures
        texts.take(upto).flatten().len() <= texts.flatten().len(),
    decreases texts.len() - upto,
{
    if upto == texts.len() {
        assert(texts.take(upto) == texts);
    } else {
        lemma_count_grows(texts, upto + 1);
        assert(texts.take(upto + 1) == texts.take(upto).push(texts[upto]));
        texts.take(upto).lemma_flatten_push(texts[upto]);
    }
}

/// What one more text adds to the layout of those before it.
proof fn lemma_one_more_text(texts: Seq<Seq<u32>>, upto: int)
    requires
        0 <= upto < texts.len(),
    ensures
        texts.take(upto + 1).flatten() == texts.take(upto).flatten() + texts[upto],
        positions(texts.take(upto + 1)) == positions(texts.take(upto)) + counting(
            texts[upto].len(),
        ),
        longest(texts.take(upto + 1)) == (if texts[upto].len() >= longest(texts.take(upto)) {
            texts[upto].len()
        } else {
            longest(texts.take(upto))
        }),
{
    let more = texts.take(upto + 1);
    let fewer = texts.take(upto);
    assert(more == fewer.push(texts[upto]));
    assert(more.drop_last() == fewer);
    fewer.lemma_flatten_push(texts[upto]);
    let counted = |text: Seq<u32>| counting(text.len());
    assert(more.map_values(counted) == fewer.map_values(counted).push(counted(texts[upto])));
    fewer.map_values(counted).lemma_flatten_push(counted(texts[upto]));
}

/// Lays a batch out for the forward pass, the texts in the order of the
/// batch. There is no layout for a batch of more than `u32::MAX` texts or
/// tokens.
pub fn pack(sequences: &Vec<TokenSequence>) -> (packed: Option<PackedBatch>)
    ensures
        fits(ids_of(sequences@)) ==> {
            &&& packed matches Some(batch)
            &&& lays_out(ids_of(sequences@), batch)
        },
        !fits(ids_of(sequences@)) ==> packed is None,
{
    let ghost texts = ids_of(sequences@);
    if sequences.len() > u32::MAX as usize {
        return None;
    }
    let mut input_ids: Vec<u32> = Vec::new();
    let mut token_type_ids: Vec<u32> = Vec::new();
    let mut position_ids: Vec<u32> = Vec::new();
    let mut cumulative_seq_lengths: Vec<u32> = Vec::new();
    let mut pooled_indices: Vec<u32> = Vec::new();
    let mut max_length: u32 = 0;
    let mut total: u32 = 0;
    cumulative_seq_lengths.push(0);
    let mut index: usize = 0;
    while index < sequences.len()
        invariant
            texts == ids_of(sequences@),
            texts.len() <= u32::MAX,
            index <= sequences@.len(),
            total == texts.take(index as int).flatten().len(),
            input_ids@ == texts.take(index as int).flatten(),
            token_type_ids@ == Seq::new(total as nat, |i: int| 0u32),
            position_ids@ == positions(texts.take(index as int)),
            cumulative_seq_lengths@ == offsets(texts.take(index as int)),
            max_length == longest(texts.take(index as int)),
            pooled_indices@ == counting(index as nat),
        decreases sequences@.len() - index,
    {
        let ids = sequences[index].ids();
        let ghost text = texts[index as int];
        proof {
            lemma_one_more_text(texts, index as int);
            lemma_count_grows(texts, index + 1);
        }
        if ids.len() > (u32::MAX - total) as usize {
            return None;
        }
        let length: u32 = ids.len() as u32;
        let ghost before_ids = input_ids@;
        let ghost before_types = token_type_ids@;
        let ghost before_positions = position_ids@;
        let mut place: u32 = 0;
        while place < length
            invariant
                place <= length,
                length == text.len(),
                ids@ == text,
                input_ids@ == before_ids + text.take(place as int),
                token_type_ids@ == before_types + Seq::new(place as nat, |i: int| 0u32),
                position_ids@ == before_positions + counting(place as nat),
            decreases length - place,
        {
            input_ids.push(ids[place as usize]);
            token_type_ids.push(0);
            position_ids.push(place);
            place = place + 1;
        }
        if length > max_length {
            max_length = length;
        }
        total = total + length;
        cumulative_seq_lengths.push(total);
        pooled_indices.push(index as u32);
        proof {
            let later = offsets(texts.take(index + 1));
            assert forall|i: int| 0 <= i < later.len() implies cumulative_seq_lengths@[i]
                == later[i] by {
                if i <= index {
                    assert(texts.take(index + 1).take(i) == texts.take(index as int).take(i));
                } else {
                    assert(texts.take(index + 1).take(i) == texts.take(index + 1));
                }
            }
        }
        index = index + 1;
    }
    assert(texts.take(sequences@.len() as int) == texts);
    Some(
        PackedBatch {
            input_ids,
            token_type_ids,
            position_ids,
            cumulative_seq_lengths,
            max_length,
            pooled_indices,
            raw_indices: Vec::new(),
        },
    )
}

} // verus!

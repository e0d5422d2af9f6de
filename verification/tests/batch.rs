use embedanything::batch::{pack, PackedBatch};
use embedanything::tokens::TokenSequence;

fn sequence(ids: &[u32]) -> TokenSequence {
    TokenSequence::from_ids(ids.to_vec(), 16).expect("within the limit")
}

#[test]
fn pack_lays_the_texts_end_to_end() {
    let batch = vec![sequence(&[11, 12, 13]), sequence(&[21]), sequence(&[]), sequence(&[41, 42])];
    assert_eq!(
        pack(&batch),
        Some(PackedBatch {
            input_ids: vec![11, 12, 13, 21, 41, 42],
            token_type_ids: vec![0, 0, 0, 0, 0, 0],
            position_ids: vec![0, 1, 2, 0, 0, 1],
            cumulative_seq_lengths: vec![0, 3, 4, 4, 6],
            max_length: 3,
            pooled_indices: vec![0, 1, 2, 3],
            raw_indices: vec![],
        })
    );
}

#[test]
fn pack_of_an_empty_batch() {
    assert_eq!(
        pack(&Vec::new()),
        Some(PackedBatch {
            input_ids: vec![],
            token_type_ids: vec![],
            position_ids: vec![],
            cumulative_seq_lengths: vec![0],
            max_length: 0,
            pooled_indices: vec![],
            raw_indices: vec![],
        })
    );
}

#[test]
fn pack_of_one_text() {
    let packed = pack(&vec![sequence(&[7, 8])]).expect("two tokens fit");
    assert_eq!(packed.input_ids, vec![7, 8]);
    assert_eq!(packed.position_ids, vec![0, 1]);
    assert_eq!(packed.cumulative_seq_lengths, vec![0, 2]);
    assert_eq!(packed.max_length, 2);
    assert_eq!(packed.pooled_indices, vec![0]);
}

#[test]
fn longest_text_may_come_last() {
    let packed = pack(&vec![sequence(&[1]), sequence(&[2, 3]), sequence(&[4, 5, 6, 7])])
        .expect("seven tokens fit");
    assert_eq!(packed.max_length, 4);
    assert_eq!(packed.cumulative_seq_lengths, vec![0, 1, 3, 7]);
}

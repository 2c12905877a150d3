use vector_chat::embedding::{concat_batches, make_batches, EMBED_BATCH_SIZE};

fn numbered_texts(k: usize) -> Vec<String> {
    (0..k).map(|i| format!("text {}", i)).collect()
}

#[test]
fn batch_size_is_sixty_four() {
    assert_eq!(EMBED_BATCH_SIZE, 64);
}

#[test]
fn one_below_the_batch_boundary() {
    let texts = numbered_texts(EMBED_BATCH_SIZE - 1);
    let batches = make_batches(&texts);
    assert_eq!(batches.len(), 1);
    assert_eq!(batches[0].len(), EMBED_BATCH_SIZE - 1);
}

#[test]
fn exactly_one_full_batch() {
    let texts = numbered_texts(EMBED_BATCH_SIZE);
    let batches = make_batches(&texts);
    assert_eq!(batches.len(), 1);
    assert_eq!(batches[0].len(), EMBED_BATCH_SIZE);
}

#[test]
fn one_above_the_batch_boundary() {
    let texts = numbered_texts(EMBED_BATCH_SIZE + 1);
    let batches = make_batches(&texts);
    assert_eq!(batches.len(), 2);
    assert_eq!(batches[0].len(), EMBED_BATCH_SIZE);
    assert_eq!(batches[1].len(), 1);
    assert_eq!(batches[1][0], format!("text {}", EMBED_BATCH_SIZE));
}

#[test]
fn batches_keep_the_input_order() {
    let texts = numbered_texts(150);
    let batches = make_batches(&texts);
    let flattened: Vec<String> = batches.into_iter().flatten().collect();
    assert_eq!(flattened, texts);
}

#[test]
fn concatenation_restores_count_and_order() {
    // One dummy vector per text of each batch, tagged by position.
    for k in [EMBED_BATCH_SIZE - 1, EMBED_BATCH_SIZE, EMBED_BATCH_SIZE + 1] {
        let texts = numbered_texts(k);
        let batches = make_batches(&texts);
        let mut tag = 0.0f32;
        let responses: Vec<Vec<Vec<f32>>> = batches
            .iter()
            .map(|b| {
                b.iter()
                    .map(|_| {
                        tag += 1.0;
                        vec![tag]
                    })
                    .collect()
            })
            .collect();
        let vectors = concat_batches(responses);
        assert_eq!(vectors.len(), k);
        for (i, v) in vectors.iter().enumerate() {
            assert_eq!(v[0], (i + 1) as f32);
        }
    }
}

#[test]
fn no_texts_no_batches() {
    let texts: Vec<String> = Vec::new();
    assert!(make_batches(&texts).is_empty());
    let empty: Vec<Vec<u8>> = Vec::new();
    assert!(concat_batches(empty).is_empty());
}

use vector_chat::chunker::{chunk_by_sentences, chunk_text, chunk_texts};

#[test]
fn empty_text_yields_no_chunks() {
    let chunks = chunk_text("", 3, "s");
    assert!(chunks.is_empty());
    assert!(chunk_by_sentences("", 3).is_empty());
}

#[test]
fn whitespace_only_text_yields_no_chunks() {
    assert!(chunk_by_sentences("   \n\t\n  ", 2).is_empty());
}

#[test]
fn three_sentences_grouped_in_pairs() {
    let chunks = chunk_text("A. B. C.", 2, "s");
    assert_eq!(chunks.len(), 2);
    assert_eq!(chunks[0].text, "A. B.");
    assert_eq!(chunks[1].text, "C.");
    assert_eq!(chunks[0].index, 0);
    assert_eq!(chunks[1].index, 1);
    assert_eq!(chunks[0].total, 2);
    assert_eq!(chunks[1].total, 2);
    assert_eq!(chunks[0].source, "s");
    assert_eq!(chunks[1].source, "s");
}

#[test]
fn sentence_counts_sum_to_sentence_total() {
    // Five sentences, grouped two at a time: 2 + 2 + 1.
    let chunks = chunk_by_sentences("One. Two! Three? Four. Five.", 2);
    assert_eq!(chunks, vec!["One. Two!", "Three? Four.", "Five."]);
}

#[test]
fn blank_lines_are_skipped() {
    let chunks = chunk_by_sentences("First line.\n\n   \nSecond line.", 3);
    assert_eq!(chunks, vec!["First line. Second line."]);
}

#[test]
fn line_break_closes_a_fragment() {
    let chunks = chunk_by_sentences("no mark here\nthen an end.", 3);
    assert_eq!(chunks, vec!["no mark here then an end."]);
}

#[test]
fn trailing_fragment_is_emitted_trimmed() {
    let chunks = chunk_by_sentences("  just some words without punctuation  ", 4);
    assert_eq!(chunks, vec!["just some words without punctuation"]);
}

#[test]
fn question_and_exclamation_end_sentences() {
    let chunks = chunk_by_sentences("Really? Yes! Good.", 1);
    assert_eq!(chunks, vec!["Really?", "Yes!", "Good."]);
}

#[test]
fn zero_bound_acts_as_one() {
    let chunks = chunk_by_sentences("A. B.", 0);
    assert_eq!(chunks, vec!["A.", "B."]);
}

#[test]
fn chunk_texts_extracts_in_order() {
    let chunks = chunk_text("A. B. C.", 2, "doc");
    let texts = chunk_texts(&chunks);
    assert_eq!(texts, vec!["A. B.", "C."]);
}

#[test]
fn oversized_bound_gives_one_chunk() {
    let chunks = chunk_text("A. B. C.", 10, "doc");
    assert_eq!(chunks.len(), 1);
    assert_eq!(chunks[0].text, "A. B. C.");
    assert_eq!(chunks[0].index, 0);
    assert_eq!(chunks[0].total, 1);
}

use urska::chunking::{chunk, load_file, replace_chunks, simple_word_chunking, ChunkingStrategy, RagProcessableFile, RagProcessableFileType};

fn file(content: &str) -> urska::chunking::LoadedFile {
    let f = RagProcessableFile {
        path: "docs/a.md".to_string(),
        file_type: RagProcessableFileType::Markdown,
        internal_id: "id-1".to_string(),
        original_name: "a.md".to_string(),
        file_description: Some("desc".to_string()),
        tags: Some(vec!["docs".to_string()]),
    };
    load_file(f, content.to_string())
}

#[test]
fn loading_keeps_metadata() {
    let l = file("text");
    assert_eq!(l.content, "text");
    assert_eq!(l.internal_id, "id-1");
    assert_eq!(l.original_file_description, Some("desc".to_string()));
    assert_eq!(l.syntetic_file_description, None);
}

#[test]
fn windows_overlap() {
    let c = simple_word_chunking(file("a b  c\nd e f g"), &3, &1);
    let texts: Vec<(i32, String)> = c.chunks.iter().map(|ch| (ch.seq_num, ch.text.clone())).collect();
    assert_eq!(texts, vec![(0, "a b c".to_string()), (1, "c d e".to_string()), (2, "e f g".to_string())]);
}

#[test]
fn one_window_for_short_text() {
    let c = chunk(file("only two"), ChunkingStrategy::Word(512, 128));
    assert_eq!(c.chunks.len(), 1);
    assert_eq!(c.chunks[0].text, "only two");
    assert!(chunk(file("   "), ChunkingStrategy::Word(4, 1)).chunks.is_empty());
}

#[test]
fn chunks_can_be_replaced() {
    let c = chunk(file("x y"), ChunkingStrategy::Word(1, 0));
    assert_eq!(c.chunks.len(), 2);
    let r = replace_chunks(c, vec![10u8]);
    assert_eq!(r.chunks, vec![10u8]);
    assert_eq!(r.internal_id, "id-1");
}

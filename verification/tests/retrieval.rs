use urska::chunking::{Chunk, RagProcessableFileType};
use urska::retrieval::{
    clean_questions, dedup, file_type_from_name, generate_hype_chunks, prepare_for_upload, processable_file, processable_file_with_id, FaqHit,
    HypeChunk, HypeError, PayloadValue, RulesHit,
};

#[test]
fn list_markers_are_stripped_from_questions() {
    let text = "- What is FAMNIT?\n1. Who teaches Analysis?\n\n  b) Where is the library?\n(iv) How much is it?\nPlain question?\n   ";
    let qs = clean_questions(text).unwrap();
    assert_eq!(
        qs,
        vec![
            "What is FAMNIT?".to_string(),
            "Who teaches Analysis?".to_string(),
            "Where is the library?".to_string(),
            "How much is it?".to_string(),
            "Plain question?".to_string(),
        ]
    );
}

#[test]
fn hype_chunks_pair_questions_with_chunks() {
    let chunks = vec![Chunk { seq_num: 0, text: "alpha".to_string() }, Chunk { seq_num: 1, text: "beta".to_string() }];
    let answers = vec!["* Q1?\n* Q2?".to_string(), "Q3?".to_string(), "unused".to_string()];
    let hs: Vec<HypeChunk<Vec<u8>>> = generate_hype_chunks(&chunks, &answers).unwrap();
    assert_eq!(hs.len(), 2);
    assert_eq!(hs[0].questions, vec!["Q1?".to_string(), "Q2?".to_string()]);
    assert_eq!(hs[1].seq_num, 1);
    assert_eq!(hs[1].text, "beta");
    assert_eq!(hs[1].questions, vec!["Q3?".to_string()]);
}

#[test]
fn points_carry_one_question_each() {
    let c = Chunk { seq_num: 4, text: "body".to_string() };
    let mut h: HypeChunk<u32> = HypeChunk::from_chunk(&c).set_questions(vec!["a?".to_string(), "b?".to_string()]);
    h.set_embedding_vectors(vec![10, 20]);
    let pts = h.prepare_for_upload_with_ids("doc".to_string(), None, vec!["i1".to_string(), "i2".to_string()]).unwrap();
    assert_eq!(pts.len(), 2);
    assert_eq!((pts[1].embedding_vector, pts[1].id.as_str(), pts[1].additional_data.as_str()), (20, "i2", "b?"));
    assert_eq!((pts[0].doc_id.as_str(), pts[0].doc_seq_num, pts[0].content.as_str(), pts[0].doc_summary.as_str()), ("doc", 4, "body", ""));
}

#[test]
fn points_need_matching_embeddings() {
    let c = Chunk { seq_num: 0, text: "t".to_string() };
    let h: HypeChunk<u32> = HypeChunk::from_chunk(&c).set_questions(vec!["a?".to_string()]);
    assert_eq!(h.prepare_for_upload("d".to_string(), Some("s".to_string())).err(), Some(HypeError::NoEmbeddings));
    let mut h2: HypeChunk<u32> = HypeChunk::from_chunk(&c).set_questions(vec!["a?".to_string()]);
    h2.set_embedding_vectors(vec![1, 2]);
    assert_eq!(h2.prepare_for_upload("d".to_string(), None).err(), Some(HypeError::CountMismatch));
    assert_eq!(HypeError::CountMismatch.message(), "Number of questions and embeddings don't match on hypechunk");
    let mut h3: HypeChunk<u32> = HypeChunk::from_chunk(&c).set_questions(vec!["a?".to_string()]);
    h3.set_embedding_vectors(vec![7]);
    let pts = h3.prepare_for_upload("d".to_string(), Some("sum".to_string())).unwrap();
    for a in 0..pts.len() {
        for b in a + 1..pts.len() {
            assert_ne!(pts[a].id, pts[b].id);
        }
    }
    assert_eq!(HypeError::NoFreshIds.message(), "Could not draw distinct ids for the points of the hypechunk");
    assert_eq!(pts[0].id.len(), 36);
    assert_eq!(pts[0].doc_summary, "sum");
}

fn payload(entries: Vec<(&str, PayloadValue)>) -> Vec<(String, PayloadValue)> {
    entries.into_iter().map(|(k, v)| (k.to_string(), v)).collect()
}

#[test]
fn faq_hits_are_read_and_rendered() {
    let p = payload(vec![
        ("question", PayloadValue::Str("How?".into())),
        ("answer", PayloadValue::Str("So.".into())),
        ("keywords", PayloadValue::Str(" a, ,b ".into())),
        ("thread_id", PayloadValue::Int(3)),
    ]);
    let h = FaqHit::from_payload(Some("Uuid(\"x\")".into()), &p);
    assert_eq!(h.id, "Uuid(\"x\")");
    assert_eq!(h.thread_id, "Unknown");
    assert_eq!(h.keywords, vec!["a".to_string(), "b".to_string()]);
    assert_eq!(h.classification, "Unknown");
    assert_eq!(h.render("0.5"), "\n---\n\nScore: 0.5\n\nKeywords: a, b\n\nQuestion:\nHow?\n\nAnswer:\nSo.\n\n---\n");
    let l = payload(vec![("keywords", PayloadValue::List(vec![Some("k1".into()), None, Some("k2".into())]))]);
    let h2 = FaqHit::from_payload(None, &l);
    assert_eq!(h2.id, "Unknown");
    assert_eq!(h2.keywords, vec!["k1".to_string(), "k2".to_string()]);
    let h3 = FaqHit::from_payload(None, &vec![]);
    assert!(h3.render("1").contains("Keywords: (none)"));
}

#[test]
fn rules_hits_name_their_documents() {
    let p = payload(vec![
        ("document_name", PayloadValue::Str("rules_exams_2024.md".into())),
        ("seq_num", PayloadValue::Int(4294967298)),
        ("chunk", PayloadValue::Str("Text".into())),
    ]);
    let h = RulesHit::from_payload(None, &p);
    assert_eq!(h.document_name, "rules/exams/2024");
    assert_eq!(h.seq_num, 2);
    assert_eq!(h.question, "Unknown");
    assert_eq!(
        h.render(),
        "\n            ---\n            Source: rules/exams/2024\n\n            Passage content: \n            \n            Text\n            \n            ---\n\n            "
    );
    let none = RulesHit::from_payload(None, &vec![]);
    assert_eq!((none.seq_num, none.document_name.as_str()), (-1, "Unknown"));
}

#[test]
fn dedup_keeps_first_hit_per_place() {
    let keys = vec![
        ("a".to_string(), 1),
        ("a".to_string(), 2),
        ("a".to_string(), 1),
        ("b".to_string(), 1),
        ("b".to_string(), 1),
    ];
    assert_eq!(dedup(&keys), vec![0, 1, 3]);
    assert!(dedup(&vec![]).is_empty());
}

#[test]
fn file_kinds_by_extension() {
    assert_eq!(file_type_from_name("notes.TXT"), Some(RagProcessableFileType::Text));
    assert_eq!(file_type_from_name("a.b.md"), Some(RagProcessableFileType::Markdown));
    assert_eq!(file_type_from_name("doc.Pdf"), Some(RagProcessableFileType::Pdf));
    assert_eq!(file_type_from_name(".md"), None);
    assert_eq!(file_type_from_name("md"), None);
    assert_eq!(file_type_from_name("x.docx"), None);
    assert_eq!(file_type_from_name("x."), None);
}

#[test]
fn found_files_are_tagged_by_folder() {
    let f = processable_file_with_id("r/sub/a.md".into(), "a.md".into(), Some("sub".into()), false, "id".into()).unwrap();
    assert_eq!(f.tags, Some(vec!["sub".to_string()]));
    assert_eq!(f.file_description, Some(String::new()));
    assert_eq!(f.internal_id, "id");
    let top = processable_file("r/a.txt".into(), "a.txt".into(), Some("r".into()), true).unwrap();
    assert_eq!(top.tags, None);
    assert_eq!(top.internal_id.len(), 36);
    assert!(processable_file("r/a.png".into(), "a.png".into(), None, true).is_none());
}

#[test]
fn file_points_skip_chunks_without_embeddings() {
    let mut a: HypeChunk<u32> = HypeChunk::from_chunk(&Chunk { seq_num: 0, text: "first".to_string() })
        .set_questions(vec!["q1".to_string(), "q2".to_string()]);
    a.set_embedding_vectors(vec![10, 20]);
    let b: HypeChunk<u32> = HypeChunk::from_chunk(&Chunk { seq_num: 1, text: "second".to_string() })
        .set_questions(vec!["q3".to_string()]);
    let mut c: HypeChunk<u32> = HypeChunk::from_chunk(&Chunk { seq_num: 2, text: "third".to_string() })
        .set_questions(vec!["q4".to_string()]);
    c.set_embedding_vectors(vec![40]);
    let pts = prepare_for_upload(vec![a, b, c], "doc-7".to_string(), None).unwrap();
    assert_eq!(pts.len(), 3);
    assert_eq!(pts.iter().map(|p| p.embedding_vector).collect::<Vec<_>>(), vec![10, 20, 40]);
    assert_eq!(pts.iter().map(|p| p.additional_data.as_str()).collect::<Vec<_>>(), vec!["q1", "q2", "q4"]);
    assert_eq!(pts.iter().map(|p| p.doc_seq_num).collect::<Vec<_>>(), vec![0, 0, 2]);
    assert!(pts.iter().all(|p| p.doc_id == "doc-7" && p.doc_summary.is_empty()));
    assert_ne!(pts[0].id, pts[1].id);
    for p in &pts {
        let c: Vec<char> = p.id.chars().collect();
        assert_eq!(c.len(), 36);
        assert_eq!((c[8], c[13], c[14], c[18], c[23]), ('-', '-', '4', '-', '-'));
        assert!(matches!(c[19], '8' | '9' | 'a' | 'b'));
        assert!(c.iter().all(|x| *x == '-' || x.is_ascii_digit() || ('a'..='f').contains(x)));
    }
}

#[test]
fn no_questions_make_no_points() {
    let mut h: HypeChunk<u32> = HypeChunk::from_chunk(&Chunk { seq_num: 3, text: "t".to_string() });
    h.set_embedding_vectors(vec![]);
    assert_eq!(h.prepare_for_upload("d".to_string(), None).unwrap().len(), 0);
    let none: Vec<HypeChunk<u32>> = vec![];
    assert_eq!(prepare_for_upload(none, "d".to_string(), None).unwrap().len(), 0);
}

#[test]
fn one_question_request_per_chunk() {
    use_hype_prompts();
}

fn use_hype_prompts() {
    let qs = urska::retrieval::generate_hype_prompt_questions("exams".to_string(), &vec!["CHUNK-A".to_string(), "CHUNK-B".to_string()]);
    assert_eq!(qs.len(), 2);
    let p = qs[0].prompt();
    assert!(p.starts_with("You are a helpful assistant. Answer users question based on provided context.\n/no_think You will be given a passage from a document, that talks about: exams\n Your task is to analyze"));
    assert!(p.contains("with no prefix.And finally the answer"));
    let b = qs[1].body().unwrap();
    assert!(b.starts_with("\n            You will be given a chunk of text relating in some way to UP FAMNIT (University of Primorska - \\\n        Faculty"));
    assert!(b.contains("-------------- Text to ask about: START -------------- \n\n        CHUNK-B\n\n        -------------- Text to ask about: END"));
    assert!(b.ends_with("text that a student might ask.\n            "));
    assert_eq!(qs[1].model(), "qwen3:8b");
}

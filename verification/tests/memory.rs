use urska::memory::{collection_setup, hit_to_item, memory_step, CollectionSetup, MemoryAction, MemoryEvent};
use urska::memory::{
    default_top_k, id_text, Config, ConfigError, MemoryItem, OllamaService, PointIdView, QueryMemoryParams, ShortTermMemory,
    STM_CAPACITY,
};

#[test]
fn configuration_defaults() {
    let c = Config::from_values(None, None, None, None, None, None).unwrap();
    assert_eq!(c.ollama_endpoint, "http://localhost:11434");
    assert_eq!(c.embedding_model, "bge-m3");
    assert_eq!(c.qdrant_endpoint, "http://localhost:6334");
    assert_eq!(c.qdrant_collection_name, "agent_memory_rmcp");
    assert_eq!(c.embedding_dimension, 1024);
    assert_eq!(c.bind_address, "127.0.0.1:8002");
}

#[test]
fn configuration_values_and_errors() {
    let c = Config::from_values(Some("http://o:1".into()), None, None, Some("mem".into()), Some("+768".into()), None).unwrap();
    assert_eq!(c.ollama_endpoint, "http://o:1");
    assert_eq!(c.qdrant_collection_name, "mem");
    assert_eq!(c.embedding_dimension, 768);
    assert_eq!(
        Config::from_values(None, None, None, None, Some("12a".into()), None).err(),
        Some(ConfigError::InvalidDimension("12a".to_string()))
    );
    assert!(Config::from_values(None, None, None, None, Some("18446744073709551616".into()), None).is_err());
    assert_eq!(
        Config::from_values(None, None, None, None, Some("18446744073709551615".into()), None).unwrap().embedding_dimension,
        u64::MAX
    );
}

#[test]
fn embedding_service_address() {
    let c = Config::from_values(Some("http://h:9".into()), Some("m".into()), None, None, None, None).unwrap();
    let o = OllamaService::new(&c);
    assert_eq!(o.embedding_model, "m");
    assert_eq!(o.embeddings_url(), "http://h:9/api/embeddings");
}

#[test]
fn short_term_memory_keeps_the_newest() {
    let mut m: ShortTermMemory<u32> = ShortTermMemory::new();
    for i in 0..25u32 {
        m.add(i);
    }
    assert_eq!(m.len(), STM_CAPACITY);
    let mut small: ShortTermMemory<u32> = ShortTermMemory::new();
    small.add(7);
    assert_eq!(small.len(), 1);
}

#[test]
fn memory_items_and_queries() {
    let item: MemoryItem<Vec<u8>> = MemoryItem::new(5, "remember".to_string(), 1_700_000_000);
    assert_eq!((item.id, item.text.as_str(), item.timestamp), (5, "remember", 1_700_000_000));
    assert!(item.embedding.is_none());
    assert_eq!(default_top_k(), 5);
    assert_eq!(QueryMemoryParams::new("q".to_string()).top_k, 5);
}

#[test]
fn hit_ids_are_shown() {
    assert_eq!(id_text(PointIdView::Uuid("abc".into()), "fresh".into()), "abc");
    assert_eq!(id_text(PointIdView::Num(120), "fresh".into()), "120");
    assert_eq!(id_text(PointIdView::Missing, "fresh".into()), "fresh");
}

#[test]
fn memory_requests_are_dispatched() {
    assert!(matches!(
        memory_step("query_memory", MemoryEvent::Request { text: "exam".into(), top_k: None }),
        MemoryAction::EmbedQuery { ref text, top_k: 5 } if text == "exam"
    ));
    assert!(matches!(
        memory_step("query_memory", MemoryEvent::Request { text: "exam".into(), top_k: Some(3) }),
        MemoryAction::EmbedQuery { top_k: 3, .. }
    ));
    assert!(matches!(
        memory_step("add_memory", MemoryEvent::Request { text: "note".into(), top_k: None }),
        MemoryAction::RememberAndEmbed(ref t) if t == "note"
    ));
    assert!(matches!(
        memory_step("forget", MemoryEvent::Request { text: "x".into(), top_k: None }),
        MemoryAction::ReplyError(404, ref m) if m == "Method not found"
    ));
    assert!(matches!(memory_step("add_memory", MemoryEvent::Embedded(Ok(()))), MemoryAction::Store));
    assert!(matches!(
        memory_step("add_memory", MemoryEvent::Embedded(Err("down".into()))),
        MemoryAction::ReplyError(500, ref m) if m == "Ollama embedding error: down"
    ));
    assert!(matches!(
        memory_step("query_memory", MemoryEvent::Embedded(Err("down".into()))),
        MemoryAction::ReplyError(500, ref m) if m == "Ollama query embedding error: down"
    ));
    assert!(matches!(
        memory_step("add_memory", MemoryEvent::Stored(Err("full".into()))),
        MemoryAction::ReplyError(500, ref m) if m == "Qdrant error: full"
    ));
    assert!(matches!(memory_step("add_memory", MemoryEvent::Stored(Ok(()))), MemoryAction::ReplyAdded));
    assert!(matches!(
        memory_step("query_memory", MemoryEvent::Searched(Err("gone".into()))),
        MemoryAction::ReplyError(500, ref m) if m == "Qdrant search error: gone"
    ));
    assert!(matches!(memory_step("query_memory", MemoryEvent::Searched(Ok(()))), MemoryAction::ReplyResults));
}

#[test]
fn search_hits_become_results() {
    let item = hit_to_item(PointIdView::Num(42), Some("text".into()), Some("2024-01-01T02:30:00+02:00".into()), "f".into()).unwrap();
    assert_eq!(item.id, "42");
    assert_eq!(item.text, "text");
    assert_eq!(item.timestamp, Some("2024-01-01T00:30:00Z".to_string()));
    let bad = hit_to_item(PointIdView::Missing, Some("t".into()), Some("yesterday".into()), "f".into()).unwrap();
    assert_eq!(bad.id, "f");
    assert_eq!(bad.timestamp, None);
    assert!(hit_to_item(PointIdView::Missing, None, Some("t".into()), "f".into()).is_none());
    assert!(hit_to_item(PointIdView::Missing, Some("x".into()), None, "f".into()).is_none());
}

#[test]
fn the_collection_is_created_only_when_missing() {
    let c = Config::from_values(None, None, None, Some("mem".into()), Some("768".into()), None).unwrap();
    assert!(matches!(collection_setup(Ok(vec!["a".into(), "mem".into()]), &c), Ok(CollectionSetup::Keep)));
    assert!(matches!(
        collection_setup(Ok(vec!["a".into()]), &c),
        Ok(CollectionSetup::Create { ref name, dimension: 768 }) if name == "mem"
    ));
    assert!(matches!(
        collection_setup(Err("refused".into()), &c),
        Err(ref m) if m == "Failed to connect to Qdrant or list collections: refused"
    ));
}

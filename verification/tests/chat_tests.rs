use vael_core::chat::{
    build_context, chat_transition, extract_reply, ChatError, ChatEvent, ChatState,
};
use vael_core::embedding::{Embedding, EMBED_DIM};
use vael_core::prompt::render_system_prompt;
use vael_core::store::RecordStore;

fn emb(seed: i64) -> Embedding {
    let mut v = vec![0i64; EMBED_DIM];
    v[0] = seed;
    Embedding::new(v).expect("in-range coordinates")
}

#[test]
fn embedding_vectors_are_validated() {
    assert!(Embedding::new(vec![0i64; EMBED_DIM]).is_some());
    assert!(Embedding::new(vec![0i64; EMBED_DIM - 1]).is_none());
    assert!(Embedding::new(vec![0i64; EMBED_DIM + 1]).is_none());
    let mut too_big = vec![0i64; EMBED_DIM];
    too_big[17] = 1_000_001;
    assert!(Embedding::new(too_big).is_none());
    let mut too_small = vec![0i64; EMBED_DIM];
    too_small[17] = -1_000_001;
    assert!(Embedding::new(too_small).is_none());
}

#[test]
fn distance_is_the_squared_coordinate_gap() {
    let a = emb(0);
    let b = emb(3);
    assert_eq!(vael_core::embedding::distance(&a, &b), 9);
    assert_eq!(vael_core::embedding::distance(&a, &a), 0);
}

#[test]
fn query_embedding_failure_fails_fast() {
    let store = RecordStore::new();
    let r = build_context(&store, None);
    assert_eq!(r.unwrap_err(), ChatError::QueryProcessingFailed);
}

#[test]
fn embedding_failure_never_reaches_the_completion_state() {
    let s1 = chat_transition(ChatState::Start, ChatEvent::EmbeddingUnavailable);
    assert_eq!(s1, ChatState::Failed(ChatError::QueryProcessingFailed));
    // Whatever is reported afterwards, the request stays failed with the
    // one recorded cause and never awaits a completion call.
    let mut s = s1;
    for e in [
        ChatEvent::ContextRetrieved,
        ChatEvent::PromptReady,
        ChatEvent::CompletionOk,
        ChatEvent::CompletionError,
    ] {
        s = chat_transition(s, e);
        assert_eq!(s, ChatState::Failed(ChatError::QueryProcessingFailed));
        assert_ne!(s, ChatState::PromptRendered);
    }
}

#[test]
fn happy_path_runs_to_completed() {
    let mut s = ChatState::Start;
    s = chat_transition(s, ChatEvent::EmbeddingReady);
    assert_eq!(s, ChatState::QueryEmbedded);
    s = chat_transition(s, ChatEvent::ContextRetrieved);
    assert_eq!(s, ChatState::ContextBuilt);
    s = chat_transition(s, ChatEvent::PromptReady);
    assert_eq!(s, ChatState::PromptRendered);
    s = chat_transition(s, ChatEvent::CompletionOk);
    assert_eq!(s, ChatState::Completed);
}

#[test]
fn completion_failure_is_recorded_as_its_own_cause() {
    let s = chat_transition(ChatState::PromptRendered, ChatEvent::CompletionError);
    assert_eq!(s, ChatState::Failed(ChatError::CompletionFailed));
}

#[test]
fn chat_against_an_empty_store_renders_an_empty_digest() {
    let store = RecordStore::new();
    let prompt = build_context(&store, Some(emb(2))).expect("an embedded query succeeds");
    assert_eq!(prompt, render_system_prompt(""));
}

#[test]
fn chat_prompt_carries_the_retrieved_history() {
    let mut store = RecordStore::new();
    let mut r = vael_core::record::WorkoutRecord {
        id: 1,
        owner_id: 7,
        name: "Bench Press".to_string(),
        status: "completed".to_string(),
        start_time: 1_700_000_000,
        end_time: None,
        volume_kg: Some(100),
        created_at: 1_700_000_000,
        last_modified: 1_700_000_000,
        embedding: None,
    };
    r.embedding = Some(emb(1));
    store.upsert_batch(&vec![r]);
    let prompt = build_context(&store, Some(emb(0))).expect("an embedded query succeeds");
    assert_eq!(
        prompt,
        render_system_prompt(
            "Here is the user's relevant workout history:\n\
             - Bench Press on 1700000000 (Vol: 100kg)\n"
        )
    );
}

#[test]
fn reply_extraction_defaults_missing_content_to_empty() {
    assert_eq!(extract_reply(Some("On it.".to_string())).reply, "On it.");
    assert_eq!(extract_reply(None).reply, "");
}

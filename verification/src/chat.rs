//! Chat orchestration: the per-request state machine and the pure
//! decision steps between the embedding, retrieval, rendering, and
//! completion stages. The outside calls themselves happen elsewhere and
//! report their outcomes back as plain values.

use vstd::prelude::*;
use crate::embedding::Embedding;
use crate::prompt::{digest_model, prompt_model, context_digest, render_system_prompt};
use crate::record::RecordModel;
use crate::store::{RecordStore, models, nearest_result};

verus! {

/// Request body of a chat call.
#[derive(Debug)]
pub struct ChatRequest {
    pub message: String,
}

/// Reply of a successful chat call.
#[derive(Debug)]
pub struct ChatResponse {
    pub reply: String,
}

/// Why a chat request failed.
#[derive(PartialEq, Eq, Structural, Clone, Copy, Debug)]
pub enum ChatError {
    /// The query could not be embedded, so no retrieval was possible.
    QueryProcessingFailed,
    /// The completion endpoint failed or could not be reached.
    CompletionFailed,
}

/// Number of records retrieved as context for a chat query.
pub const CONTEXT_K: usize = 3;

/// The states one chat request moves through. Exactly one reply or one
/// error leaves the pipeline: `Completed` and `Failed` are terminal.
#[derive(PartialEq, Eq, Structural, Clone, Copy, Debug)]
pub enum ChatState {
    /// The request arrived; the query is about to be embedded.
    Start,
    /// The query embedding is in hand; retrieval comes next.
    QueryEmbedded,
    /// Context records are retrieved; the prompt is rendered next.
    ContextBuilt,
    /// The system prompt is rendered; only here is the completion
    /// endpoint called.
    PromptRendered,
    /// A reply was produced.
    Completed,
    /// The request failed with the recorded cause; terminal.
    Failed(ChatError),
}

/// What the outside world reports back after each stage.
#[derive(PartialEq, Eq, Structural, Clone, Copy, Debug)]
pub enum ChatEvent {
    EmbeddingReady,
    EmbeddingUnavailable,
    ContextRetrieved,
    PromptReady,
    CompletionOk,
    CompletionError,
}

/// One step of the per-request state machine. A stage's failure moves
/// straight to `Failed` with its cause; an event that does not belong to
/// the current state changes nothing.
pub open spec fn chat_step(s: ChatState, e: ChatEvent) -> ChatState {
    match (s, e) {
        (ChatState::Start, ChatEvent::EmbeddingReady) => ChatState::QueryEmbedded,
        (ChatState::Start, ChatEvent::EmbeddingUnavailable) => ChatState::Failed(
            ChatError::QueryProcessingFailed,
        ),
        (ChatState::QueryEmbedded, ChatEvent::ContextRetrieved) => ChatState::ContextBuilt,
        (ChatState::ContextBuilt, ChatEvent::PromptReady) => ChatState::PromptRendered,
        (ChatState::PromptRendered, ChatEvent::CompletionOk) => ChatState::Completed,
        (ChatState::PromptRendered, ChatEvent::CompletionError) => ChatState::Failed(
            ChatError::CompletionFailed,
        ),
        (_, _) => s,
    }
}

/// Executable form of the state machine step.
pub fn chat_transition(s: ChatState, e: ChatEvent) -> (r: ChatState)
    ensures
        r == chat_step(s, e),
{
    match (s, e) {
        (ChatState::Start, ChatEvent::EmbeddingReady) => ChatState::QueryEmbedded,
        (ChatState::Start, ChatEvent::EmbeddingUnavailable) => ChatState::Failed(
            ChatError::QueryProcessingFailed,
        ),
        (ChatState::QueryEmbedded, ChatEvent::ContextRetrieved) => ChatState::ContextBuilt,
        (ChatState::ContextBuilt, ChatEvent::PromptReady) => ChatState::PromptRendered,
        (ChatState::PromptRendered, ChatEvent::CompletionOk) => ChatState::Completed,
        (ChatState::PromptRendered, ChatEvent::CompletionError) => ChatState::Failed(
            ChatError::CompletionFailed,
        ),
        (_, _) => s,
    }
}

/// The state after a whole run of reported events.
pub open spec fn chat_run(s: ChatState, es: Seq<ChatEvent>) -> ChatState
    decreases es.len(),
{
    if es.len() == 0 {
        s
    } else {
        chat_run(chat_step(s, es.first()), es.drop_first())
    }
}

/// The completion endpoint is called only from the rendered-prompt state.
pub open spec fn awaits_completion(s: ChatState) -> bool {
    s is PromptRendered
}

/// A failed request stays failed with its cause, whatever is reported
/// afterwards: there is no retry path inside one request.
pub proof fn lemma_failed_absorbing(c: ChatError, es: Seq<ChatEvent>)
    ensures
        chat_run(ChatState::Failed(c), es) == ChatState::Failed(c),
    decreases es.len(),
{
    if es.len() > 0 {
        lemma_failed_absorbing(c, es.drop_first());
    }
}

/// A query-embedding failure is the single reported failure of the whole
/// request — the run ends in `Failed` with that cause — and no point of
/// the run ever awaits the completion endpoint, so no completion call is
/// made.
pub proof fn lemma_embed_failure_no_completion(es: Seq<ChatEvent>)
    requires
        es.len() > 0,
        es.first() is EmbeddingUnavailable,
    ensures
        chat_run(ChatState::Start, es) == ChatState::Failed(ChatError::QueryProcessingFailed),
        forall|i: int|
            0 <= i <= es.len() ==> !awaits_completion(chat_run(ChatState::Start, es.take(i))),
{
    lemma_failed_absorbing(ChatError::QueryProcessingFailed, es.drop_first());
    assert forall|i: int|
        0 <= i <= es.len() implies !awaits_completion(chat_run(ChatState::Start, es.take(i))) by {
        if i > 0 {
            let t = es.take(i);
            assert(t.first() == es.first());
            lemma_failed_absorbing(ChatError::QueryProcessingFailed, t.drop_first());
        }
    }
}

/// Builds the retrieval-augmented system prompt for a chat query from the
/// outcome of embedding it. With no query embedding the chat fails fast —
/// the one place an embedding failure is not tolerated, because no
/// retrieval is possible without a query vector. Otherwise the nearest
/// `CONTEXT_K` records are rendered into the digest and the digest into
/// the fixed prompt template.
pub fn build_context(store: &RecordStore, query_embedding: Option<Embedding>) -> (r: Result<
    String,
    ChatError,
>)
    requires
        store.wf(),
    ensures
        r is Err <==> query_embedding is None,
        r is Err ==> r->Err_0 == ChatError::QueryProcessingFailed,
        r is Ok ==> exists|ctx: Seq<RecordModel>|
            #[trigger] nearest_result(store@, query_embedding->0@, CONTEXT_K as int, ctx)
                && r->Ok_0@ == prompt_model(digest_model(ctx)),
{
    match query_embedding {
        None => Err(ChatError::QueryProcessingFailed),
        Some(qe) => {
            let ctx = store.nearest(&qe, CONTEXT_K);
            let digest = context_digest(&ctx);
            let prompt = render_system_prompt(digest.as_str());
            proof {
                let w = models(ctx@);
                assert(nearest_result(store@, qe@, CONTEXT_K as int, w) && prompt@ == prompt_model(
                    digest_model(w),
                ));
            }
            Ok(prompt)
        },
    }
}

/// The reply a completion outcome turns into: the returned content, or
/// the empty string when the provider returned none.
pub fn extract_reply(content: Option<String>) -> (r: ChatResponse)
    ensures
        content is Some ==> r.reply@ == content->0@,
        content is None ==> r.reply@ == Seq::<char>::empty(),
{
    match content {
        Some(s) => ChatResponse { reply: s },
        None => ChatResponse { reply: String::new() },
    }
}

} // verus!

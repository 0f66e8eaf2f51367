use rag_system_mini::agent::completion_outcome;
use rag_system_mini::agent::AgentError;
use rag_system_mini::agent::RetrievalAugmentedAgent;
use rag_system_mini::extract::classify_extraction;
use rag_system_mini::extract::ExtractionError;
use rag_system_mini::index::EmbeddingIndex;
use rag_system_mini::session::handle_turn_result;
use rag_system_mini::session::session_step;
use rag_system_mini::session::SessionAction;
use rag_system_mini::session::SessionEvent;
use rag_system_mini::session::SessionState;

#[test]
fn prompt_holds_preamble_context_and_question() {
    let mut idx = EmbeddingIndex::new(2);
    idx.ingest(
        String::from("doc1"),
        String::from("Hello world"),
        vec![1_000_000, 0],
    );
    let q: Vec<i64> = vec![1_000_000, 0];
    let hits = idx.query(&q, 1);
    let agent = RetrievalAugmentedAgent::new(String::from("You are helpful."), 1);
    let prompt = agent.build_prompt(&hits, "What does the document say?");
    assert_eq!(
        prompt,
        "You are helpful.\n\ndoc1:\nHello world\n\nQuestion: What does the document say?"
    );
}

#[test]
fn prompt_with_no_context_still_carries_the_question() {
    let agent = RetrievalAugmentedAgent::new(String::from("P"), 1);
    let prompt = agent.build_prompt(&Vec::new(), "q");
    assert_eq!(prompt, "P\n\n\nQuestion: q");
}

#[test]
fn prompt_keeps_retrieved_order() {
    let mut idx = EmbeddingIndex::new(2);
    idx.ingest(String::from("far"), String::from("far text"), vec![0, 1_000_000]);
    idx.ingest(String::from("near"), String::from("near text"), vec![1_000_000, 0]);
    let q: Vec<i64> = vec![1_000_000, 0];
    let hits = idx.query(&q, 2);
    let agent = RetrievalAugmentedAgent::new(String::from("P"), 2);
    let prompt = agent.build_prompt(&hits, "q");
    assert_eq!(prompt, "P\n\nnear:\nnear text\nfar:\nfar text\n\nQuestion: q");
}

#[test]
fn completion_reply_is_returned_verbatim() {
    let r = completion_outcome(Ok(String::from("  the reply\n")));
    assert_eq!(r.unwrap_or_default(), "  the reply\n");
}

#[test]
fn completion_failure_is_propagated_with_the_provider_text() {
    let r = completion_outcome(Err(String::from("quota exceeded")));
    match r {
        Err(AgentError::CompletionFailure(m)) => assert_eq!(m, "quota exceeded"),
        _ => panic!("expected a completion failure"),
    }
}

#[test]
fn agent_error_messages_are_descriptive() {
    assert_eq!(AgentError::RetrievalFailure.message(), "retrieval failure");
    assert_eq!(
        AgentError::CompletionFailure(String::from("timeout")).message(),
        "completion failure: timeout"
    );
}

#[test]
fn quit_terminates_the_session() {
    let (st, act) = session_step(
        SessionState::AwaitingInput,
        SessionEvent::Line(String::from("quit")),
    );
    assert_eq!(st, SessionState::Terminated);
    assert!(matches!(act, SessionAction::Stop));
}

#[test]
fn exit_with_whitespace_terminates_the_session() {
    let (st, act) = session_step(
        SessionState::AwaitingInput,
        SessionEvent::Line(String::from("  exit \r")),
    );
    assert_eq!(st, SessionState::Terminated);
    assert!(matches!(act, SessionAction::Stop));
}

#[test]
fn end_of_input_terminates_the_session() {
    let (st, act) = session_step(SessionState::AwaitingInput, SessionEvent::EndOfInput);
    assert_eq!(st, SessionState::Terminated);
    assert!(matches!(act, SessionAction::Stop));
}

#[test]
fn ordinary_line_is_answered_and_session_continues() {
    let (st, act) = session_step(
        SessionState::AwaitingInput,
        SessionEvent::Line(String::from("what is quantum mechanics?")),
    );
    assert_eq!(st, SessionState::AwaitingInput);
    match act {
        SessionAction::Respond(l) => assert_eq!(l, "what is quantum mechanics?"),
        SessionAction::Stop => panic!("an ordinary line must be answered"),
    }
}

#[test]
fn terminated_session_stays_terminated() {
    let (st, act) = session_step(
        SessionState::Terminated,
        SessionEvent::Line(String::from("hello?")),
    );
    assert_eq!(st, SessionState::Terminated);
    assert!(matches!(act, SessionAction::Stop));
}

#[test]
fn failed_turn_is_printed_and_the_session_stays_active() {
    let (text, st) = handle_turn_result(Err(AgentError::CompletionFailure(String::from(
        "connection reset",
    ))));
    assert_eq!(st, SessionState::AwaitingInput);
    assert_eq!(text, "completion failure: connection reset");

    // the next, successful turn is processed normally
    let (text2, st2) = handle_turn_result(Ok(String::from("fine answer")));
    assert_eq!(st2, SessionState::AwaitingInput);
    assert_eq!(text2, "fine answer");
}

#[test]
fn missing_document_is_not_found() {
    let r = classify_extraction(false, None);
    assert_eq!(r.unwrap_err(), ExtractionError::NotFound);
    // even when a parser result is present, a missing path wins
    let r2 = classify_extraction(false, Some(String::from("ghost")));
    assert_eq!(r2.unwrap_err(), ExtractionError::NotFound);
}

#[test]
fn unparseable_document_is_a_parse_failure() {
    let r = classify_extraction(true, None);
    assert_eq!(r.unwrap_err(), ExtractionError::ParseFailure);
}

#[test]
fn empty_extraction_is_reported() {
    let r = classify_extraction(true, Some(String::new()));
    assert_eq!(r.unwrap_err(), ExtractionError::Empty);
}

#[test]
fn extracted_text_is_returned_unchanged() {
    let r = classify_extraction(true, Some(String::from("Hello world")));
    assert_eq!(r.unwrap(), "Hello world");
}

use vector_chat::conversation::{classify_input, context_preamble, Conversation, InputKind, Role};
use vector_chat::errors::RagError;

fn four_message_history() -> Conversation {
    let mut conv = Conversation::new();
    conv.add_system_message("be helpful");
    conv.add_user_message("hello");
    conv.add_assistant_message("hi there");
    conv.add_user_message("what now?");
    conv
}

#[test]
fn soft_reset_keeps_only_system_messages() {
    let mut conv = four_message_history();
    conv.reset_conversation(true);
    assert_eq!(conv.history.len(), 1);
    assert_eq!(conv.history[0].role, Role::System);
    assert_eq!(conv.history[0].content, "be helpful");
}

#[test]
fn hard_reset_clears_everything() {
    let mut conv = four_message_history();
    conv.reset_conversation(false);
    assert!(conv.history.is_empty());
}

#[test]
fn messages_append_in_order() {
    let conv = four_message_history();
    let roles: Vec<Role> = conv.history.iter().map(|m| m.role).collect();
    assert_eq!(roles, vec![Role::System, Role::User, Role::Assistant, Role::User]);
    assert_eq!(conv.history[3].content, "what now?");
}

#[test]
fn a_completion_with_content_is_recorded() {
    let mut conv = four_message_history();
    let response = conv
        .accept_completion(vec![Some("an answer".to_string())])
        .unwrap();
    assert_eq!(response, "an answer");
    assert_eq!(conv.history.len(), 5);
    assert_eq!(conv.history[4].role, Role::Assistant);
    assert_eq!(conv.history[4].content, "an answer");
}

#[test]
fn a_completion_without_choices_leaves_history_unchanged() {
    let mut conv = four_message_history();
    match conv.accept_completion(Vec::new()) {
        Err(RagError::Provider(detail)) => assert_eq!(detail, "No content in response"),
        _ => panic!("expected a provider error"),
    }
    assert_eq!(conv.history.len(), 4);
}

#[test]
fn a_completion_without_content_leaves_history_unchanged() {
    let mut conv = four_message_history();
    match conv.accept_completion(vec![None, Some("later".to_string())]) {
        Err(RagError::Provider(detail)) => assert_eq!(detail, "No content in response"),
        _ => panic!("expected a provider error"),
    }
    assert_eq!(conv.history.len(), 4);
}

#[test]
fn exit_words_are_recognised_case_insensitively() {
    assert_eq!(classify_input("exit"), InputKind::Exit);
    assert_eq!(classify_input("EXIT"), InputKind::Exit);
    assert_eq!(classify_input("Quit"), InputKind::Exit);
    assert_eq!(classify_input("bye"), InputKind::Exit);
    assert_eq!(classify_input("reset"), InputKind::Reset);
    assert_eq!(classify_input("Reset"), InputKind::Reset);
    assert_eq!(classify_input("hello there"), InputKind::Query);
    assert_eq!(classify_input("exit now"), InputKind::Query);
}

#[test]
fn the_preamble_precedes_the_context() {
    let msg = context_preamble("Context 1 (Relevance: 0.90) (from doc1): x");
    assert_eq!(
        msg,
        "Here is some relevant context to help answer the question. \
         Use this information if it's helpful for answering the question:\n\
         Context 1 (Relevance: 0.90) (from doc1): x"
    );
}

use urska::session::{PromptAction, PromptEvent, PromptFlow, PromptStage};
use urska::profile::ProfileRole;
use urska::queue::QueueMessage;
use urska::session::{
    answer_finished, handle_client_message, login_outcome, notification_text, queue_reply, BackendMessage, FrontendMessage,
    LdapOutcome, LoginKind, MessageType, SessionStep,
};

fn message(t: MessageType, c: &str) -> FrontendMessage {
    FrontendMessage { message_type: t, content: c.to_string() }
}

#[test]
fn prompts_need_a_login() {
    match handle_client_message(false, "s1", message(MessageType::Prompt, "hi")) {
        SessionStep::Reply(BackendMessage::Error(m)) => assert_eq!(m, "Not logged in..."),
        other => panic!("unexpected {:?}", other),
    }
    match handle_client_message(true, "s1", message(MessageType::Prompt, "hi")) {
        SessionStep::Ask(p) => assert_eq!(p, "hi"),
        other => panic!("unexpected {:?}", other),
    }
}

#[test]
fn other_messages() {
    match handle_client_message(false, "s1", message(MessageType::ThumbsDown, "")) {
        SessionStep::SaveConversation(f) => assert_eq!(f, "down_s1.json"),
        other => panic!("unexpected {:?}", other),
    }
    match handle_client_message(false, "s2", message(MessageType::ThumbsUp, "")) {
        SessionStep::SaveConversation(f) => assert_eq!(f, "up_s2.json"),
        other => panic!("unexpected {:?}", other),
    }
    match handle_client_message(false, "s1", message(MessageType::StudentLogin, "{}")) {
        SessionStep::Login(k, c) => assert_eq!((k, c.as_str()), (LoginKind::Student, "{}")),
        other => panic!("unexpected {:?}", other),
    }
    assert!(matches!(handle_client_message(true, "s", message(MessageType::Logout, "")), SessionStep::Logout));
}

#[test]
fn login_outcomes() {
    assert_eq!(login_outcome(LoginKind::Employee, LdapOutcome::NoMatch).err(), Some("Invalid credentials".to_string()));
    assert_eq!(login_outcome(LoginKind::Student, LdapOutcome::NoMatch).err(), Some("LDAP invalid credentials".to_string()));
    assert_eq!(
        login_outcome(LoginKind::Student, LdapOutcome::Failed("Timeout".into())).err(),
        Some("LDAP failed: Timeout".to_string())
    );
    assert_eq!(
        login_outcome(LoginKind::Employee, LdapOutcome::Found("bad".into(), vec![])).err(),
        Some("Profile parsing: Could not extract uid value from ldap string".to_string())
    );
    let p = login_outcome(LoginKind::Student, LdapOutcome::Found("uid=89161125,ou=s".into(), vec![])).unwrap();
    assert_eq!((p.role, p.username.as_str()), (ProfileRole::Student, "89161125"));
}

#[test]
fn queue_and_answer_messages() {
    assert!(matches!(queue_reply(QueueMessage::PositionUpade(3)), Some(BackendMessage::QueuePosition(3))));
    assert!(queue_reply(QueueMessage::StartJob(7)).is_none());
    let done = answer_finished(Some("boom".into()));
    assert!(matches!(&done[0], BackendMessage::Chunk(c) if c == "[Tool error] boom"));
    assert!(matches!(done[1], BackendMessage::End));
    assert_eq!(answer_finished(None).len(), 1);
    assert_eq!(notification_text(None), "\u{25b1}");
    assert_eq!(notification_text(Some("Working".into())), "Working");
}

#[test]
fn queued_prompt_is_asked_once_and_frees_its_slot() {
    let mut f = PromptFlow::start("When is the exam?".to_string());
    match f.on_event(PromptEvent::Queue(QueueMessage::PositionUpade(2))) {
        PromptAction::Show(BackendMessage::QueuePosition(2)) => {},
        a => panic!("unexpected {:?}", a),
    }
    match f.on_event(PromptEvent::Queue(QueueMessage::StartJob(7))) {
        PromptAction::CallTool(t, q) => {
            assert_eq!(t, "ask_urska");
            assert_eq!(q, "When is the exam?");
        },
        a => panic!("unexpected {:?}", a),
    }
    assert_eq!(f.stage, PromptStage::Asking(7));
    match f.on_event(PromptEvent::ToolDone(Some("down".to_string()))) {
        PromptAction::Finish(ms, 7) => {
            assert_eq!(ms.len(), 2);
            assert!(matches!(&ms[0], BackendMessage::Chunk(c) if c == "[Tool error] down"));
            assert!(matches!(ms[1], BackendMessage::End));
        },
        a => panic!("unexpected {:?}", a),
    }
    assert_eq!(f.stage, PromptStage::Done);
}

use urska::conversation::{
    aggregate_steps, context_from_replies, history_to_memory_prompt, history_to_prompt, tool_arguments, ChatMessage,
    ChatRole, ToolArguments,
};

fn msg(role: ChatRole, content: Option<&str>, id: Option<&str>) -> ChatMessage {
    ChatMessage { role, content: content.map(|s| s.to_string()), tool_call_id: id.map(|s| s.to_string()) }
}

fn history() -> Vec<ChatMessage> {
    vec![
        msg(ChatRole::System, Some("sys"), None),
        msg(ChatRole::User, Some("hi"), None),
        msg(ChatRole::Tool, Some("42"), Some("call\"1")),
        msg(ChatRole::Tool, None, None),
        msg(ChatRole::Developer, Some("dev"), None),
        msg(ChatRole::Assistant, Some("hello"), None),
    ]
}

#[test]
fn summary_skips_the_system_prompt() {
    assert_eq!(
        history_to_prompt(&history()),
        "Here is a summary of a conversation.USER ASKED: hi\n\nTOOL `\"call\\\"1\"` RETURNED:\n42\n\nTOOL `\"unknown_tool\"` RETURNED:\n\n\nASSISTANT: hello\n\n---\nEnd of conversation summary."
    );
}

#[test]
fn memory_summary_skips_two() {
    assert_eq!(
        history_to_memory_prompt(history()),
        "Here is a summary of a conversation.TOOL `\"call\\\"1\"` RETURNED:\n42\n\nTOOL `\"unknown_tool\"` RETURNED:\n\n\nASSISTANT: hello\n\n---\nEnd of conversation summary."
    );
    assert_eq!(history_to_memory_prompt(vec![]), "Here is a summary of a conversation.---\nEnd of conversation summary.");
}

#[test]
fn steps_are_numbered_and_trimmed() {
    let steps = vec![("  find x ".to_string(), "x is 1\n".to_string()), ("y".to_string(), "".to_string())];
    assert_eq!(
        aggregate_steps(&steps),
        "### Step 1\nUser Instruction:\nfind x\n\nExecutor Response:\nx is 1\n \n\n---\n\n### Step 2\nUser Instruction:\ny\n\nExecutor Response:\n\n "
    );
    assert_eq!(aggregate_steps(&vec![]), "");
}

#[test]
fn tool_arguments_per_tool() {
    assert_eq!(tool_arguments("get_staff_profiles", "Who is X?"), Some(ToolArguments::NameAndCount { name: "Who is X?".into(), k: 1 }));
    assert_eq!(tool_arguments("get_programme_info", "CS"), Some(ToolArguments::NameAndLevel { name: "CS".into(), level: "any".into() }));
    assert_eq!(tool_arguments("list_all_programmes", "CS"), Some(ToolArguments::Level { level: "any".into() }));
    assert_eq!(tool_arguments("query_memory", "q"), Some(ToolArguments::QueryAndTopK { query_text: "q".into(), top_k: 10 }));
    assert_eq!(tool_arguments("retrieve_similar_FAQ", "q"), Some(ToolArguments::QuestionAndCount { question: "q".into(), k: 7 }));
    assert_eq!(tool_arguments("ask_about_rules_and_acts", "q"), Some(ToolArguments::QuestionAndCount { question: "q".into(), k: 7 }));
    assert_eq!(tool_arguments("get_web_page_content", "q"), None);
}

#[test]
fn tool_replies_make_the_context() {
    let r = context_from_replies(&vec![Some("A".to_string()), None]);
    assert_eq!(r, "# Tool resulted in:\n\nA\n\n---\n\n# Tool resulted in:\n\n");
    assert_eq!(context_from_replies(&vec![]), "");
}

use urska::conversation::{record_answer, tool_calls_for, UrskaAction, UrskaEvent, UrskaFlow, UrskaStage, FlowAction, FlowEvent, FlowStage, PlanFlow};

#[test]
fn tool_calls_only_for_required_tools_with_arguments() {
    let verdicts = vec![
        ("query_memory".to_string(), true),
        ("get_staff_profiles".to_string(), false),
        ("get_web_page_content".to_string(), true),
        ("list_all_programmes".to_string(), true),
    ];
    let calls = tool_calls_for(&verdicts, "Who?");
    assert_eq!(
        calls,
        vec![
            ("query_memory".to_string(), ToolArguments::QueryAndTopK { query_text: "Who?".into(), top_k: 10 }),
            ("list_all_programmes".to_string(), ToolArguments::Level { level: "any".into() }),
        ]
    );
}

fn begin(h: Vec<ChatMessage>, prompt: &str, faq_tool: bool) -> (PlanFlow, FlowAction) {
    let (flow, action) = PlanFlow::start(h, prompt.to_string(), faq_tool);
    assert!(matches!(action, FlowAction::Notify(ref t) if t == "Preparing..."));
    assert_eq!(flow.stage, FlowStage::Preparing);
    flow.on_event(FlowEvent::Notified)
}

#[test]
fn short_conversation_goes_to_the_faq_then_plans() {
    let h = vec![msg(ChatRole::System, Some("sys"), None)];
    let (flow, action) = begin(h, "Q", true);
    assert!(matches!(action, FlowAction::CheckFaq { ref question, k: 10, ref note } if question == "Q" && note == "Checking for quick response..."));
    let (flow, action) = flow.on_event(FlowEvent::FaqReply(None));
    assert!(matches!(action, FlowAction::AssessFaq { ref faq, .. } if faq == "No similar FAQ found"));
    let (flow, action) = flow.on_event(FlowEvent::Assessed(false));
    assert!(matches!(action, FlowAction::Blueprint { faq: None, .. }));
    let (flow, action) = flow.on_event(FlowEvent::BlueprintMade(Some("sketch".to_string())));
    assert!(matches!(action, FlowAction::PlanAndRun { ref blueprint, ref note, ref running_note } if blueprint == "sketch" && note == "Thinking how to find the requested information..." && running_note == "Constructing answer..."));
    assert_eq!(flow.stage, FlowStage::AwaitSteps);
    let (flow, action) = flow.on_event(FlowEvent::StepsDone(vec![("do".to_string(), "done".to_string())]));
    assert_eq!(flow.stage, FlowStage::AwaitAnswer);
    match action {
        FlowAction::Answer { tool_messages, prompt } => {
            assert_eq!(prompt, "Q");
            assert_eq!(tool_messages.len(), 2);
            assert_eq!(tool_messages[0], ("No similar FAQ found".to_string(), "1".to_string()));
            assert_eq!(
                tool_messages[1],
                ("### Step 1\nUser Instruction:\ndo\n\nExecutor Response:\ndone\n ".to_string(), "0".to_string())
            );
        }
        other => panic!("unexpected {:?}", other),
    }
    let (flow, action) = flow.on_event(FlowEvent::Answered(msg(ChatRole::Assistant, Some("A"), None)));
    assert_eq!(flow.stage, FlowStage::Done);
    match action {
        FlowAction::Finish { history, done } => {
            assert_eq!(done, Some("A".to_string()));
            assert_eq!(history.len(), 3);
            assert_eq!(history[1].role, ChatRole::User);
            assert_eq!(history[1].content, Some("Q".to_string()));
            assert_eq!(history[2].content, Some("A".to_string()));
        }
        other => panic!("unexpected {:?}", other),
    }
}

#[test]
fn long_conversation_is_rephrased_and_faq_can_answer() {
    let h = history();
    let (flow, action) = begin(h, "and that?", false);
    assert!(matches!(action, FlowAction::Rephrase { ref note, .. } if note == "Assessing query..."));
    assert!(flow.expects(&FlowEvent::Rephrased(None)));
    assert!(!flow.expects(&FlowEvent::Assessed(true)));
    let (flow, action) = flow.on_event(FlowEvent::Rephrased(Some("What about that?".to_string())));
    assert!(matches!(action, FlowAction::Blueprint { ref prompt, faq: None } if prompt == "What about that?"));
    let (_, action) = flow.on_event(FlowEvent::BlueprintMade(None));
    match action {
        FlowAction::Fail { message, history } => {
            assert_eq!(message, "Blueprint was not created");
            assert_eq!(history.len(), 7);
            assert_eq!(history[6].content, Some("and that?".to_string()));
        }
        other => panic!("unexpected {:?}", other),
    }

    let (flow, _) = begin(vec![], "Q", true);
    let (flow, _) = flow.on_event(FlowEvent::FaqReply(Some("FAQ says".to_string())));
    let (flow, action) = flow.on_event(FlowEvent::Assessed(true));
    assert!(matches!(action, FlowAction::Blueprint { faq: Some(ref f), .. } if f == "FAQ says"));
    let (_, action) = flow.on_event(FlowEvent::BlueprintMade(Some("b".to_string())));
    assert!(matches!(action, FlowAction::Answer { ref tool_messages, .. } if tool_messages.len() == 1));
}

#[test]
fn answer_is_recorded_in_the_display_conversation() {
    let shown = vec![msg(ChatRole::User, Some("hi"), None), msg(ChatRole::Assistant, Some("hello"), None)];
    let (d, done) = record_answer(shown, "Who?".to_string(), msg(ChatRole::Assistant, Some("Her."), None));
    assert_eq!(d.len(), 4);
    assert_eq!(d[2].role, ChatRole::User);
    assert_eq!(d[2].content, Some("Who?".to_string()));
    assert_eq!(d[3].content, Some("Her.".to_string()));
    assert_eq!(done, Some("Her.".to_string()));
}

#[test]
fn answer_with_tools_restates_then_calls_the_needed_tools() {
    let shown = vec![msg(ChatRole::User, Some("hi"), None)];
    let (flow, action) = UrskaFlow::start(shown, &history(), "and him?".to_string());
    assert!(matches!(action, UrskaAction::Notify(ref t) if t == "Preparing..."));
    let (flow, action) = flow.on_event(UrskaEvent::Notified);
    assert!(matches!(action, UrskaAction::Rephrase { ref prompt, .. } if prompt == "and him?"));
    let (flow, action) = flow.on_event(UrskaEvent::Rephrased(Some("Who is John?".to_string())));
    assert!(matches!(action, UrskaAction::FilterTools { ref note, ref prompt } if note == "Searching for tools..." && prompt == "Who is John?"));
    let verdicts = vec![("get_staff_profiles".to_string(), true), ("query_memory".to_string(), false), ("other".to_string(), true)];
    let (flow, action) = flow.on_event(UrskaEvent::Filtered(verdicts));
    match action {
        UrskaAction::CallTools { notes, calls } => {
            assert_eq!(notes, vec!["Checking for information with get_staff_profiles...".to_string()]);
            assert_eq!(calls, vec![("get_staff_profiles".to_string(), ToolArguments::NameAndCount { name: "Who is John?".into(), k: 1 })]);
        }
        other => panic!("unexpected {:?}", other),
    }
    let (flow, action) = flow.on_event(UrskaEvent::ToolsDone(vec![Some("John is a lecturer".to_string())]));
    match action {
        UrskaAction::Answer { notes, context, prompt } => {
            assert_eq!(notes, vec!["Checking tool retults...".to_string()]);
            assert_eq!(context, "# Tool resulted in:\n\nJohn is a lecturer");
            assert_eq!(prompt, "Who is John?");
        }
        other => panic!("unexpected {:?}", other),
    }
    let (flow, action) = flow.on_event(UrskaEvent::Answered(msg(ChatRole::Assistant, Some("A lecturer."), None)));
    assert_eq!(flow.stage, UrskaStage::Done);
    match action {
        UrskaAction::Finish { display, done } => {
            assert_eq!(display.len(), 3);
            assert_eq!(display[1].content, Some("and him?".to_string()));
            assert_eq!(display[2].content, Some("A lecturer.".to_string()));
            assert_eq!(done, Some("A lecturer.".to_string()));
        }
        other => panic!("unexpected {:?}", other),
    }
}

#[test]
fn short_conversation_goes_straight_to_the_tools() {
    let (flow, _) = UrskaFlow::start(vec![], &vec![msg(ChatRole::System, Some("s"), None)], "Q".to_string());
    let (_, action) = flow.on_event(UrskaEvent::Notified);
    assert!(matches!(action, UrskaAction::FilterTools { ref prompt, .. } if prompt == "Q"));
}

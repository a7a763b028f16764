//! Conversations with the assistant: summaries of a history for the model,
//! the report of executed plan steps, and the arguments and context of the
//! tools the assistant consults.

use vstd::prelude::*;
use crate::text::{chars_of, decimal, join, join_with, push_all, push_str, string_from, to_decimal, trim, trimmed, views};

verus! {

/// A question put to the assistant's tool.
#[derive(Debug, Clone)]
pub struct StructRequest {
    pub question: String,
}

/// A plan: sequences of steps, each sequence run by one executor in order.
#[derive(Debug, Clone)]
pub struct Plan {
    pub steps: Vec<Vec<String>>,
}

/// Whether the frequently asked questions already answer the prompt.
#[derive(Debug, Clone, Copy)]
pub struct Answerable {
    pub can_respond: bool,
}

/// A progress note shown to the user while the assistant works.
#[derive(Debug, Clone)]
pub struct UrskaNotification {
    pub message: String,
}

/// Who wrote a message.
#[derive(Debug, Clone, Copy, PartialEq, Eq, Structural)]
pub enum ChatRole {
    System,
    User,
    Assistant,
    Tool,
    Developer,
}

/// A message of a conversation.
#[derive(Debug, Clone)]
pub struct ChatMessage {
    pub role: ChatRole,
    pub content: Option<String>,
    /// For a tool's message: the call it answers.
    pub tool_call_id: Option<String>,
}

/// How `{:?}` writes a string: quoted, with special characters escaped.
pub uninterp spec fn debug_str(s: Seq<char>) -> Seq<char>;

/// Formats a string with `<str as Debug>::fmt`; the result is named by `debug_str`.
#[verifier::external_body]
fn debug_quoted(s: &str) -> (r: String)
    ensures
        r@ == debug_str(s@),
{
    format!("{:?}", s)
}

/// A message's text, or the empty text.
pub open spec fn content_of(m: ChatMessage) -> Seq<char> {
    match m.content {
        Some(c) => c@,
        None => Seq::empty(),
    }
}

/// The line a message adds to a summary; system and developer messages add none.
pub open spec fn summary_line(m: ChatMessage) -> Seq<char> {
    match m.role {
        ChatRole::User => "USER ASKED: "@ + content_of(m) + "\n\n"@,
        ChatRole::Assistant => "ASSISTANT: "@ + content_of(m) + "\n\n"@,
        ChatRole::Tool => "TOOL `"@ + debug_str(match m.tool_call_id {
            Some(t) => t@,
            None => "unknown_tool"@,
        }) + "` RETURNED:\n"@ + content_of(m) + "\n\n"@,
        _ => Seq::empty(),
    }
}

/// The lines of the messages, in order.
pub open spec fn summary_lines(ms: Seq<ChatMessage>) -> Seq<char>
    decreases ms.len(),
{
    if ms.len() == 0 {
        Seq::empty()
    } else {
        summary_lines(ms.drop_last()) + summary_line(ms.last())
    }
}

/// A conversation summary: the messages after the first `skip` ones.
pub open spec fn summary(ms: Seq<ChatMessage>, skip: nat) -> Seq<char> {
    "Here is a summary of a conversation."@ + summary_lines(if skip < ms.len() {
        ms.skip(skip as int)
    } else {
        Seq::empty()
    }) + "---\nEnd of conversation summary."@
}

fn write_line(out: &mut Vec<char>, m: &ChatMessage)
    ensures
        final(out)@ == old(out)@ + summary_line(*m),
{
    let content = match &m.content {
        Some(c) => chars_of(c.as_str()),
        None => Vec::new(),
    };
    match m.role {
        ChatRole::User => {
            push_str(out, "USER ASKED: ");
            push_all(out, content.as_slice());
            push_str(out, "\n\n");
        },
        ChatRole::Assistant => {
            push_str(out, "ASSISTANT: ");
            push_all(out, content.as_slice());
            push_str(out, "\n\n");
        },
        ChatRole::Tool => {
            let name = match &m.tool_call_id {
                Some(t) => debug_quoted(t.as_str()),
                None => debug_quoted("unknown_tool"),
            };
            push_str(out, "TOOL `");
            push_str(out, name.as_str());
            push_str(out, "` RETURNED:\n");
            push_all(out, content.as_slice());
            push_str(out, "\n\n");
        },
        _ => {},
    }
}

fn summary_after(history: &Vec<ChatMessage>, skip: usize) -> (r: String)
    ensures
        r@ == summary(history@, skip as nat),
{
    let mut out: Vec<char> = Vec::new();
    push_str(&mut out, "Here is a summary of a conversation.");
    let ghost head = out@;
    let ghost rest = if skip < history.len() { history@.skip(skip as int) } else { Seq::<ChatMessage>::empty() };
    let mut i: usize = if skip < history.len() { skip } else { history.len() };
    let start = i;
    proof {
        assert(rest.take(0) =~= Seq::<ChatMessage>::empty());
    }
    while i < history.len()
        invariant
            start <= i <= history.len(),
            rest.len() == history.len() - start,
            forall|j: int| 0 <= j < rest.len() ==> rest[j] == history@[start + j],
            out@ == head + summary_lines(rest.take(i - start)),
        decreases history.len() - i,
    {
        proof {
            assert(rest.take(i - start + 1).drop_last() =~= rest.take(i - start));
            assert(rest.take(i - start + 1).last() == history@[i as int]);
        }
        write_line(&mut out, &history[i]);
        i = i + 1;
    }
    proof {
        assert(rest.take(i - start) =~= rest);
    }
    push_str(&mut out, "---\nEnd of conversation summary.");
    string_from(out.as_slice())
}

/// The history as a summary for the model, after the system prompt.
pub fn history_to_prompt(history: &Vec<ChatMessage>) -> (r: String)
    ensures
        r@ == summary(history@, 1),
{
    summary_after(history, 1)
}

/// The history as a summary for the memory agent, after the system prompt
/// and the first memory reply.
pub fn history_to_memory_prompt(history: Vec<ChatMessage>) -> (r: String)
    ensures
        r@ == summary(history@, 2),
{
    summary_after(&history, 2)
}

/* ------------------------------------------------------------------ */
/*  Executed plan steps                                                 */
/* ------------------------------------------------------------------ */

/// The report of one executed step, numbered from 1.
pub open spec fn step_block(i: nat, task: Seq<char>, response: Seq<char>) -> Seq<char> {
    "### Step "@ + decimal(i + 1) + "\nUser Instruction:\n"@ + trim(task) + "\n\nExecutor Response:\n"@
        + trim(response) + "\n "@
}

/// The reports of the steps, in order.
pub open spec fn step_blocks(steps: Seq<(String, String)>) -> Seq<Seq<char>> {
    Seq::new(steps.len(), |i: int| step_block(i as nat, steps[i].0@, steps[i].1@))
}

/// The executed steps as one text for the final answer: the step reports
/// separated by rules.
pub fn aggregate_steps(steps: &Vec<(String, String)>) -> (r: String)
    requires
        steps.len() < u64::MAX,
    ensures
        r@ == join(step_blocks(steps@), "\n\n---\n\n"@),
{
    let mut blocks: Vec<Vec<char>> = Vec::new();
    let mut i: usize = 0;
    while i < steps.len()
        invariant
            i <= steps.len() < u64::MAX,
            views(blocks@) == step_blocks(steps@).take(i as int),
        decreases steps.len() - i,
    {
        let mut b: Vec<char> = Vec::new();
        push_str(&mut b, "### Step ");
        let n = to_decimal((i as u64) + 1);
        push_all(&mut b, n.as_slice());
        push_str(&mut b, "\nUser Instruction:\n");
        let t = trimmed(&chars_of(steps[i].0.as_str()));
        push_all(&mut b, t.as_slice());
        push_str(&mut b, "\n\nExecutor Response:\n");
        let s = trimmed(&chars_of(steps[i].1.as_str()));
        push_all(&mut b, s.as_slice());
        push_str(&mut b, "\n ");
        let ghost before = blocks@;
        blocks.push(b);
        proof {
            assert(b@ == step_block(i as nat, steps@[i as int].0@, steps@[i as int].1@));
            assert(views(blocks@) =~= views(before).push(b@));
            assert(step_blocks(steps@).take(i + 1) =~= step_blocks(steps@).take(i as int).push(b@));
        }
        i = i + 1;
    }
    proof {
        assert(step_blocks(steps@).take(steps.len() as int) =~= step_blocks(steps@));
    }
    let j = join_with(&blocks, chars_of("\n\n---\n\n").as_slice());
    string_from(j.as_slice())
}

/* ------------------------------------------------------------------ */
/*  Tools consulted for a question                                      */
/* ------------------------------------------------------------------ */

/// The arguments the assistant passes to a tool, as named fields.
#[derive(Debug, Clone, PartialEq, Eq)]
pub enum ToolArguments {
    /// `{"name": .., "k": ..}`
    NameAndCount { name: String, k: u64 },
    /// `{"name": .., "level": ..}`
    NameAndLevel { name: String, level: String },
    /// `{"level": ..}`
    Level { level: String },
    /// `{"query_text": .., "top_k": ..}`
    QueryAndTopK { query_text: String, top_k: u64 },
    /// `{"question": .., "k": ..}`
    QuestionAndCount { question: String, k: u64 },
}

/// Tool arguments as values.
pub enum ArgsView {
    NameAndCount(Seq<char>, nat),
    NameAndLevel(Seq<char>, Seq<char>),
    Level(Seq<char>),
    QueryAndTopK(Seq<char>, nat),
    QuestionAndCount(Seq<char>, nat),
}

/// The arguments as values.
pub open spec fn args_view(a: ToolArguments) -> ArgsView {
    match a {
        ToolArguments::NameAndCount { name, k } => ArgsView::NameAndCount(name@, k as nat),
        ToolArguments::NameAndLevel { name, level } => ArgsView::NameAndLevel(name@, level@),
        ToolArguments::Level { level } => ArgsView::Level(level@),
        ToolArguments::QueryAndTopK { query_text, top_k } => ArgsView::QueryAndTopK(query_text@, top_k as nat),
        ToolArguments::QuestionAndCount { question, k } => ArgsView::QuestionAndCount(question@, k as nat),
    }
}

/// What the assistant asks a tool for a question: the staff directory for
/// one person, the programme information at any level, the programme list,
/// ten memories, or seven passages from each document collection; nothing
/// for another tool.
pub open spec fn arguments_for(tool: Seq<char>, prompt: Seq<char>) -> Option<ArgsView> {
    if tool == "get_staff_profiles"@ {
        Some(ArgsView::NameAndCount(prompt, 1))
    } else if tool == "get_programme_info"@ {
        Some(ArgsView::NameAndLevel(prompt, "any"@))
    } else if tool == "list_all_programmes"@ {
        Some(ArgsView::Level("any"@))
    } else if tool == "query_memory"@ {
        Some(ArgsView::QueryAndTopK(prompt, 10))
    } else if tool == "ask_about_general_information"@ || tool == "ask_about_rules_and_acts"@
        || tool == "retrieve_similar_FAQ"@ {
        Some(ArgsView::QuestionAndCount(prompt, 7))
    } else {
        None
    }
}

fn is_tool(t: &Vec<char>, name: &str) -> (b: bool)
    ensures
        b == (t@ == name@),
{
    crate::text::same_chars(t, &chars_of(name))
}

/// The arguments for a tool the assistant consults about `prompt`.
pub fn tool_arguments(tool_name: &str, prompt: &str) -> (r: Option<ToolArguments>)
    ensures
        match r {
            Some(a) => arguments_for(tool_name@, prompt@) == Some(args_view(a)),
            None => arguments_for(tool_name@, prompt@) is None,
        },
{
    let t = chars_of(tool_name);
    let p = String::from_str(prompt);
    if is_tool(&t, "get_staff_profiles") {
        Some(ToolArguments::NameAndCount { name: p, k: 1 })
    } else if is_tool(&t, "get_programme_info") {
        Some(ToolArguments::NameAndLevel { name: p, level: String::from_str("any") })
    } else if is_tool(&t, "list_all_programmes") {
        Some(ToolArguments::Level { level: String::from_str("any") })
    } else if is_tool(&t, "query_memory") {
        Some(ToolArguments::QueryAndTopK { query_text: p, top_k: 10 })
    } else if is_tool(&t, "ask_about_general_information") || is_tool(&t, "ask_about_rules_and_acts")
        || is_tool(&t, "retrieve_similar_FAQ") {
        Some(ToolArguments::QuestionAndCount { question: p, k: 7 })
    } else {
        None
    }
}

/// The calls to make: for each tool the filter found required and that has
/// arguments for the prompt, in order, the tool and its arguments.
pub open spec fn calls_for(verdicts: Seq<(String, bool)>, prompt: Seq<char>) -> Seq<(Seq<char>, ArgsView)>
    decreases verdicts.len(),
{
    if verdicts.len() == 0 {
        Seq::empty()
    } else {
        let r = calls_for(verdicts.drop_last(), prompt);
        let (name, required) = verdicts.last();
        if required && arguments_for(name@, prompt) is Some {
            r.push((name@, arguments_for(name@, prompt)->0))
        } else {
            r
        }
    }
}

/// The tool calls for a prompt, given the filter's verdict on each tool.
pub fn tool_calls_for(verdicts: &Vec<(String, bool)>, prompt: &str) -> (r: Vec<(String, ToolArguments)>)
    ensures
        r@.map_values(|c: (String, ToolArguments)| (c.0@, args_view(c.1))) == calls_for(verdicts@, prompt@),
{
    let mut r: Vec<(String, ToolArguments)> = Vec::new();
    let mut i: usize = 0;
    proof {
        assert(verdicts@.take(0) =~= Seq::<(String, bool)>::empty());
        assert(r@.map_values(|c: (String, ToolArguments)| (c.0@, args_view(c.1))) =~= Seq::<(Seq<char>, ArgsView)>::empty());
    }
    while i < verdicts.len()
        invariant
            i <= verdicts.len(),
            r@.map_values(|c: (String, ToolArguments)| (c.0@, args_view(c.1))) == calls_for(verdicts@.take(i as int), prompt@),
        decreases verdicts.len() - i,
    {
        proof {
            assert(verdicts@.take(i + 1).drop_last() =~= verdicts@.take(i as int));
            assert(verdicts@.take(i + 1).last() == verdicts@[i as int]);
        }
        if verdicts[i].1 {
            match tool_arguments(verdicts[i].0.as_str(), prompt) {
                Some(a) => {
                    let ghost before = r@;
                    let ghost av = args_view(a);
                    let name = verdicts[i].0.clone();
                    r.push((name, a));
                    proof {
                        assert(r@.map_values(|c: (String, ToolArguments)| (c.0@, args_view(c.1)))
                            =~= before.map_values(|c: (String, ToolArguments)| (c.0@, args_view(c.1))).push((verdicts@[i as int].0@, av)));
                    }
                },
                None => {},
            }
        }
        i = i + 1;
    }
    proof {
        assert(verdicts@.take(verdicts.len() as int) =~= verdicts@);
    }
    r
}

/// The context the tools' replies give: each reply under a heading,
/// separated by rules.
pub open spec fn tool_context(replies: Seq<Option<String>>) -> Seq<char> {
    join(Seq::new(replies.len(), |i: int| "# Tool resulted in:\n\n"@ + match replies[i] {
        Some(c) => c@,
        None => Seq::<char>::empty(),
    }), "\n\n---\n\n"@)
}

/// Joins the tools' replies into the context of the final prompt.
pub fn context_from_replies(replies: &Vec<Option<String>>) -> (r: String)
    ensures
        r@ == tool_context(replies@),
{
    let ghost parts_spec = Seq::new(replies@.len(), |i: int| "# Tool resulted in:\n\n"@ + match replies@[i] {
        Some(c) => c@,
        None => Seq::<char>::empty(),
    });
    let mut parts: Vec<Vec<char>> = Vec::new();
    let mut i: usize = 0;
    while i < replies.len()
        invariant
            i <= replies.len(),
            parts_spec.len() == replies@.len(),
            forall|j: int| 0 <= j < parts_spec.len() ==> #[trigger] parts_spec[j] == "# Tool resulted in:\n\n"@ + match replies@[j] {
                Some(c) => c@,
                None => Seq::<char>::empty(),
            },
            views(parts@) == parts_spec.take(i as int),
        decreases replies.len() - i,
    {
        let mut b: Vec<char> = Vec::new();
        push_str(&mut b, "# Tool resulted in:\n\n");
        match &replies[i] {
            Some(c) => push_str(&mut b, c.as_str()),
            None => {},
        }
        let ghost before = parts@;
        proof {
            assert(b@ =~= parts_spec[i as int]);
        }
        parts.push(b);
        proof {
            assert(views(parts@) =~= views(before).push(b@));
            assert(parts_spec.take(i + 1) =~= parts_spec.take(i as int).push(b@));
        }
        i = i + 1;
    }
    proof {
        assert(parts_spec.take(replies.len() as int) =~= parts_spec);
    }
    let j = join_with(&parts, chars_of("\n\n---\n\n").as_slice());
    string_from(j.as_slice())
}

/* ------------------------------------------------------------------ */
/*  Answering by plan                                                   */
/* ------------------------------------------------------------------ */

/// Where an answer by plan stands.
#[derive(Debug, Clone, Copy, PartialEq, Eq, Structural)]
pub enum FlowStage {
    Preparing,
    AwaitRephrase,
    AwaitFaq,
    AwaitAssessment,
    AwaitBlueprint,
    AwaitSteps,
    AwaitAnswer,
    Done,
}

/// An answer by plan in progress: the conversation with the user's prompt
/// added, the prompt as it stands (possibly restated), the answer of the
/// frequently asked questions when they suffice, and the tool messages
/// gathered for the final answer (content and call id).
#[derive(Debug)]
pub struct PlanFlow {
    pub stage: FlowStage,
    pub history: Vec<ChatMessage>,
    pub prompt: String,
    pub has_faq_tool: bool,
    pub faq_reply: Option<String>,
    pub faq: Option<String>,
    pub tool_messages: Vec<(String, String)>,
}

/// What the assistant does next.
#[derive(Debug)]
pub enum FlowAction {
    /// Show the user this progress note.
    Notify(String),
    /// Show the user `note`, then restate the prompt in the light of the
    /// conversation summary.
    Rephrase { note: String, history: String, prompt: String },
    /// Show the user `note`, then ask the FAQ tool for the ten most similar questions.
    CheckFaq { note: String, question: String, k: u64 },
    /// Show the user the FAQ reply as the tool's result, then ask whether it
    /// answers the prompt.
    AssessFaq { prompt: String, faq: String },
    /// Sketch how to answer, knowing the FAQ answer if it suffices.
    Blueprint { prompt: String, faq: Option<String> },
    /// Show the user `note`, make a plan from the sketch, show `running_note`,
    /// then run the plan's steps, showing each step as it starts.
    PlanAndRun { note: String, running_note: String, blueprint: String },
    /// Ask the model for the answer, with the system prompt, the tool
    /// messages and the prompt as its only conversation.
    Answer { tool_messages: Vec<(String, String)>, prompt: String },
    /// Keep `history` as the conversation, tell the user the answer is done
    /// with the text `done`, and give the last message of `history` as the answer.
    Finish { history: Vec<ChatMessage>, done: Option<String> },
    /// Keep `history` as the conversation and stop with the error `message`.
    Fail { message: String, history: Vec<ChatMessage> },
}

/// What came back from the last action.
#[derive(Debug)]
pub enum FlowEvent {
    /// The progress note was shown.
    Notified,
    Rephrased(Option<String>),
    /// The FAQ tool's reply, or `None` when the call failed.
    FaqReply(Option<String>),
    Assessed(bool),
    BlueprintMade(Option<String>),
    /// The executed steps: instruction and response of each.
    StepsDone(Vec<(String, String)>),
    /// The model's answer.
    Answered(ChatMessage),
}

/// The stage an event answers.
pub open spec fn answers(stage: FlowStage, ev: FlowEvent) -> bool {
    match ev {
        FlowEvent::Notified => stage == FlowStage::Preparing,
        FlowEvent::Rephrased(_) => stage == FlowStage::AwaitRephrase,
        FlowEvent::FaqReply(_) => stage == FlowStage::AwaitFaq,
        FlowEvent::Assessed(_) => stage == FlowStage::AwaitAssessment,
        FlowEvent::BlueprintMade(_) => stage == FlowStage::AwaitBlueprint,
        FlowEvent::StepsDone(_) => stage == FlowStage::AwaitSteps,
        FlowEvent::Answered(_) => stage == FlowStage::AwaitAnswer,
    }
}

/// The reply used when the FAQ tool fails.
pub open spec fn no_faq_reply() -> Seq<char> {
    "No similar FAQ found"@
}

/// The note shown while the FAQ is consulted.
pub open spec fn faq_note() -> Seq<char> {
    "Checking for quick response..."@
}

/// `m` is the user's message `p`.
pub open spec fn is_user_message(m: ChatMessage, p: Seq<char>) -> bool {
    &&& m.role == ChatRole::User
    &&& m.content matches Some(c) && c@ == p
    &&& m.tool_call_id is None
}

/// The text of the closing notification: the answer's content.
pub open spec fn done_text(done: Option<String>, m: ChatMessage) -> bool {
    match done {
        Some(d) => m.content matches Some(c) && d@ == c@,
        None => m.content is None,
    }
}

impl PlanFlow {
    /// Whether `ev` answers the action the flow is waiting on.
    pub fn expects(&self, ev: &FlowEvent) -> (b: bool)
        ensures
            b == answers(self.stage, *ev),
    {
        match ev {
            FlowEvent::Notified => self.stage == FlowStage::Preparing,
            FlowEvent::Rephrased(_) => self.stage == FlowStage::AwaitRephrase,
            FlowEvent::FaqReply(_) => self.stage == FlowStage::AwaitFaq,
            FlowEvent::Assessed(_) => self.stage == FlowStage::AwaitAssessment,
            FlowEvent::BlueprintMade(_) => self.stage == FlowStage::AwaitBlueprint,
            FlowEvent::StepsDone(_) => self.stage == FlowStage::AwaitSteps,
            FlowEvent::Answered(_) => self.stage == FlowStage::AwaitAnswer,
        }
    }

    fn after_prompt(self) -> (r: (PlanFlow, FlowAction))
        ensures
            r.0.history == self.history,
            r.0.prompt == self.prompt,
            r.0.has_faq_tool == self.has_faq_tool,
            r.0.tool_messages == self.tool_messages,
            r.0.faq == self.faq,
            self.has_faq_tool ==> r.0.stage == FlowStage::AwaitFaq
                && (r.1 matches FlowAction::CheckFaq { note, question, k } && question == self.prompt && k == 10
                    && note@ == faq_note()),
            !self.has_faq_tool ==> r.0.stage == FlowStage::AwaitBlueprint
                && (r.1 matches FlowAction::Blueprint { prompt, faq } && prompt == self.prompt && faq == self.faq),
    {
        if self.has_faq_tool {
            let q = self.prompt.clone();
            (PlanFlow { stage: FlowStage::AwaitFaq, ..self }, FlowAction::CheckFaq {
                note: String::from_str("Checking for quick response..."),
                question: q,
                k: 10,
            })
        } else {
            let p = self.prompt.clone();
            let f = self.faq.clone();
            (PlanFlow { stage: FlowStage::AwaitBlueprint, ..self }, FlowAction::Blueprint { prompt: p, faq: f })
        }
    }

    /// Starts answering `prompt` in the conversation `history`: the prompt
    /// joins the conversation as the user's message, and the user is first
    /// told that the answer is being prepared.
    pub fn start(history: Vec<ChatMessage>, prompt: String, has_faq_tool: bool) -> (r: (PlanFlow, FlowAction))
        ensures
            r.0.stage == FlowStage::Preparing,
            r.0.history@ == history@.push(r.0.history@.last()),
            is_user_message(r.0.history@.last(), prompt@),
            r.0.prompt == prompt,
            r.0.has_faq_tool == has_faq_tool,
            r.0.faq_reply is None,
            r.0.faq is None,
            r.0.tool_messages@.len() == 0,
            r.1 matches FlowAction::Notify(t) && t@ == "Preparing..."@,
    {
        let mut history = history;
        history.push(ChatMessage { role: ChatRole::User, content: Some(prompt.clone()), tool_call_id: None });
        let flow = PlanFlow {
            stage: FlowStage::Preparing,
            history,
            prompt,
            has_faq_tool,
            faq_reply: None,
            faq: None,
            tool_messages: Vec::new(),
        };
        (flow, FlowAction::Notify(String::from_str("Preparing...")))
    }

    /// Takes the result of the last action and gives the next one. Once the
    /// user has been told, a conversation longer than the system prompt and
    /// the user's prompt is first summarised for a restatement of the prompt;
    /// then the FAQ tool is consulted if there is one; otherwise the answer
    /// is sketched. The conversation keeps the user's prompt as given and
    /// gains only the final answer; the flow's own messages are not kept.
    pub fn on_event(self, ev: FlowEvent) -> (r: (PlanFlow, FlowAction))
        requires
            answers(self.stage, ev),
        ensures
            match ev {
                FlowEvent::Notified => {
                    &&& r.0.history == self.history
                    &&& r.0.prompt == self.prompt
                    &&& self.history.len() > 2 ==> r.0.stage == FlowStage::AwaitRephrase
                        && (r.1 matches FlowAction::Rephrase { note, history: h, prompt: p }
                            && h@ == summary(self.history@, 1) && p == self.prompt && note@ == "Assessing query..."@)
                    &&& self.history.len() <= 2 && self.has_faq_tool ==> r.0.stage == FlowStage::AwaitFaq
                        && (r.1 matches FlowAction::CheckFaq { note, question, k } && question == self.prompt && k == 10
                            && note@ == faq_note())
                    &&& self.history.len() <= 2 && !self.has_faq_tool ==> r.0.stage == FlowStage::AwaitBlueprint
                        && (r.1 matches FlowAction::Blueprint { prompt: p, faq } && p == self.prompt && faq == self.faq)
                },
                FlowEvent::Rephrased(c) => {
                    let p = match c {
                        Some(t) => t,
                        None => self.prompt,
                    };
                    &&& r.0.history == self.history
                    &&& r.0.prompt == p
                    &&& self.has_faq_tool ==> r.0.stage == FlowStage::AwaitFaq
                        && (r.1 matches FlowAction::CheckFaq { note, question, k } && question == p && k == 10
                            && note@ == faq_note())
                    &&& !self.has_faq_tool ==> r.0.stage == FlowStage::AwaitBlueprint
                        && (r.1 matches FlowAction::Blueprint { prompt, faq } && prompt == p && faq == self.faq)
                },
                FlowEvent::FaqReply(reply) => {
                    let f = match reply {
                        Some(t) => t@,
                        None => no_faq_reply(),
                    };
                    &&& r.0.history == self.history
                    &&& r.0.stage == FlowStage::AwaitAssessment
                    &&& (r.0.faq_reply matches Some(t) && t@ == f)
                    &&& (r.1 matches FlowAction::AssessFaq { prompt, faq } && prompt == self.prompt && faq@ == f)
                    &&& r.0.tool_messages@.len() == self.tool_messages@.len() + 1
                    &&& r.0.tool_messages@.last().0@ == f && r.0.tool_messages@.last().1@ == "1"@
                },
                FlowEvent::Assessed(ok) => {
                    &&& r.0.history == self.history
                    &&& r.0.stage == FlowStage::AwaitBlueprint
                    &&& (ok ==> r.0.faq == self.faq_reply)
                    &&& (!ok ==> r.0.faq is None)
                    &&& (r.1 matches FlowAction::Blueprint { prompt, faq } && prompt == self.prompt && faq == r.0.faq)
                },
                FlowEvent::BlueprintMade(b) => match b {
                    None => r.0.stage == FlowStage::Done
                        && (r.1 matches FlowAction::Fail { message, history }
                            && message@ == "Blueprint was not created"@ && history == self.history),
                    Some(bp) => r.0.history == self.history && if self.faq is None {
                        r.0.stage == FlowStage::AwaitSteps
                            && (r.1 matches FlowAction::PlanAndRun { note, running_note, blueprint } && blueprint == bp
                                && note@ == "Thinking how to find the requested information..."@
                                && running_note@ == "Constructing answer..."@)
                    } else {
                        r.0.stage == FlowStage::AwaitAnswer
                            && (r.1 matches FlowAction::Answer { tool_messages, prompt }
                                && tool_messages@ == self.tool_messages@ && prompt == self.prompt)
                    },
                },
                FlowEvent::StepsDone(steps) => steps.len() < u64::MAX ==> {
                    &&& r.0.history == self.history
                    &&& r.0.stage == FlowStage::AwaitAnswer
                    &&& (r.1 matches FlowAction::Answer { tool_messages, prompt }
                        && prompt == self.prompt
                        && tool_messages@.len() == self.tool_messages@.len() + 1
                        && tool_messages@.last().0@ == join(step_blocks(steps@), "\n\n---\n\n"@)
                        && tool_messages@.last().1@ == "0"@)
                },
                FlowEvent::Answered(m) => r.0.stage == FlowStage::Done
                    && (r.1 matches FlowAction::Finish { history, done }
                        && history@ == self.history@.push(m) && done_text(done, m)),
            },
    {
        match ev {
            FlowEvent::Notified => {
                if self.history.len() > 2 {
                    let h = history_to_prompt(&self.history);
                    let p = self.prompt.clone();
                    (PlanFlow { stage: FlowStage::AwaitRephrase, ..self }, FlowAction::Rephrase {
                        note: String::from_str("Assessing query..."),
                        history: h,
                        prompt: p,
                    })
                } else {
                    self.after_prompt()
                }
            },
            FlowEvent::Rephrased(c) => {
                let p = match c {
                    Some(t) => t,
                    None => self.prompt,
                };
                let flow = PlanFlow { prompt: p, ..self };
                flow.after_prompt()
            },
            FlowEvent::FaqReply(reply) => {
                let f = match reply {
                    Some(t) => t,
                    None => String::from_str("No similar FAQ found"),
                };
                let mut msgs = self.tool_messages;
                msgs.push((f.clone(), String::from_str("1")));
                let p = self.prompt.clone();
                let f2 = f.clone();
                (
                    PlanFlow { stage: FlowStage::AwaitAssessment, faq_reply: Some(f), tool_messages: msgs, ..self },
                    FlowAction::AssessFaq { prompt: p, faq: f2 },
                )
            },
            FlowEvent::Assessed(ok) => {
                let faq = if ok { self.faq_reply.clone() } else { None };
                let p = self.prompt.clone();
                let f = faq.clone();
                (PlanFlow { stage: FlowStage::AwaitBlueprint, faq, ..self }, FlowAction::Blueprint { prompt: p, faq: f })
            },
            FlowEvent::BlueprintMade(b) => match b {
                None => {
                    let PlanFlow { stage: _, history, prompt, has_faq_tool, faq_reply, faq, tool_messages } = self;
                    (
                        PlanFlow { stage: FlowStage::Done, history: Vec::new(), prompt, has_faq_tool, faq_reply, faq, tool_messages },
                        FlowAction::Fail { message: String::from_str("Blueprint was not created"), history },
                    )
                },
                Some(bp) => if self.faq.is_none() {
                    (PlanFlow { stage: FlowStage::AwaitSteps, ..self }, FlowAction::PlanAndRun {
                        note: String::from_str("Thinking how to find the requested information..."),
                        running_note: String::from_str("Constructing answer..."),
                        blueprint: bp,
                    })
                } else {
                    let msgs = copy_messages(&self.tool_messages);
                    let p = self.prompt.clone();
                    (PlanFlow { stage: FlowStage::AwaitAnswer, ..self }, FlowAction::Answer { tool_messages: msgs, prompt: p })
                },
            },
            FlowEvent::StepsDone(steps) => {
                if steps.len() as u64 == u64::MAX {
                    let PlanFlow { stage: _, history, prompt, has_faq_tool, faq_reply, faq, tool_messages } = self;
                    return (
                        PlanFlow { stage: FlowStage::Done, history: Vec::new(), prompt, has_faq_tool, faq_reply, faq, tool_messages },
                        FlowAction::Fail { message: String::new(), history },
                    );
                }
                let agg = aggregate_steps(&steps);
                let mut msgs = copy_messages(&self.tool_messages);
                msgs.push((agg, String::from_str("0")));
                let p = self.prompt.clone();
                (PlanFlow { stage: FlowStage::AwaitAnswer, ..self }, FlowAction::Answer { tool_messages: msgs, prompt: p })
            },
            FlowEvent::Answered(m) => {
                let done = match &m.content {
                    Some(c) => Some(c.clone()),
                    None => None,
                };
                let PlanFlow { stage: _, history, prompt, has_faq_tool, faq_reply, faq, tool_messages } = self;
                let mut history = history;
                history.push(m);
                (
                    PlanFlow { stage: FlowStage::Done, history: Vec::new(), prompt, has_faq_tool, faq_reply, faq, tool_messages },
                    FlowAction::Finish { history, done },
                )
            },
        }
    }
}

/// The conversation shown to the user once a tool-assisted answer is made:
/// the user's prompt as asked, then the answer, after what was shown before;
/// and the text of the closing notification, the answer's content.
pub fn record_answer(display: Vec<ChatMessage>, prompt: String, answer: ChatMessage) -> (r: (Vec<ChatMessage>, Option<String>))
    ensures
        r.0@.len() == display@.len() + 2,
        r.0@.take(display@.len() as int) == display@,
        is_user_message(r.0@[display@.len() as int], prompt@),
        r.0@.last() == answer,
        done_text(r.1, answer),
{
    let done = match &answer.content {
        Some(c) => Some(c.clone()),
        None => None,
    };
    let mut d = display;
    let ghost before = d@;
    d.push(ChatMessage { role: ChatRole::User, content: Some(prompt), tool_call_id: None });
    d.push(answer);
    proof {
        assert(d@.take(before.len() as int) =~= before);
    }
    (d, done)
}

/* ------------------------------------------------------------------ */
/*  Answering with the tools                                            */
/* ------------------------------------------------------------------ */

/// Where an answer with the tools stands.
#[derive(Debug, Clone, Copy, PartialEq, Eq, Structural)]
pub enum UrskaStage {
    Preparing,
    AwaitRephrase,
    AwaitFilter,
    AwaitTools,
    AwaitAnswer,
    Done,
}

/// An answer with the tools in progress: the conversation shown to the
/// user before this prompt, the prompt as the user gave it, the prompt the
/// tools are asked with (possibly restated), and the summary of the
/// conversation when it is long enough to restate the prompt.
#[derive(Debug)]
pub struct UrskaFlow {
    pub stage: UrskaStage,
    pub display: Vec<ChatMessage>,
    pub asked: String,
    pub prompt: String,
    pub summary: Option<String>,
}

/// What the assistant does next when answering with the tools.
#[derive(Debug)]
pub enum UrskaAction {
    /// Show the user this progress note.
    Notify(String),
    /// Restate the prompt in the light of the conversation summary.
    Rephrase { history: String, prompt: String },
    /// Show the user `note`, then ask the filter of each tool whether the prompt needs it.
    FilterTools { note: String, prompt: String },
    /// Make these tool calls, showing the user the matching note before each.
    CallTools { notes: Vec<String>, calls: Vec<(String, ToolArguments)> },
    /// Show the user the notes, one per tool reply, then ask the model to
    /// answer `prompt` from `context`.
    Answer { notes: Vec<String>, context: String, prompt: String },
    /// Keep `display` as the conversation shown to the user, and tell the
    /// user the answer is done with the text `done`.
    Finish { display: Vec<ChatMessage>, done: Option<String> },
}

/// What came back from the last action.
#[derive(Debug)]
pub enum UrskaEvent {
    Notified,
    Rephrased(Option<String>),
    /// The filters' verdicts that came back: each tool and whether it is needed.
    Filtered(Vec<(String, bool)>),
    /// The tools' replies, in the order of the calls.
    ToolsDone(Vec<Option<String>>),
    /// The model's answer.
    Answered(ChatMessage),
}

/// The stage an event answers.
pub open spec fn urska_answers(stage: UrskaStage, ev: UrskaEvent) -> bool {
    match ev {
        UrskaEvent::Notified => stage == UrskaStage::Preparing,
        UrskaEvent::Rephrased(_) => stage == UrskaStage::AwaitRephrase,
        UrskaEvent::Filtered(_) => stage == UrskaStage::AwaitFilter,
        UrskaEvent::ToolsDone(_) => stage == UrskaStage::AwaitTools,
        UrskaEvent::Answered(_) => stage == UrskaStage::AwaitAnswer,
    }
}

/// The note shown before a tool is called.
pub open spec fn call_note(tool: Seq<char>) -> Seq<char> {
    "Checking for information with "@ + tool + "..."@
}

/// The note shown while the tools are looked for.
pub open spec fn search_note() -> Seq<char> {
    "Searching for tools..."@
}

fn tool_search(prompt: &String) -> (r: UrskaAction)
    ensures
        r matches UrskaAction::FilterTools { note, prompt: p } && note@ == search_note() && p == *prompt,
{
    UrskaAction::FilterTools { note: String::from_str("Searching for tools..."), prompt: prompt.clone() }
}

impl UrskaFlow {
    /// Starts answering `prompt` with the tools, for a user shown `display`
    /// in a conversation `history` with the assistant: the user is first told
    /// that the answer is being prepared.
    pub fn start(display: Vec<ChatMessage>, history: &Vec<ChatMessage>, prompt: String) -> (r: (UrskaFlow, UrskaAction))
        ensures
            r.0.stage == UrskaStage::Preparing,
            r.0.display == display,
            r.0.asked == prompt,
            r.0.prompt == prompt,
            history.len() > 2 ==> (r.0.summary matches Some(h) && h@ == summary(history@, 1)),
            history.len() <= 2 ==> r.0.summary is None,
            r.1 matches UrskaAction::Notify(t) && t@ == "Preparing..."@,
    {
        let summary = if history.len() > 2 { Some(history_to_prompt(history)) } else { None };
        let asked = prompt.clone();
        (
            UrskaFlow { stage: UrskaStage::Preparing, display, asked, prompt, summary },
            UrskaAction::Notify(String::from_str("Preparing...")),
        )
    }

    /// Takes the result of the last action and gives the next one: the
    /// prompt is restated when the conversation is long, the tools the
    /// filters find needed are called with the (restated) prompt, their
    /// replies make the context of the answer, and the answer is shown after
    /// the prompt as the user gave it.
    pub fn on_event(self, ev: UrskaEvent) -> (r: (UrskaFlow, UrskaAction))
        requires
            urska_answers(self.stage, ev),
        ensures
            r.0.asked == self.asked,
            match ev {
                UrskaEvent::Notified => r.0.prompt == self.prompt && r.0.display == self.display && match self.summary {
                    Some(h) => r.0.stage == UrskaStage::AwaitRephrase
                        && (r.1 matches UrskaAction::Rephrase { history, prompt } && history == h && prompt == self.prompt),
                    None => r.0.stage == UrskaStage::AwaitFilter
                        && (r.1 matches UrskaAction::FilterTools { note, prompt } && note@ == search_note() && prompt == self.prompt),
                },
                UrskaEvent::Rephrased(c) => {
                    let p = match c {
                        Some(t) => t,
                        None => self.prompt,
                    };
                    &&& r.0.prompt == p
                    &&& r.0.display == self.display
                    &&& r.0.stage == UrskaStage::AwaitFilter
                    &&& (r.1 matches UrskaAction::FilterTools { note, prompt } && note@ == search_note() && prompt == p)
                },
                UrskaEvent::Filtered(verdicts) => r.0.prompt == self.prompt && r.0.display == self.display
                    && r.0.stage == UrskaStage::AwaitTools
                    && (r.1 matches UrskaAction::CallTools { notes, calls }
                        && calls@.map_values(|c: (String, ToolArguments)| (c.0@, args_view(c.1))) == calls_for(verdicts@, self.prompt@)
                        && notes.len() == calls.len()
                        && forall|i: int| 0 <= i < notes.len() ==> (#[trigger] notes@[i])@ == call_note(calls@[i].0@)),
                UrskaEvent::ToolsDone(replies) => r.0.prompt == self.prompt && r.0.display == self.display
                    && r.0.stage == UrskaStage::AwaitAnswer
                    && (r.1 matches UrskaAction::Answer { notes, context, prompt }
                        && context@ == tool_context(replies@) && prompt == self.prompt
                        && notes.len() == replies.len()
                        && forall|i: int| 0 <= i < notes.len() ==> (#[trigger] notes@[i])@ == "Checking tool retults..."@),
                UrskaEvent::Answered(m) => r.0.stage == UrskaStage::Done
                    && (r.1 matches UrskaAction::Finish { display, done }
                        && display@ == self.display@.push(display@[self.display@.len() as int]).push(m)
                        && is_user_message(display@[self.display@.len() as int], self.asked@)
                        && done_text(done, m)),
            },
    {
        match ev {
            UrskaEvent::Notified => {
                let UrskaFlow { stage: _, display, asked, prompt, summary } = self;
                match summary {
                    Some(h) => {
                        let p = prompt.clone();
                        (
                            UrskaFlow { stage: UrskaStage::AwaitRephrase, display, asked, prompt, summary: None },
                            UrskaAction::Rephrase { history: h, prompt: p },
                        )
                    },
                    None => {
                        let a = tool_search(&prompt);
                        (UrskaFlow { stage: UrskaStage::AwaitFilter, display, asked, prompt, summary: None }, a)
                    },
                }
            },
            UrskaEvent::Rephrased(c) => {
                let p = match c {
                    Some(t) => t,
                    None => self.prompt,
                };
                let a = tool_search(&p);
                (UrskaFlow { stage: UrskaStage::AwaitFilter, prompt: p, ..self }, a)
            },
            UrskaEvent::Filtered(verdicts) => {
                let calls = tool_calls_for(&verdicts, self.prompt.as_str());
                let mut notes: Vec<String> = Vec::new();
                let mut i: usize = 0;
                while i < calls.len()
                    invariant
                        i <= calls.len(),
                        notes.len() == i,
                        forall|j: int| 0 <= j < i ==> (#[trigger] notes@[j])@ == call_note(calls@[j].0@),
                    decreases calls.len() - i,
                {
                    let mut n: Vec<char> = Vec::new();
                    push_str(&mut n, "Checking for information with ");
                    push_str(&mut n, calls[i].0.as_str());
                    push_str(&mut n, "...");
                    notes.push(string_from(n.as_slice()));
                    i = i + 1;
                }
                (UrskaFlow { stage: UrskaStage::AwaitTools, ..self }, UrskaAction::CallTools { notes, calls })
            },
            UrskaEvent::ToolsDone(replies) => {
                let context = context_from_replies(&replies);
                let mut notes: Vec<String> = Vec::new();
                let mut i: usize = 0;
                while i < replies.len()
                    invariant
                        i <= replies.len(),
                        notes.len() == i,
                        forall|j: int| 0 <= j < i ==> (#[trigger] notes@[j])@ == "Checking tool retults..."@,
                    decreases replies.len() - i,
                {
                    notes.push(String::from_str("Checking tool retults..."));
                    i = i + 1;
                }
                let p = self.prompt.clone();
                (UrskaFlow { stage: UrskaStage::AwaitAnswer, ..self }, UrskaAction::Answer { notes, context, prompt: p })
            },
            UrskaEvent::Answered(m) => {
                let UrskaFlow { stage: _, display, asked, prompt, summary } = self;
                let a2 = asked.clone();
                let ghost d0 = display@;
                let (shown, done) = record_answer(display, a2, m);
                proof {
                    assert(shown@.take(d0.len() as int) == d0);
                    assert(shown@ =~= d0.push(shown@[d0.len() as int]).push(shown@.last()));
                }
                (
                    UrskaFlow { stage: UrskaStage::Done, display: Vec::new(), asked, prompt, summary },
                    UrskaAction::Finish { display: shown, done },
                )
            },
        }
    }
}

fn copy_messages(v: &Vec<(String, String)>) -> (r: Vec<(String, String)>)
    ensures
        r@ == v@,
{
    let mut r: Vec<(String, String)> = Vec::new();
    let mut i: usize = 0;
    while i < v.len()
        invariant
            i <= v.len(),
            r@ == v@.take(i as int),
        decreases v.len() - i,
    {
        let a = v[i].0.clone();
        let b = v[i].1.clone();
        r.push((a, b));
        i = i + 1;
        proof {
            assert(r@ =~= v@.take(i as int));
        }
    }
    proof {
        assert(v@.take(v.len() as int) =~= v@);
    }
    r
}

/// Every tool the assistant offers gets arguments built from the prompt:
/// the staff directory one profile, the programme information at any level,
/// the programme list at any level, ten memories, and seven passages from
/// the general information, the rules and acts, and the FAQ.
pub proof fn lemma_every_tool_has_arguments(p: Seq<char>)
    ensures
        arguments_for("get_staff_profiles"@, p) == Some(ArgsView::NameAndCount(p, 1)),
        arguments_for("get_programme_info"@, p) == Some(ArgsView::NameAndLevel(p, "any"@)),
        arguments_for("list_all_programmes"@, p) == Some(ArgsView::Level("any"@)),
        arguments_for("query_memory"@, p) == Some(ArgsView::QueryAndTopK(p, 10)),
        arguments_for("ask_about_general_information"@, p) == Some(ArgsView::QuestionAndCount(p, 7)),
        arguments_for("ask_about_rules_and_acts"@, p) == Some(ArgsView::QuestionAndCount(p, 7)),
        arguments_for("retrieve_similar_FAQ"@, p) == Some(ArgsView::QuestionAndCount(p, 7)),
{
    reveal_strlit("get_staff_profiles");
    reveal_strlit("get_programme_info");
    reveal_strlit("list_all_programmes");
    reveal_strlit("query_memory");
    reveal_strlit("ask_about_general_information");
    reveal_strlit("ask_about_rules_and_acts");
    reveal_strlit("retrieve_similar_FAQ");
    let gs = "get_staff_profiles"@;
    let gp = "get_programme_info"@;
    let lp = "list_all_programmes"@;
    let qm = "query_memory"@;
    let ag = "ask_about_general_information"@;
    let ar = "ask_about_rules_and_acts"@;
    let rf = "retrieve_similar_FAQ"@;
    assert(gp[4] != gs[4]);
    assert(lp[0] != gs[0] && lp[0] != gp[0]);
    assert(qm[0] != gs[0] && qm[0] != gp[0] && qm[0] != lp[0]);
    assert(ag[0] != gs[0] && ag[0] != gp[0] && ag[0] != lp[0] && ag[0] != qm[0]);
    assert(ar[0] != gs[0] && ar[0] != gp[0] && ar[0] != lp[0] && ar[0] != qm[0]);
    assert(rf[0] != gs[0] && rf[0] != gp[0] && rf[0] != lp[0] && rf[0] != qm[0]);
}

} // verus!

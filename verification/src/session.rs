//! A chat session with the web front end: the messages exchanged and what
//! the session does with each of them.

use vstd::prelude::*;
use crate::profile::{keys_unique, no_uid_message, uid_of, Profile, ProfileRole};
use crate::queue::{JobId, PositionInQueue, QueueMessage};
use crate::text::{push_str, string_from};

verus! {

/// What a front end message asks for.
#[derive(Debug, Clone, Copy, PartialEq, Eq, Structural)]
pub enum MessageType {
    StudentLogin,
    EmployeeLogin,
    ThumbsUp,
    ThumbsDown,
    Logout,
    Prompt,
}

/// A message from the front end.
#[derive(Debug)]
pub struct FrontendMessage {
    pub message_type: MessageType,
    pub content: String,
}

/// The credentials of a login message.
#[derive(Debug)]
pub struct LoginCredentials {
    pub username: String,
    pub password: String,
}

/// A message to the front end.
#[derive(Debug)]
pub enum BackendMessage {
    Chunk(String),
    Notification(String),
    QueuePosition(PositionInQueue),
    LoginProfile(Profile),
    Error(String),
    End,
}

/// A text frame to send over the socket.
pub struct SendWsText(pub String);

/// Which directory a login goes to.
#[derive(Debug, Clone, Copy, PartialEq, Eq, Structural)]
pub enum LoginKind {
    Student,
    Employee,
}

/// What the session does with a front end message.
#[derive(Debug)]
pub enum SessionStep {
    /// Answer at once.
    Reply(BackendMessage),
    /// Check the credentials (the message content) with the directory.
    Login(LoginKind, String),
    /// Queue the prompt and ask the assistant when its turn comes.
    Ask(String),
    /// Forget who is signed in.
    Logout,
    /// Save the conversation to the named file.
    SaveConversation(String),
}

/// The file a rated conversation is saved to.
pub open spec fn feedback_file(up: bool, session_id: Seq<char>) -> Seq<char> {
    (if up {
        "up_"@
    } else {
        "down_"@
    }) + session_id + ".json"@
}

/// Decides what to do with a front end message. A prompt is taken only from
/// a signed-in user.
pub fn handle_client_message(authenticated: bool, session_id: &str, message: FrontendMessage) -> (r: SessionStep)
    ensures
        match message.message_type {
            MessageType::Prompt => if authenticated {
                r matches SessionStep::Ask(p) && p == message.content
            } else {
                r matches SessionStep::Reply(BackendMessage::Error(m)) && m@ == "Not logged in..."@
            },
            MessageType::EmployeeLogin => r matches SessionStep::Login(k, c) && k == LoginKind::Employee && c == message.content,
            MessageType::StudentLogin => r matches SessionStep::Login(k, c) && k == LoginKind::Student && c == message.content,
            MessageType::Logout => r is Logout,
            MessageType::ThumbsUp => r matches SessionStep::SaveConversation(f) && f@ == feedback_file(true, session_id@),
            MessageType::ThumbsDown => r matches SessionStep::SaveConversation(f) && f@ == feedback_file(false, session_id@),
        },
{
    match message.message_type {
        MessageType::Prompt => if authenticated {
            SessionStep::Ask(message.content)
        } else {
            SessionStep::Reply(BackendMessage::Error(String::from_str("Not logged in...")))
        },
        MessageType::EmployeeLogin => SessionStep::Login(LoginKind::Employee, message.content),
        MessageType::StudentLogin => SessionStep::Login(LoginKind::Student, message.content),
        MessageType::Logout => SessionStep::Logout,
        MessageType::ThumbsUp => {
            let mut f: Vec<char> = Vec::new();
            push_str(&mut f, "up_");
            push_str(&mut f, session_id);
            push_str(&mut f, ".json");
            SessionStep::SaveConversation(string_from(f.as_slice()))
        },
        MessageType::ThumbsDown => {
            let mut f: Vec<char> = Vec::new();
            push_str(&mut f, "down_");
            push_str(&mut f, session_id);
            push_str(&mut f, ".json");
            SessionStep::SaveConversation(string_from(f.as_slice()))
        },
    }
}

/// What the directory said of a login.
#[derive(Debug)]
pub enum LdapOutcome {
    /// The directory could not be asked; the error as shown.
    Failed(String),
    /// No entry accepted the password.
    NoMatch,
    /// The entry that accepted the password: its distinguished name and
    /// attributes, each name once.
    Found(String, Vec<(String, Vec<String>)>),
}

/// The error message for a failed login of the given kind.
pub open spec fn login_error(kind: LoginKind, outcome: LdapOutcome) -> Seq<char> {
    match (kind, outcome) {
        (LoginKind::Employee, LdapOutcome::Failed(e)) => "Auth connection failed: "@ + e@,
        (LoginKind::Employee, LdapOutcome::NoMatch) => "Invalid credentials"@,
        (LoginKind::Employee, LdapOutcome::Found(..)) => "Profile parsing: "@ + no_uid_message(),
        (LoginKind::Student, LdapOutcome::Failed(e)) => "LDAP failed: "@ + e@,
        (LoginKind::Student, LdapOutcome::NoMatch) => "LDAP invalid credentials"@,
        (LoginKind::Student, LdapOutcome::Found(..)) => "LDAP profile parsing: "@ + no_uid_message(),
    }
}

/// The profile a login gives, or the error to show: a student or employee
/// profile when the directory found the entry and its name holds a user name.
pub fn login_outcome(kind: LoginKind, outcome: LdapOutcome) -> (r: Result<Profile, String>)
    requires
        outcome matches LdapOutcome::Found(_, attrs) ==> keys_unique(attrs@),
    ensures
        match outcome {
            LdapOutcome::Found(dn, attrs) => match uid_of(dn@) {
                Some(u) => r matches Ok(p) && p.username@ == u && p.raw_attributes == attrs && p.wf()
                    && p.role == (if kind == LoginKind::Student { ProfileRole::Student } else { ProfileRole::Employee }),
                None => r matches Err(m) && m@ == login_error(kind, outcome),
            },
            _ => r matches Err(m) && m@ == login_error(kind, outcome),
        },
{
    let ghost o = outcome;
    let mut m: Vec<char> = Vec::new();
    match outcome {
        LdapOutcome::Failed(e) => {
            match kind {
                LoginKind::Employee => push_str(&mut m, "Auth connection failed: "),
                LoginKind::Student => push_str(&mut m, "LDAP failed: "),
            }
            push_str(&mut m, e.as_str());
            Err(string_from(m.as_slice()))
        },
        LdapOutcome::NoMatch => {
            match kind {
                LoginKind::Employee => push_str(&mut m, "Invalid credentials"),
                LoginKind::Student => push_str(&mut m, "LDAP invalid credentials"),
            }
            Err(string_from(m.as_slice()))
        },
        LdapOutcome::Found(dn, attrs) => {
            let parsed = match kind {
                LoginKind::Student => Profile::try_from_student_string(dn, attrs),
                LoginKind::Employee => Profile::try_from_employee_string(dn, attrs),
            };
            match parsed {
                Ok(p) => Ok(p),
                Err(e) => {
                    match kind {
                        LoginKind::Employee => push_str(&mut m, "Profile parsing: "),
                        LoginKind::Student => push_str(&mut m, "LDAP profile parsing: "),
                    }
                    push_str(&mut m, e.as_str());
                    Err(string_from(m.as_slice()))
                },
            }
        },
    }
}

/// What a queue message means for the waiting prompt: its new place, to be
/// shown, or `None` when its turn has come.
pub fn queue_reply(msg: QueueMessage) -> (r: Option<BackendMessage>)
    ensures
        match msg {
            QueueMessage::PositionUpade(p) => r matches Some(BackendMessage::QueuePosition(q)) && q == p,
            QueueMessage::StartJob(_) => r is None,
        },
{
    match msg {
        QueueMessage::PositionUpade(p) => Some(BackendMessage::QueuePosition(p)),
        QueueMessage::StartJob(_) => None,
    }
}

/// The messages that close an answer: the tool's error, if it failed, then the end mark.
pub fn answer_finished(tool_error: Option<String>) -> (r: Vec<BackendMessage>)
    ensures
        match tool_error {
            Some(e) => r.len() == 2 && (r@[0] matches BackendMessage::Chunk(c) && c@ == "[Tool error] "@ + e@)
                && r@[1] is End,
            None => r.len() == 1 && r@[0] is End,
        },
{
    let mut r: Vec<BackendMessage> = Vec::new();
    match tool_error {
        Some(e) => {
            let mut c: Vec<char> = Vec::new();
            push_str(&mut c, "[Tool error] ");
            push_str(&mut c, e.as_str());
            r.push(BackendMessage::Chunk(string_from(c.as_slice())));
        },
        None => {},
    }
    r.push(BackendMessage::End);
    r
}

/// The text shown for a progress notification: its message, or a bar glyph.
pub fn notification_text(message: Option<String>) -> (r: String)
    ensures
        r@ == match message {
            Some(m) => m@,
            None => "\u{25b1}"@,
        },
{
    match message {
        Some(m) => m,
        None => String::from_str("\u{25b1}"),
    }
}

/// Where a queued prompt stands.
#[derive(Debug, Clone, Copy, PartialEq, Eq, Structural)]
pub enum PromptStage {
    /// Waiting in the queue.
    Waiting,
    /// Its job started; the assistant is being asked.
    Asking(JobId),
    /// Answered; its job is over.
    Done,
}

/// A prompt of a signed-in user on its way through the queue to the assistant.
#[derive(Debug)]
pub struct PromptFlow {
    pub question: String,
    pub stage: PromptStage,
}

/// What happens to a queued prompt.
#[derive(Debug)]
pub enum PromptEvent {
    /// The queue sent a message on the prompt's channel.
    Queue(QueueMessage),
    /// The assistant's tool call came back, with its error if it failed.
    ToolDone(Option<String>),
}

/// What the session does next for a queued prompt.
#[derive(Debug)]
pub enum PromptAction {
    /// Send this message to the front end.
    Show(BackendMessage),
    /// Call the named tool once, with the question as its `question` argument.
    CallTool(String, String),
    /// Send these messages to the front end, then tell the queue that this job is done.
    Finish(Vec<BackendMessage>, JobId),
}

impl PromptFlow {
    /// A prompt that has just joined the queue.
    pub fn start(question: String) -> (f: PromptFlow)
        ensures
            f.question == question,
            f.stage == PromptStage::Waiting,
    {
        PromptFlow { question, stage: PromptStage::Waiting }
    }

    /// The events the prompt can meet where it stands: queue messages while
    /// it waits, the tool's return while the assistant is asked.
    pub open spec fn expects(&self, ev: PromptEvent) -> bool {
        match (self.stage, ev) {
            (PromptStage::Waiting, PromptEvent::Queue(_)) => true,
            (PromptStage::Asking(_), PromptEvent::ToolDone(_)) => true,
            _ => false,
        }
    }

    /// The next step of the prompt: each place in the queue is shown; when
    /// its job starts the `ask_urska` tool is called once with the question;
    /// when the tool returns, the error (if any) and the end mark are sent and
    /// the job's queue slot is freed.
    pub fn on_event(&mut self, ev: PromptEvent) -> (a: PromptAction)
        requires
            old(self).expects(ev),
        ensures
            final(self).question == old(self).question,
            match ev {
                PromptEvent::Queue(QueueMessage::PositionUpade(p)) => final(self).stage == PromptStage::Waiting
                    && (a matches PromptAction::Show(BackendMessage::QueuePosition(q)) && q == p),
                PromptEvent::Queue(QueueMessage::StartJob(id)) => final(self).stage == PromptStage::Asking(id)
                    && (a matches PromptAction::CallTool(t, q) && t@ == "ask_urska"@ && q@ == old(self).question@),
                PromptEvent::ToolDone(err) => final(self).stage == PromptStage::Done
                    && (a matches PromptAction::Finish(ms, j) && old(self).stage == PromptStage::Asking(j)
                        && match err {
                            Some(e) => ms.len() == 2 && (ms@[0] matches BackendMessage::Chunk(c) && c@ == "[Tool error] "@ + e@)
                                && ms@[1] is End,
                            None => ms.len() == 1 && ms@[0] is End,
                        }),
            },
    {
        match ev {
            PromptEvent::Queue(QueueMessage::PositionUpade(p)) => PromptAction::Show(BackendMessage::QueuePosition(p)),
            PromptEvent::Queue(QueueMessage::StartJob(id)) => {
                self.stage = PromptStage::Asking(id);
                PromptAction::CallTool(String::from_str("ask_urska"), self.question.clone())
            },
            PromptEvent::ToolDone(err) => {
                let job = match self.stage {
                    PromptStage::Asking(j) => j,
                    _ => 0,
                };
                self.stage = PromptStage::Done;
                PromptAction::Finish(answer_finished(err), job)
            },
        }
    }
}

} // verus!

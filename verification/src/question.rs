//! A question to a language model: system prompt, question, context passages
//! and model, and the prompt they make.

use vstd::prelude::*;
use crate::text::{chars_of, contains, has_substring, join, join_with, push_all, push_str, replace, replace_all, string_from, views};

verus! {

/// The system prompt a question starts with.
pub open spec fn default_system_prompt() -> Seq<char> {
    "You are a helpful assistant. Answer users question based on provided context."@
}

/// The model a question starts with.
pub open spec fn default_model() -> Seq<char> {
    "qwen3:8b"@
}

/// A question with what is needed to prompt a model with it.
#[derive(Debug, Clone)]
pub struct Question {
    system_prompt: String,
    question: String,
    context: Vec<String>,
    model: String,
    body: Option<String>,
}

/// The parts of a question as values.
pub struct QuestionView {
    pub system_prompt: Seq<char>,
    pub question: Seq<char>,
    pub context: Seq<Seq<char>>,
    pub model: Seq<char>,
    pub body: Option<Seq<char>>,
}

impl View for Question {
    type V = QuestionView;

    closed spec fn view(&self) -> QuestionView {
        QuestionView {
            system_prompt: self.system_prompt@,
            question: self.question@,
            context: self.context@.map_values(|s: String| s@),
            model: self.model@,
            body: match self.body {
                Some(b) => Some(b@),
                None => None,
            },
        }
    }
}

/// The placeholder a system prompt may hold for the context.
pub open spec fn context_marker() -> Seq<char> {
    "{{context}}"@
}

/// The prompt a question makes: the system prompt with the context passages
/// (joined by newlines) put in place of the placeholder when it holds one;
/// otherwise system prompt, question and context on lines of their own.
pub open spec fn final_prompt(q: QuestionView) -> Seq<char> {
    let ctx = join(q.context, "\n"@);
    if contains(q.system_prompt, context_marker()) {
        replace(q.system_prompt, context_marker(), ctx)
    } else {
        q.system_prompt + "\n"@ + q.question + "\n"@ + ctx
    }
}

/// The passages joined by newlines.
fn joined_lines(passages: &Vec<String>) -> (r: Vec<char>)
    ensures
        r@ == join(passages@.map_values(|s: String| s@), "\n"@),
{
    let mut parts: Vec<Vec<char>> = Vec::new();
    let mut i: usize = 0;
    while i < passages.len()
        invariant
            i <= passages.len(),
            views(parts@) == passages@.map_values(|s: String| s@).take(i as int),
        decreases passages.len() - i,
    {
        let ghost before = parts@;
        let c = chars_of(passages[i].as_str());
        parts.push(c);
        proof {
            assert(views(parts@) =~= views(before).push(passages@[i as int]@));
            assert(passages@.map_values(|s: String| s@).take(i + 1)
                =~= passages@.map_values(|s: String| s@).take(i as int).push(passages@[i as int]@));
        }
        i = i + 1;
    }
    proof {
        assert(passages@.map_values(|s: String| s@).take(passages.len() as int)
            =~= passages@.map_values(|s: String| s@));
    }
    let nl = chars_of("\n");
    join_with(&parts, nl.as_slice())
}

impl Question {
    /// A question with the default system prompt and model and no context.
    pub fn new(question: String) -> (q: Question)
        ensures
            q@ == (QuestionView {
                system_prompt: default_system_prompt(),
                question: question@,
                context: Seq::empty(),
                model: default_model(),
                body: None,
            }),
    {
        let q = Question {
            system_prompt: String::from_str("You are a helpful assistant. Answer users question based on provided context."),
            question,
            context: Vec::new(),
            model: String::from_str("qwen3:8b"),
            body: None,
        };
        proof {
            assert(q.context@.map_values(|s: String| s@) =~= Seq::<Seq<char>>::empty());
        }
        q
    }

    /// Replaces the system prompt.
    pub fn set_system_prompt(self, prompt: &str) -> (q: Question)
        ensures
            q@ == (QuestionView { system_prompt: prompt@, ..self@ }),
    {
        Question { system_prompt: String::from_str(prompt), ..self }
    }

    /// Replaces the model.
    pub fn set_model(self, model: &str) -> (q: Question)
        ensures
            q@ == (QuestionView { model: model@, ..self@ }),
    {
        Question { model: String::from_str(model), ..self }
    }

    /// Replaces the question.
    pub fn set_question(self, question: &str) -> (q: Question)
        ensures
            q@ == (QuestionView { question: question@, ..self@ }),
    {
        Question { question: String::from_str(question), ..self }
    }

    /// Sets the text sent with the question.
    pub fn set_body(self, body: String) -> (q: Question)
        ensures
            q@ == (QuestionView { body: Some(body@), ..self@ }),
    {
        Question { body: Some(body), ..self }
    }

    /// Replaces the context passages.
    pub fn set_context(self, context: Vec<String>) -> (q: Question)
        ensures
            q@ == (QuestionView { context: context@.map_values(|s: String| s@), ..self@ }),
    {
        Question { context, ..self }
    }

    /// The text sent with the question, if any.
    pub fn body(&self) -> (b: Option<String>)
        ensures
            match b {
                Some(t) => self@.body == Some(t@),
                None => self@.body is None,
            },
    {
        match &self.body {
            Some(t) => Some(t.clone()),
            None => None,
        }
    }

    /// The model the question is for.
    pub fn model(&self) -> (m: String)
        ensures
            m@ == self@.model,
    {
        self.model.clone()
    }

    /// The prompt the question makes.
    pub fn prompt(&self) -> (p: String)
        ensures
            p@ == final_prompt(self@),
    {
        let ctx = joined_lines(&self.context);
        let sys = chars_of(self.system_prompt.as_str());
        let marker = chars_of("{{context}}");
        proof {
            reveal_strlit("{{context}}");
        }
        let out = if has_substring(&sys, marker.as_slice()) {
            replace_all(&sys, marker.as_slice(), ctx.as_slice())
        } else {
            let mut o: Vec<char> = Vec::new();
            push_all(&mut o, sys.as_slice());
            push_str(&mut o, "\n");
            push_str(&mut o, self.question.as_str());
            push_str(&mut o, "\n");
            push_all(&mut o, ctx.as_slice());
            o
        };
        string_from(out.as_slice())
    }
}

/// The system prompt of a question to the document collection.
pub open spec fn collection_system_prompt() -> Seq<char> {
    "/no_think You are an assistant who is helping with finding information in the repository of information. You are a guide through the documents. Given a question, help navigate through the files and the information. You are allowed to read some of the documents: "@
}

/// The question text asked of the document collection: the passages, one
/// per line, then the user's question and the note to answer in markdown.
pub open spec fn collection_question(passages: Seq<Seq<char>>, prompt: Seq<char>) -> Seq<char> {
    "\n    \n    "@ + join(passages, "\n"@) + "\n    \n    User question to answe based on above data:\n    "@ + prompt
        + "\n    \n    Notes: \n    - Respond in markdown\n\n    "@
}

/// The question that asks the model about the document collection: the
/// rendered passages and the user's question in the question text, the
/// collection's system prompt, the default model and no context.
pub fn construct_prompt(prompt: String, passages: &Vec<String>) -> (q: Question)
    ensures
        q@ == (QuestionView {
            system_prompt: collection_system_prompt(),
            question: collection_question(passages@.map_values(|s: String| s@), prompt@),
            context: Seq::empty(),
            model: default_model(),
            body: None,
        }),
{
    let mut o: Vec<char> = Vec::new();
    push_str(&mut o, "\n    \n    ");
    let ctx = joined_lines(passages);
    push_all(&mut o, ctx.as_slice());
    push_str(&mut o, "\n    \n    User question to answe based on above data:\n    ");
    push_str(&mut o, prompt.as_str());
    push_str(&mut o, "\n    \n    Notes: \n    - Respond in markdown\n\n    ");
    let question = string_from(o.as_slice());
    Question::new(question).set_system_prompt(
        "/no_think You are an assistant who is helping with finding information in the repository of information. You are a guide through the documents. Given a question, help navigate through the files and the information. You are allowed to read some of the documents: ",
    )
}

} // verus!

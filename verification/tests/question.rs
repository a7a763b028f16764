use urska::question::{construct_prompt, Question};

#[test]
fn default_prompt_lists_parts_on_lines() {
    let q = Question::new("What is FAMNIT?".to_string());
    assert_eq!(q.model(), "qwen3:8b");
    assert_eq!(
        q.prompt(),
        "You are a helpful assistant. Answer users question based on provided context.\nWhat is FAMNIT?\n"
    );
}

#[test]
fn context_is_joined_by_newlines() {
    let q = Question::new("Q".to_string())
        .set_system_prompt("S")
        .set_context(vec!["a".to_string(), "b".to_string()])
        .set_model("m");
    assert_eq!(q.prompt(), "S\nQ\na\nb");
    assert_eq!(q.model(), "m");
}

#[test]
fn placeholder_takes_the_context() {
    let q = Question::new("ignored".to_string())
        .set_system_prompt("Use {{context}} and {{context}}.")
        .set_question("also ignored")
        .set_context(vec!["X".to_string()]);
    assert_eq!(q.prompt(), "Use X and X.");
}

#[test]
fn collection_prompt_frames_passages_and_question() {
    let q = construct_prompt("Where is the library?".to_string(), &vec!["A".to_string(), "B".to_string()]);
    assert_eq!(q.model(), "qwen3:8b");
    let expected = format!(
        "{}\n{}\n",
        "/no_think You are an assistant who is helping with finding information in the repository of information. You are a guide through the documents. Given a question, help navigate through the files and the information. You are allowed to read some of the documents: ",
        "\n    \n    A\nB\n    \n    User question to answe based on above data:\n    Where is the library?\n    \n    Notes: \n    - Respond in markdown\n\n    "
    );
    assert_eq!(q.prompt(), expected);
}

use chad_llm::commands::{
    chosen_name, command_words, find_model, initial_choice, position_of, use_system_prompt,
    CommandError, CLI,
};
use chad_llm::context::{remove_messages, set_system_prompt, Message};
use chad_llm::prompts::{SystemPrompts, SystemPromptsError};

fn msg(role: &str, content: &str) -> Message {
    Message { role: role.to_string(), content: content.to_string() }
}

fn pairs(v: &[Message]) -> Vec<(String, String)> {
    v.iter().map(|m| (m.role.clone(), m.content.clone())).collect()
}

#[test]
fn new_store_holds_the_default_prompt() {
    let p = SystemPrompts::new();
    assert_eq!(p.get_available(), vec!["default".to_string()]);
    assert_eq!(p.get("default"), Some(&"You are a helpful assistant.".to_string()));
    assert_eq!(p.get("other"), None);
}

#[test]
fn update_needs_an_existing_prompt() {
    let mut p = SystemPrompts::new();
    assert_eq!(p.update("poet", "Rhyme."), Err(SystemPromptsError::FailedToFindPrompt));
    assert_eq!(p.get("poet"), None);
    assert_eq!(p.update("default", "Be brief."), Ok(()));
    assert_eq!(p.get("default"), Some(&"Be brief.".to_string()));
    assert_eq!(p.get_available().len(), 1);
}

#[test]
fn update_or_create_adds_or_replaces() {
    let mut p = SystemPrompts::new();
    assert_eq!(p.update_or_create("poet", "Rhyme."), Ok(()));
    assert_eq!(p.update_or_create("poet", "Rhyme twice."), Ok(()));
    assert_eq!(p.get_available(), vec!["default".to_string(), "poet".to_string()]);
    assert_eq!(p.get("poet"), Some(&"Rhyme twice.".to_string()));
}

#[test]
fn remove_drops_a_prompt() {
    let mut p = SystemPrompts::new();
    p.update_or_create("poet", "Rhyme.").unwrap();
    p.remove("default");
    assert_eq!(p.get_available(), vec!["poet".to_string()]);
    p.remove("missing");
    assert_eq!(p.get_available(), vec!["poet".to_string()]);
}

#[test]
fn from_pairs_keeps_the_last_of_a_name() {
    let p = SystemPrompts::from_pairs(vec![
        ("a".to_string(), "1".to_string()),
        ("b".to_string(), "2".to_string()),
        ("a".to_string(), "3".to_string()),
    ]);
    assert_eq!(p.get_available(), vec!["a".to_string(), "b".to_string()]);
    assert_eq!(p.get("a"), Some(&"3".to_string()));
    assert_eq!(p.entries().len(), 2);
    let empty = SystemPrompts::from_pairs(Vec::new());
    assert_eq!(empty.get_available(), vec!["default".to_string()]);
    assert_eq!(SystemPrompts::empty().get_available(), Vec::<String>::new());
}

#[test]
fn system_prompt_leads_the_context() {
    let mut ctx = vec![msg("user", "hi")];
    set_system_prompt(&mut ctx, "Be kind.");
    assert_eq!(pairs(&ctx), vec![
        ("system".to_string(), "Be kind.".to_string()),
        ("user".to_string(), "hi".to_string()),
    ]);
    set_system_prompt(&mut ctx, "Be terse.");
    assert_eq!(pairs(&ctx), vec![
        ("system".to_string(), "Be terse.".to_string()),
        ("user".to_string(), "hi".to_string()),
    ]);
    set_system_prompt(&mut ctx, "");
    assert_eq!(pairs(&ctx), vec![("user".to_string(), "hi".to_string())]);
}

#[test]
fn initial_choice_finds_the_default() {
    let names = vec!["a".to_string(), "b".to_string(), "b".to_string()];
    assert_eq!(initial_choice(&names, Some("b")), 1);
    assert_eq!(initial_choice(&names, Some("z")), 0);
    assert_eq!(initial_choice(&names, None), 0);
}

#[test]
fn chosen_name_takes_the_first_index() {
    let names = vec!["a".to_string(), "b".to_string()];
    assert_eq!(chosen_name(&names, &[1, 0]), Some("b".to_string()));
    assert_eq!(chosen_name(&names, &[]), None);
}

#[test]
fn command_errors_compare() {
    let _cli = CLI::new();
    assert_ne!(CommandError::Aborted, CommandError::CommandNotFound);
}

#[test]
fn command_lines_split_into_words() {
    assert_eq!(command_words("hello"), None);
    assert_eq!(command_words("/"), None);
    assert_eq!(
        command_words("/system_use  poet now "),
        Some(vec!["system_use".to_string(), "poet".to_string(), "now".to_string()])
    );
    assert_eq!(command_words("/  "), Some(Vec::new()));
    assert_eq!(command_words("/héllo"), Some(vec!["héllo".to_string()]));
}

#[test]
fn models_are_found_by_name() {
    let models = vec!["gpt-4o".to_string(), "o1".to_string()];
    assert_eq!(find_model(&models, "o1"), Ok(1));
    assert_eq!(find_model(&models, "o2"), Err(CommandError::InvalidModel));
    assert_eq!(position_of(&models, "gpt-4o"), Some(0));
}

#[test]
fn using_a_prompt_sets_the_system_message() {
    let mut prompts = SystemPrompts::new();
    prompts.update_or_create("poet", "Rhyme.").unwrap();
    let mut ctx = vec![msg("user", "hi")];
    assert_eq!(use_system_prompt(&prompts, "poet", &mut ctx), Ok(()));
    assert_eq!(pairs(&ctx)[0], ("system".to_string(), "Rhyme.".to_string()));
    assert_eq!(
        use_system_prompt(&prompts, "nobody", &mut ctx),
        Err(CommandError::InvalidSystemPrompt)
    );
    assert_eq!(ctx.len(), 2);
}

#[test]
fn removing_messages_by_position() {
    let mut ctx = vec![msg("user", "a"), msg("assistant", "b"), msg("user", "c"), msg("user", "d")];
    remove_messages(&mut ctx, &[3, 1, 1, 9]);
    assert_eq!(pairs(&ctx), vec![
        ("user".to_string(), "a".to_string()),
        ("user".to_string(), "c".to_string()),
    ]);
}

use org_sync::interface::{handle_input_line, CliInterface, InputCommand, InputError};
use org_sync::netcommand::CliCommand;

fn line(text: &str) -> Result<InputCommand, InputError> {
    handle_input_line(&text.to_string())
}

#[test]
fn console_get() {
    assert_eq!(line("GET /a"), Ok(InputCommand::Get { key: b"/a".to_vec() }));
    assert_eq!(line("GET /a more"), Ok(InputCommand::Get { key: b"/a".to_vec() }));
    assert_eq!(line("GET"), Err(InputError::ExpectedKey));
}

#[test]
fn console_words_are_split_at_single_spaces() {
    // As with `str::split`, a space at the end is followed by an empty word,
    // and two spaces have an empty word between them.
    assert_eq!(line("GET "), Ok(InputCommand::Get { key: vec![] }));
    assert_eq!(line("PUT  v"), Ok(InputCommand::Put { key: vec![], value: b"v".to_vec() }));
    assert_eq!(line(" GET k"), Err(InputError::UnknownCommand));
    let words: Vec<&str> = "PUT  v".split(' ').collect();
    assert_eq!(words, vec!["PUT", "", "v"]);
}

#[test]
fn console_providers() {
    assert_eq!(line("GET_PROVIDERS k"), Ok(InputCommand::GetProviders { key: b"k".to_vec() }));
    assert_eq!(line("GET_PROVIDERS"), Err(InputError::ExpectedKey));
    assert_eq!(line("PUT_PROVIDER k"), Ok(InputCommand::PutProvider { key: b"k".to_vec() }));
    assert_eq!(line("PUT_PROVIDER"), Err(InputError::ExpectedKey));
}

#[test]
fn console_put() {
    assert_eq!(line("PUT k v"), Ok(InputCommand::Put { key: b"k".to_vec(), value: b"v".to_vec() }));
    assert_eq!(line("PUT k v w"), Ok(InputCommand::Put { key: b"k".to_vec(), value: b"v".to_vec() }));
    assert_eq!(line("PUT k "), Ok(InputCommand::Put { key: b"k".to_vec(), value: vec![] }));
    assert_eq!(line("PUT k"), Err(InputError::ExpectedValue));
    assert_eq!(line("PUT"), Err(InputError::ExpectedKey));
    assert_eq!(
        line("PUT \u{e9} \u{4e16}"),
        Ok(InputCommand::Put { key: "\u{e9}".as_bytes().to_vec(), value: "\u{4e16}".as_bytes().to_vec() })
    );
}

#[test]
fn console_unknown() {
    assert_eq!(line(""), Err(InputError::UnknownCommand));
    assert_eq!(line("get k"), Err(InputError::UnknownCommand));
    assert_eq!(line("GETS k"), Err(InputError::UnknownCommand));
    assert_eq!(line("DELETE k"), Err(InputError::UnknownCommand));
}

#[test]
fn connection_carries_one_command() {
    let c = CliInterface();
    for path in [None, Some("all".to_string()), Some("/notes/a.txt".to_string())] {
        let sent = CliCommand { Push: path.clone() };
        let wire = String::from_utf8(sent.to_bytes()).unwrap();
        assert_eq!(c.handle_connection(&vec![wire, "ignored".to_string()]), Some(CliCommand { Push: path }));
    }
    let wire = String::from_utf8(CliCommand { Push: None }.to_bytes()).unwrap();
    assert_eq!(c.handle_connection(&vec![]), None);
    assert_eq!(c.handle_connection(&vec!["".to_string(), wire]), None);
    assert_eq!(c.handle_connection(&vec!["not a command".to_string()]), None);
}

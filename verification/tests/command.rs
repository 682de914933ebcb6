use dogel::command::parse_command;
use dogel::command::CommandParseError;
use dogel::command::PolicyCommand;
use dogel::command::TrustCommand;
use dogel::command::UserCommand;

#[test]
fn parses_identity_create() {
    assert_eq!(
        parse_command("/identity create Alice").unwrap(),
        UserCommand::IdentityCreate {
            alias: "Alice".to_string()
        }
    );
}

#[test]
fn parses_join_with_quoted_secret_and_ephemeral_flag() {
    assert_eq!(
        parse_command(r#"/join 123 --secret "red wheelbarrow" --ephemeral"#).unwrap(),
        UserCommand::Join {
            room_id: "123".to_string(),
            secret: "red wheelbarrow".to_string(),
            ephemeral: true,
        }
    );
}

#[test]
fn parses_msg_as_free_text() {
    assert_eq!(
        parse_command("/msg hello world from terminal").unwrap(),
        UserCommand::Message {
            text: "hello world from terminal".to_string(),
        }
    );
}

#[test]
fn rejects_missing_slash() {
    assert_eq!(
        parse_command("EVE_os-1112").unwrap_err(),
        CommandParseError::MissingSlash
    );
}

#[test]
fn rejects_join_without_secret() {
    assert_eq!(
        parse_command("/join 123").unwrap_err(),
        CommandParseError::MissingFlag("--secret")
    );
}

#[test]
fn rejects_history_extra_args() {
    assert_eq!(
        parse_command("/history on now").unwrap_err(),
        CommandParseError::UnexpectedArgument("now".to_string())
    );
}

#[test]
fn parses_status() {
    assert_eq!(parse_command("/status").unwrap(), UserCommand::Status);
}

#[test]
fn parses_clear() {
    assert_eq!(parse_command("/clear").unwrap(), UserCommand::Clear);
}

#[test]
fn parses_trust_add() {
    assert_eq!(
        parse_command("/trust 12D3KooWPeer").unwrap(),
        UserCommand::Trust {
            action: TrustCommand::Add {
                peer_id: "12D3KooWPeer".to_string(),
            }
        }
    );
}

#[test]
fn parses_trust_list() {
    assert_eq!(
        parse_command("/trust list").unwrap(),
        UserCommand::Trust {
            action: TrustCommand::List,
        }
    );
}

#[test]
fn parses_trust_remove() {
    assert_eq!(
        parse_command("/trust remove 12D3KooWPeer").unwrap(),
        UserCommand::Trust {
            action: TrustCommand::Remove {
                peer_id: "12D3KooWPeer".to_string(),
            }
        }
    );
}

#[test]
fn parses_dm_with_secret_and_ephemeral_flag() {
    assert_eq!(
        parse_command(r#"/dm 12D3KooWPeer --secret "red wheelbarrow" --ephemeral"#).unwrap(),
        UserCommand::DirectMessage {
            peer_id: "12D3KooWPeer".to_string(),
            secret: "red wheelbarrow".to_string(),
            ephemeral: true,
        }
    );
}

#[test]
fn rejects_room_extra_args() {
    assert_eq!(
        parse_command("/room peers extra").unwrap_err(),
        CommandParseError::UnexpectedArgument("extra".to_string())
    );
}

#[test]
fn parses_policy_show() {
    assert_eq!(
        parse_command("/policy").unwrap(),
        UserCommand::Policy {
            action: PolicyCommand::Show,
        }
    );
}

#[test]
fn parses_policy_strict() {
    assert_eq!(
        parse_command("/policy strict").unwrap(),
        UserCommand::Policy {
            action: PolicyCommand::Strict,
        }
    );
}

#[test]
fn parses_policy_relaxed() {
    assert_eq!(
        parse_command("/policy relaxed").unwrap(),
        UserCommand::Policy {
            action: PolicyCommand::Relaxed,
        }
    );
}

use yunfengzh_monolith::from_bevy::console::{console_action, is_blank, parse_command, parse_usize, split_whitespace};
use yunfengzh_monolith::from_bevy::{ConsoleAction, ConsoleCommand, GameEvent};

#[test]
fn let_injects_moves() {
    assert_eq!(console_action("let 3 left"), ConsoleAction::Send { id: 3, ge: GameEvent::MoveLeft });
    assert_eq!(console_action("let 3 moveleft"), ConsoleAction::Send { id: 3, ge: GameEvent::MoveLeft });
    assert_eq!(console_action("  let   12\tright "), ConsoleAction::Send { id: 12, ge: GameEvent::MoveRight });
    assert_eq!(console_action("let 1 moveright"), ConsoleAction::Send { id: 1, ge: GameEvent::MoveRight });
    assert_eq!(console_action("let +7 left"), ConsoleAction::Send { id: 7, ge: GameEvent::MoveLeft });
}

#[test]
fn unknown_actions_do_nothing() {
    assert_eq!(console_action("let 3 jump"), ConsoleAction::Ignore);
    assert_eq!(console_action("list sprites"), ConsoleAction::Ignore);
}

#[test]
fn list_and_help() {
    assert_eq!(console_action("list foreend"), ConsoleAction::ListForeend);
    assert_eq!(console_action("list referee"), ConsoleAction::ListReferee);
    assert_eq!(console_action("help"), ConsoleAction::PrintHelp);
}

#[test]
fn illegal_lines() {
    assert_eq!(console_action("let x left"), ConsoleAction::IllegalSyntax);
    assert_eq!(console_action("let 3"), ConsoleAction::IllegalSyntax);
    assert_eq!(console_action("let 3 left now"), ConsoleAction::IllegalSyntax);
    assert_eq!(console_action("help me"), ConsoleAction::IllegalSyntax);
    assert_eq!(console_action("jump"), ConsoleAction::IllegalSyntax);
    assert_eq!(console_action("list --all"), ConsoleAction::IllegalSyntax);
    assert_eq!(console_action("let -3 left"), ConsoleAction::IllegalSyntax);
    assert_eq!(console_action("let 99999999999999999999999 left"), ConsoleAction::IllegalSyntax);
}

#[test]
fn double_dash_ends_options() {
    assert_eq!(console_action("list -- foreend"), ConsoleAction::ListForeend);
    assert_eq!(console_action("let -- 2 -x"), ConsoleAction::Ignore);
}

#[test]
fn parse_command_values() {
    match parse_command("let 5 left") {
        Some(ConsoleCommand::Let { id, action }) => {
            assert_eq!(id, 5);
            assert_eq!(action, "left");
        }
        _ => panic!("expected a let command"),
    }
    match parse_command("list foreend") {
        Some(ConsoleCommand::List { action }) => assert_eq!(action, "foreend"),
        _ => panic!("expected a list command"),
    }
    assert!(matches!(parse_command("help"), Some(ConsoleCommand::Help)));
    assert!(parse_command("").is_none());
}

#[test]
fn words_and_numbers() {
    assert_eq!(split_whitespace(" a  bc\td \n"), vec!["a".to_string(), "bc".to_string(), "d".to_string()]);
    assert!(split_whitespace("   ").is_empty());
    assert!(is_blank(" \t\n"));
    assert!(!is_blank(" x "));
    assert_eq!(parse_usize("42"), Some(42));
    assert_eq!(parse_usize("+42"), Some(42));
    assert_eq!(parse_usize("4a"), None);
    assert_eq!(parse_usize(""), None);
    assert_eq!(parse_usize("+"), None);
}

use canton::admin::{
    dump_args, entity_ids, parse_admin_args, who_message, AdminCommand, AdminRequest, ArgError,
};
use canton::command::{argument_words_of, split_command_line, CommandSet};
use canton::parse::{command, Node};
use canton::text::ParseIntFailure;

#[test]
fn test_matching() {
    let mut set = CommandSet::new();
    set.add_command("testcommand");
    set.add_command("test");
    set.add_command("help");
    assert_eq!(set.lookup("test").as_deref(), Some("test"));
    assert_eq!(set.lookup("testc").as_deref(), Some("testcommand"));
    assert_eq!(set.lookup("testd").as_deref(), None);
    assert_eq!(set.lookup("te").as_deref(), Some("test"));
    assert!(set.lookup("foo").is_none());
}

#[test]
fn lookup_prefers_the_shortest_completion() {
    let set = CommandSet::from_keys(&vec!["north".to_string(), "northeast".to_string(), "nw".to_string()]);
    assert_eq!(set.lookup("n").as_deref(), None);
    assert_eq!(set.lookup("no").as_deref(), Some("north"));
    assert_eq!(set.lookup("northe").as_deref(), Some("northeast"));
    assert_eq!(set.lookup("nw").as_deref(), Some("nw"));
    assert_eq!(set.commands().len(), 3);
}

#[test]
fn merge_adds_every_key() {
    let mut set = CommandSet::new();
    set.add_command("who");
    set.merge(&vec!["stop".to_string(), "who".to_string()]);
    let mut keys = set.commands();
    keys.sort();
    assert_eq!(keys, vec!["stop".to_string(), "who".to_string()]);
}

#[test]
fn command_lines_split_at_the_first_space() {
    assert_eq!(split_command_line("say  hello there "), ("say".to_string(), "hello there".to_string()));
    assert_eq!(split_command_line("  look"), ("".to_string(), "look".to_string()));
    assert_eq!(split_command_line("look"), ("look".to_string(), "".to_string()));
    assert_eq!(split_command_line(""), ("".to_string(), "".to_string()));
}

#[test]
fn arguments_are_the_nonempty_trimmed_words() {
    assert_eq!(argument_words_of(" 12  3 x "), vec!["12", "3", "x"]);
    assert!(argument_words_of("   ").is_empty());
}

#[test]
fn teleport_reads_entity_coordinates_and_map() {
    match parse_admin_args(AdminCommand::Teleport, "12 1 -2 1 town square").unwrap() {
        AdminRequest::Teleport { entity, q, r, map } => {
            assert_eq!((entity, q, r), (12, 1, -2));
            assert_eq!(map.as_deref(), Some("town square"));
        }
        other => panic!("unexpected {:?}", other),
    }
    match parse_admin_args(AdminCommand::Teleport, "12 1 2 3").unwrap() {
        AdminRequest::Teleport { map, .. } => assert_eq!(map, None),
        other => panic!("unexpected {:?}", other),
    }
    match parse_admin_args(AdminCommand::Teleport, "12 1 2 3 None").unwrap() {
        AdminRequest::Teleport { map, .. } => assert_eq!(map.as_deref(), Some("")),
        other => panic!("unexpected {:?}", other),
    }
}

#[test]
fn short_arguments_give_the_usage_line() {
    let e = parse_admin_args(AdminCommand::Move, "12 1").unwrap_err();
    assert_eq!(e, ArgError::Usage(AdminCommand::Move));
    assert_eq!(e.message(), "Usage: @move <entity id> <q> <r> <s>");
    let e = parse_admin_args(AdminCommand::Rotate, "").unwrap_err();
    assert_eq!(e.message(), "Usage: @rotate <entity id> <r>");
}

#[test]
fn numbers_that_do_not_parse_are_reported() {
    assert_eq!(
        parse_admin_args(AdminCommand::Move, "x 1 2 3").unwrap_err(),
        ArgError::Int(ParseIntFailure::InvalidDigit)
    );
    assert_eq!(
        parse_admin_args(AdminCommand::Rotate, "1 200").unwrap_err(),
        ArgError::Int(ParseIntFailure::PosOverflow)
    );
    assert_eq!(
        parse_admin_args(AdminCommand::Rotate, "1 -200").unwrap_err(),
        ArgError::Int(ParseIntFailure::NegOverflow)
    );
    assert_eq!(
        parse_admin_args(AdminCommand::Despawn, "-1").unwrap_err(),
        ArgError::Int(ParseIntFailure::InvalidDigit)
    );
    match parse_admin_args(AdminCommand::Rotate, "7 -3").unwrap() {
        AdminRequest::Rotate { entity, rotation } => assert_eq!((entity, rotation), (7, -3)),
        other => panic!("unexpected {:?}", other),
    }
}

#[test]
fn parent_insert_remove_despawn() {
    match parse_admin_args(AdminCommand::Parent, "5").unwrap() {
        AdminRequest::Parent { entity, parent } => assert_eq!((entity, parent), (5, None)),
        other => panic!("unexpected {:?}", other),
    }
    match parse_admin_args(AdminCommand::Parent, "5 +9").unwrap() {
        AdminRequest::Parent { entity, parent } => assert_eq!((entity, parent), (5, Some(9))),
        other => panic!("unexpected {:?}", other),
    }
    match parse_admin_args(AdminCommand::Insert, "5 game::Name (\"x\")").unwrap() {
        AdminRequest::Insert { entity, component, data } => {
            assert_eq!(entity, 5);
            assert_eq!(component, "game::Name");
            assert_eq!(data, "(\"x\")");
        }
        other => panic!("unexpected {:?}", other),
    }
    assert_eq!(
        parse_admin_args(AdminCommand::Insert, "5 game::Name").unwrap_err(),
        ArgError::Usage(AdminCommand::Insert)
    );
    match parse_admin_args(AdminCommand::Remove, "5 game::Name").unwrap() {
        AdminRequest::Remove { entity, component } => {
            assert_eq!(entity, 5);
            assert_eq!(component, "game::Name");
        }
        other => panic!("unexpected {:?}", other),
    }
    match parse_admin_args(AdminCommand::Despawn, "18446744073709551615").unwrap() {
        AdminRequest::Despawn { entity } => assert_eq!(entity, u64::MAX),
        other => panic!("unexpected {:?}", other),
    }
}

#[test]
fn entities_skips_words_that_are_not_ids() {
    assert_eq!(entity_ids("4 x 18446744073709551616 7 "), vec![4, 7]);
    assert!(entity_ids("").is_empty());
}

#[test]
fn dump_reads_entity_and_file() {
    assert_eq!(dump_args("4 out.ron").unwrap(), (4, "out.ron".to_string()));
    assert_eq!(dump_args("4").unwrap_err(), ArgError::MissingFile);
    assert_eq!(dump_args("4").unwrap_err().message(), "missing file arg");
    assert_eq!(dump_args(" 4 x").unwrap_err(), ArgError::Int(ParseIntFailure::Empty));
    assert_eq!(dump_args("4  x").unwrap(), (4, "".to_string()));
}

#[test]
fn who_lists_players_when_not_alone() {
    assert_eq!(who_message(&vec!["alice".to_string()]), "It's just you!");
    assert_eq!(
        who_message(&vec!["alice".to_string(), "bob".to_string()]),
        "There are 2 players online:\n    alice\n    bob"
    );
}

#[test]
fn command_lines_parse_into_words_quotes_and_spaces() {
    assert_eq!(
        command("Hello, \"world\"!"),
        Some(vec![
            Node::Word("Hello,".into()),
            Node::Space,
            Node::Quoted("world".into()),
            Node::Word("!".into()),
        ])
    );
    assert_eq!(
        command("say \"a \\\"b\\\" c\"  now"),
        Some(vec![
            Node::Word("say".into()),
            Node::Space,
            Node::Quoted("a \"b\" c".into()),
            Node::Space,
            Node::Word("now".into()),
        ])
    );
    assert_eq!(command(""), Some(vec![]));
    assert_eq!(command("\"a\\b\""), Some(vec![Node::Quoted("a\\b".into())]));
}

#[test]
fn parser() {
    const INPUT: &str = "Hello, world\"!";
    let parsed = command(INPUT).unwrap();
    assert_eq!(
        parsed,
        vec![
            Node::Word("Hello,".into()),
            Node::Space,
            Node::Quoted("world".into()),
            Node::Word("!".into()),
        ]
    );
}

#[test]
fn an_opening_quote_must_be_closed() {
    assert_eq!(command("\"open"), None);
    assert_eq!(command("say \"open"), None);
    assert_eq!(
        command("a\"b c\""),
        Some(vec![Node::Quoted("a".into()), Node::Word("b".into()), Node::Space, Node::Quoted("c".into())])
    );
}

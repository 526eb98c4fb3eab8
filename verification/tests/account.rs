use canton::account::{
    account_created, login_step, login_step_checked, LoginOutcome, LoginOutput, LoginState, UserDb,
    UserEntry,
};

fn texts(out: &[LoginOutput]) -> Vec<String> {
    out.iter()
        .map(|o| match o {
            LoginOutput::Text(t) => format!("text:{}", t),
            LoginOutput::Line(t) => format!("line:{}", t),
            LoginOutput::GoAhead => "GA".to_string(),
            LoginOutput::WillEcho => "WILL ECHO".to_string(),
            LoginOutput::WontEcho => "WONT ECHO".to_string(),
        })
        .collect()
}

fn next_state(outcome: LoginOutcome) -> LoginState {
    match outcome {
        LoginOutcome::Continue(s) => s,
        other => panic!("unexpected {:?}", other),
    }
}

#[test]
fn start_prompts_for_the_account_name() {
    let db = UserDb::new();
    let step = login_step(LoginState::Start, None, &db);
    assert_eq!(texts(&step.output), vec!["text:Account name: ", "GA"]);
    assert!(matches!(next_state(step.outcome), LoginState::Username));
}

#[test]
fn waiting_without_a_line_changes_nothing() {
    let db = UserDb::new();
    let step = login_step(LoginState::Password { name: "bob".to_string() }, None, &db);
    assert!(step.output.is_empty());
    match next_state(step.outcome) {
        LoginState::Password { name } => assert_eq!(name, "bob"),
        other => panic!("unexpected {:?}", other),
    }
}

#[test]
fn new_account_then_login() {
    let mut db = UserDb::new();

    let step = login_step(LoginState::Username, Some("  alice ".to_string()), &db);
    assert_eq!(
        texts(&step.output),
        vec!["line:Creating new account.", "text:Password: ", "GA", "WILL ECHO"]
    );
    let state = next_state(step.outcome);
    assert!(matches!(&state, LoginState::NewUserPassword { name } if name == "alice"));

    let step = login_step(state, Some("secret".to_string()), &db);
    assert_eq!(texts(&step.output), vec!["text:\nConfirm password: ", "GA"]);
    let state = next_state(step.outcome);

    let step = login_step(state, Some("secret".to_string()), &db);
    assert_eq!(
        texts(&step.output),
        vec!["text:\nCreating account...", "GA", "WONT ECHO", "line: done!"]
    );
    let (username, hashed) = match step.outcome {
        LoginOutcome::Created { username, hashed_password } => (username, hashed_password),
        other => panic!("unexpected {:?}", other),
    };
    assert_eq!(username, "alice");
    assert_ne!(hashed, "secret");
    db.insert(username, UserEntry { hashed_password: hashed, character: 42 });

    let step = login_step(LoginState::Username, Some("alice".to_string()), &db);
    assert_eq!(texts(&step.output), vec!["line:Password: "]);
    let state = next_state(step.outcome);

    let step = login_step(state, Some("secret".to_string()), &db);
    assert_eq!(texts(&step.output), vec!["WONT ECHO", "line:Welcome back!", "GA"]);
    match step.outcome {
        LoginOutcome::LoggedIn { username, character } => {
            assert_eq!(username, "alice");
            assert_eq!(character, 42);
        }
        other => panic!("unexpected {:?}", other),
    }

    let step = login_step(
        LoginState::Password { name: "alice".to_string() },
        Some("wrong".to_string()),
        &db,
    );
    assert_eq!(texts(&step.output), vec!["WONT ECHO", "line:Invalid password."]);
    assert!(matches!(next_state(step.outcome), LoginState::Start));
}

#[test]
fn mismatched_confirmation_starts_over() {
    let db = UserDb::new();
    let step = login_step(
        LoginState::NewUserConfirm { name: "carol".to_string(), password: "one".to_string() },
        Some("two".to_string()),
        &db,
    );
    assert_eq!(texts(&step.output), vec!["line:\nPasswords do not match.", "WONT ECHO"]);
    assert!(matches!(next_state(step.outcome), LoginState::Start));
}

#[test]
fn unknown_user_at_password_starts_over() {
    let db = UserDb::new();
    let step = login_step(LoginState::Password { name: "dave".to_string() }, Some("x".to_string()), &db);
    assert_eq!(texts(&step.output), vec!["WONT ECHO"]);
    assert!(matches!(next_state(step.outcome), LoginState::Start));
}

#[test]
fn user_table_replaces_entries() {
    let mut db = UserDb::new();
    let n = "erin".to_string();
    assert!(!db.contains(&n));
    db.insert(n.clone(), UserEntry { hashed_password: "h1".to_string(), character: 1 });
    db.insert("frank".to_string(), UserEntry { hashed_password: "h2".to_string(), character: 2 });
    db.insert(n.clone(), UserEntry { hashed_password: "h3".to_string(), character: 3 });
    assert!(db.contains(&n));
    let e = db.get(&n).unwrap();
    assert_eq!((e.hashed_password.as_str(), e.character), ("h3", 3));
    assert_eq!(db.get(&"frank".to_string()).unwrap().character, 2);
    assert!(db.get(&"gina".to_string()).is_none());
}

#[test]
fn unreadable_stored_hash_is_not_checked() {
    let mut db = UserDb::new();
    db.insert("hal".to_string(), UserEntry { hashed_password: "not a hash".to_string(), character: 7 });
    let r = login_step_checked(LoginState::Password { name: "hal".to_string() }, Some("pw".to_string()), &db);
    assert!(r.is_none());
    let r = login_step_checked(LoginState::Password { name: "ida".to_string() }, Some("pw".to_string()), &db);
    let step = r.unwrap();
    assert_eq!(texts(&step.output), vec!["WONT ECHO"]);
    let r = login_step_checked(LoginState::Username, Some("hal".to_string()), &db).unwrap();
    assert_eq!(texts(&r.output), vec!["line:Password: "]);
}

#[test]
fn account_creation_ends_with_the_hash_or_starts_over() {
    let step = account_created("jo".to_string(), Some("$2b$04$abc".to_string()));
    assert_eq!(
        texts(&step.output),
        vec!["text:\nCreating account...", "GA", "WONT ECHO", "line: done!"]
    );
    match step.outcome {
        LoginOutcome::Created { username, hashed_password } => {
            assert_eq!(username, "jo");
            assert_eq!(hashed_password, "$2b$04$abc");
        }
        other => panic!("unexpected {:?}", other),
    }
    let step = account_created("jo".to_string(), None);
    assert_eq!(
        texts(&step.output),
        vec!["text:\nCreating account...", "GA", "WONT ECHO", "line: failed."]
    );
    assert!(matches!(next_state(step.outcome), LoginState::Start));
}

use onepass::errors::VaultError;
use onepass::guard::InterruptDecision;
use onepass::guard::MAX_INTERRUPT_POLLS;
use onepass::guard::interrupt_step;
use onepass::input::is_reserved;
use onepass::input::parse_update_key;
use onepass::input::validate_master_password;
use onepass::resource::Instance;
use onepass::resource::Key;
use onepass::resource::UpdateInput;
use onepass::resource::bootstrap_plaintext;
use onepass::resource::create;
use onepass::resource::delete;
use onepass::resource::get;
use onepass::resource::list;
use onepass::resource::parse_all;
use onepass::resource::update;

fn record(name: &str, user: &str, password: &str) -> Instance {
    Instance {
        name: String::from(name),
        user: String::from(user),
        password: String::from(password),
    }
}

#[test]
fn bootstrap_is_empty() {
    let content = bootstrap_plaintext();
    assert_eq!(content, "");
    assert_eq!(parse_all(&content).expect("parsing").len(), 0);
    assert_eq!(list(&content).expect("listing").len(), 0);
}

#[test]
fn create_then_get_round_trip() {
    let content = bootstrap_plaintext();
    let content = create(&record("twitter", "u@x.com", "p"), &content).expect("creating");
    let got = get("twitter", &content).expect("getting");
    assert_eq!(got.name, "twitter");
    assert_eq!(got.user, "u@x.com");
    assert_eq!(got.password, "p");
}

#[test]
fn create_trims_the_name() {
    let content = bootstrap_plaintext();
    let content = create(&record("  twitter  ", "u@x.com", "p"), &content).expect("creating");
    let got = get("twitter", &content).expect("getting");
    assert_eq!(got.name, "twitter");
}

#[test]
fn create_same_name_already_exists() {
    let content = bootstrap_plaintext();
    let content = create(&record("twitter", "u@x.com", "p"), &content).expect("creating");
    let second = create(&record(" twitter ", "other", "q"), &content);
    assert_eq!(second.unwrap_err(), VaultError::AlreadyExists);
    // the refused create returned no new stream; the count is unchanged
    assert_eq!(list(&content).expect("listing").len(), 1);
}

#[test]
fn create_rejects_reserved_names() {
    let content = bootstrap_plaintext();
    assert_eq!(
        create(&record("resource", "u", "p"), &content).unwrap_err(),
        VaultError::InvalidInput
    );
    assert_eq!(
        create(&record("nonce", "u", "p"), &content).unwrap_err(),
        VaultError::InvalidInput
    );
    assert_eq!(
        create(&record("ok", "a\nb", "p"), &content).unwrap_err(),
        VaultError::InvalidInput
    );
}

#[test]
fn create_on_malformed_stream_fails() {
    let r = create(&record("a", "b", "c"), "resource\nonly-a-name\n");
    assert_eq!(r.unwrap_err(), VaultError::MalformedRecord);
}

#[test]
fn update_isolation_scenario() {
    let mut content = bootstrap_plaintext();
    for i in 0..3 {
        content = create(
            &record(
                &format!("name{}", i),
                &format!("user{}", i),
                &format!("password{}", i),
            ),
            &content,
        )
        .expect("creating");
    }
    content = update(UpdateInput {
        key: Key::User,
        val: String::from("new_user"),
        name: String::from("name1"),
        content,
    })
    .expect("updating");
    let names = list(&content).expect("listing");
    assert_eq!(names.len(), 3);
    let g1 = get("name1", &content).expect("getting");
    assert_eq!(g1.user, "new_user");
    assert_eq!(g1.password, "password1");
    for i in [0usize, 2] {
        let g = get(&format!("name{}", i), &content).expect("getting");
        assert_eq!(g.user, format!("user{}", i));
        assert_eq!(g.password, format!("password{}", i));
    }
}

#[test]
fn update_missing_name_not_found() {
    let content = create(&record("a", "b", "c"), &bootstrap_plaintext()).expect("creating");
    let r = update(UpdateInput {
        key: Key::User,
        val: String::from("x"),
        name: String::from("missing"),
        content,
    });
    assert_eq!(r.unwrap_err(), VaultError::NotFound);
}

#[test]
fn update_rejects_reserved_value() {
    let content = create(&record("a", "b", "c"), &bootstrap_plaintext()).expect("creating");
    let r = update(UpdateInput {
        key: Key::Password,
        val: String::from("resource"),
        name: String::from("a"),
        content,
    });
    assert_eq!(r.unwrap_err(), VaultError::InvalidInput);
}

#[test]
fn delete_then_get_not_found() {
    let mut content = bootstrap_plaintext();
    content = create(&record("a", "ua", "pa"), &content).expect("creating");
    content = create(&record("b", "ub", "pb"), &content).expect("creating");
    content = delete("a", content).expect("deleting");
    assert_eq!(get("a", &content).unwrap_err(), VaultError::NotFound);
    let got = get("b", &content).expect("getting");
    assert_eq!(got.user, "ub");
    assert_eq!(list(&content).expect("listing").len(), 1);
}

#[test]
fn vault_scenario() {
    let mut content = bootstrap_plaintext();
    for i in 0..5 {
        content = create(
            &record(
                &format!("name{}", i),
                &format!("user{}", i),
                &format!("password{}", i),
            ),
            &content,
        )
        .expect("creating");
    }
    let names = list(&content).expect("listing");
    let expected: Vec<String> = (0..5).map(|i| format!("name{}", i)).collect();
    assert_eq!(names, expected);

    content = update(UpdateInput {
        key: Key::Password,
        val: String::from("new_password"),
        name: String::from("name2"),
        content,
    })
    .expect("updating");
    let got = get("name2", &content).expect("getting");
    assert_eq!(got.password, "new_password");
    for i in [0usize, 1, 3, 4] {
        let g = get(&format!("name{}", i), &content).expect("getting");
        assert_eq!(g.user, format!("user{}", i));
        assert_eq!(g.password, format!("password{}", i));
    }

    content = delete("name1", content).expect("deleting");
    let names = list(&content).expect("listing");
    assert_eq!(names.len(), 4);
    assert!(!names.contains(&String::from("name1")));
}

#[test]
fn reserved_tokens() {
    assert!(is_reserved("resource"));
    assert!(is_reserved("nonce"));
    assert!(!is_reserved("twitter"));
}

#[test]
fn master_password_rules() {
    assert!(validate_master_password("secret").is_ok());
    assert_eq!(
        validate_master_password("").unwrap_err(),
        VaultError::InvalidInput
    );
    assert_eq!(
        validate_master_password("   ").unwrap_err(),
        VaultError::InvalidInput
    );
    assert_eq!(
        validate_master_password("a b").unwrap_err(),
        VaultError::InvalidInput
    );
}

#[test]
fn update_key_letters() {
    assert!(matches!(parse_update_key("n"), Some(Key::Name)));
    assert!(matches!(parse_update_key("u"), Some(Key::User)));
    assert!(matches!(parse_update_key("p"), Some(Key::Password)));
    assert!(parse_update_key("x").is_none());
}

#[test]
fn interrupt_protocol() {
    assert_eq!(interrupt_step(true, false, 0), InterruptDecision::Terminate);
    assert_eq!(interrupt_step(false, true, 0), InterruptDecision::Terminate);
    assert_eq!(interrupt_step(false, false, 0), InterruptDecision::Wait);
    assert_eq!(
        interrupt_step(false, false, MAX_INTERRUPT_POLLS - 1),
        InterruptDecision::Wait
    );
    assert_eq!(
        interrupt_step(false, false, MAX_INTERRUPT_POLLS),
        InterruptDecision::WarnAndTerminate
    );
}

#[test]
fn error_messages() {
    assert_eq!(VaultError::NotFound.message(), "Resource not found");
    assert_eq!(VaultError::AlreadyExists.message(), "Resource already exists");
    assert_eq!(
        VaultError::IncorrectPasswordOrCorruptData.message(),
        "Incorrect password - aborting."
    );
}

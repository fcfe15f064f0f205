use onepass::resource::Instance;
use onepass::resource::Key;
use onepass::resource::UpdateInput;
use onepass::resource::delete;
use onepass::resource::get;
use onepass::resource::update;

fn seed(amount: u8) -> String {
    let mut content = String::new();
    for i in 0..amount {
        content.push_str("resource\n");
        content.push_str(format!("name{}\n", i).as_str());
        content.push_str(format!("user{}\n", i).as_str());
        content.push_str(format!("password{}\n", i).as_str());
    }
    content
}

#[test]
fn test_get() {
    let name = "twitter";
    let user = "user@email.com";
    let password = "password";
    let content = format!("resource\n{}\n{}\n{}\n", name, user, password);

    let resource = get("twitter", &content).expect("getting");
    assert_eq!(resource.name, name);
    assert_eq!(resource.user, user);
    assert_eq!(resource.password, password);

    let err_result = get("does-not-exist", &content);
    assert_eq!(err_result.unwrap_err().message(), "Resource not found");
}

#[test]
fn test_get_many() {
    let mut long_content = String::new();
    let target_name = "website";
    let target_user = "website@user.com";
    let target_password = "websitepass";
    for i in 1..100 {
        if i == 50 {
            long_content.push_str("resource\n");
            long_content.push_str(format!("{}\n", target_name).as_str());
            long_content.push_str(format!("{}\n", target_user).as_str());
            long_content.push_str(format!("{}\n", target_password).as_str());
            continue;
        }
        long_content.push_str("resource\n");
        long_content.push_str(format!("name{}\n", i).as_str());
        long_content.push_str(format!("user{}\n", i).as_str());
        long_content.push_str(format!("password{}\n", i).as_str());
    }
    let long_result = get("website", &long_content).expect("getting long result");
    assert_eq!(long_result.name, target_name);
    assert_eq!(long_result.user, target_user);
    assert_eq!(long_result.password, target_password);
}

#[test]
fn test_update_name() {
    let new_value = "website";
    let content = seed(3);
    let updated = update(UpdateInput {
        key: Key::Name,
        val: String::from(new_value),
        name: String::from("name2"),
        content,
    })
    .expect("updating");
    let lines: Vec<&str> = updated.lines().collect();
    assert_eq!(lines[9], new_value);
    assert_eq!(lines[10], "user2");
    assert_eq!(lines[11], "password2");
}

#[test]
fn test_update_user() {
    let new_value = "new_user";
    let content = seed(3);
    let updated = update(UpdateInput {
        key: Key::User,
        val: String::from(new_value),
        name: String::from("name0"),
        content,
    })
    .expect("updating");
    let lines: Vec<&str> = updated.lines().collect();
    assert_eq!(lines[1], "name0");
    assert_eq!(lines[2], new_value);
    assert_eq!(lines[3], "password0");
}

#[test]
fn test_update_password() {
    let new_value = "new_password";
    let content = seed(3);
    let updated = update(UpdateInput {
        key: Key::Password,
        val: String::from(new_value),
        name: String::from("name1"),
        content,
    })
    .expect("updating");
    let lines: Vec<&str> = updated.lines().collect();
    assert_eq!(lines[5], "name1");
    assert_eq!(lines[6], "user1");
    assert_eq!(lines[7], new_value);
}

#[test]
fn test_delete() {
    let mut content = seed(3);
    let deleted = delete("name0", content).expect("deleting");
    let lines: Vec<&str> = deleted.lines().collect();
    assert_eq!(lines.len(), 8);
    assert!(!lines.contains(&"name0"));
    assert!(!lines.contains(&"user0"));
    assert!(!lines.contains(&"password0"));

    content = seed(3);
    let not_found = delete("non", content);
    assert_eq!(not_found.unwrap_err().message(), "Resource not found");
}

#[test]
fn test_get_malformed_stream() {
    let content = format!("resource\n{}\n{}\n", "name", "password");
    let r = get("twitter", &content);
    assert_eq!(r.unwrap_err(), onepass::errors::VaultError::MalformedRecord);
}

#[test]
fn test_format_block() {
    let inst = Instance {
        name: String::from("twitter"),
        user: String::from("u@x.com"),
        password: String::from("p"),
    };
    assert_eq!(inst.to_string(), "resource\ntwitter\nu@x.com\np\n");
}

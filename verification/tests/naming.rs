use backup::naming::{
    command_arguments, command_environment, composite_key, join_path, resolve_name,
    substitute_placeholder, transient_path, Timestamp, SUFFIX_LEN,
};

fn at(year: i32, month: u32, day: u32, hour: u32, minute: u32, second: u32) -> Timestamp {
    Timestamp { year, month, day, hour, minute, second }
}

fn pair(name: &str, value: &str) -> (String, String) {
    (String::from(name), String::from(value))
}

#[test]
fn date_tokens_resolve_to_padded_numbers() {
    let name = resolve_name("{year}-{month}-{day}", &at(2024, 3, 5, 0, 0, 0));
    assert_eq!(name, "2024-03-05");
}

#[test]
fn all_tokens_resolve() {
    let name = resolve_name(
        "db_{year}{month}{day}T{hour}{minute}{second}.zip",
        &at(2023, 12, 31, 23, 59, 7),
    );
    assert_eq!(name, "db_20231231T235907.zip");
}

#[test]
fn tokens_may_repeat_or_be_absent() {
    let moment = at(1999, 1, 2, 3, 4, 5);
    assert_eq!(resolve_name("backup", &moment), "backup");
    assert_eq!(resolve_name("{day}/{day}/{year}", &moment), "02/02/1999");
    assert_eq!(resolve_name("{Year}{ month }{days}", &moment), "{Year}{ month }{days}");
    assert_eq!(resolve_name("", &moment), "");
}

#[test]
fn resolving_twice_gives_the_same_name() {
    let moment = at(2024, 3, 5, 10, 20, 30);
    assert_eq!(
        resolve_name("{year}-{month}-{day}_{hour}{minute}{second}", &moment),
        resolve_name("{year}-{month}-{day}_{hour}{minute}{second}", &moment)
    );
}

#[test]
fn now_is_a_calendar_time() {
    let now = Timestamp::now();
    assert!(now.year >= 2024);
    assert!((1..=12).contains(&now.month));
    assert!((1..=31).contains(&now.day));
    assert!(now.hour <= 23);
    assert!(now.minute <= 59);
    assert!(now.second <= 59);
}

#[test]
fn composite_key_is_prefix_then_name() {
    assert_eq!(composite_key("daily/", "db_2024.zip"), "daily/db_2024.zip");
    assert_eq!(composite_key("", "db_2024.zip"), "db_2024.zip");
    assert_eq!(composite_key("p", ""), "p");
}

#[test]
fn join_path_puts_one_separator() {
    assert_eq!(join_path("/tmp", "abc"), "/tmp/abc");
    assert_eq!(join_path("/tmp/", "abc"), "/tmp/abc");
    assert_eq!(join_path("", "abc"), "abc");
}

#[test]
fn transient_paths_have_a_random_alphanumeric_name() {
    let path = transient_path("/tmp");
    assert!(path.starts_with("/tmp/"));
    let suffix = &path["/tmp/".len()..];
    assert_eq!(suffix.chars().count(), SUFFIX_LEN);
    assert_eq!(SUFFIX_LEN, 16);
    assert!(suffix.chars().all(|c| c.is_ascii_alphanumeric()));
    assert_ne!(transient_path("/tmp"), transient_path("/tmp"));
}

#[test]
fn placeholder_gives_way_to_the_capture_path() {
    assert_eq!(substitute_placeholder("--out=%BKP_CMD_TMPFILE%", "/tmp/x1"), "--out=/tmp/x1");
    assert_eq!(
        substitute_placeholder("%BKP_CMD_TMPFILE%:%BKP_CMD_TMPFILE%", "/t"),
        "/t:/t"
    );
    assert_eq!(substitute_placeholder("--verbose", "/tmp/x1"), "--verbose");
    assert_eq!(substitute_placeholder("%bkp_cmd_tmpfile%", "/tmp/x1"), "%bkp_cmd_tmpfile%");
}

#[test]
fn arguments_are_substituted_one_by_one() {
    let args = vec![
        String::from("dump"),
        String::from("-f"),
        String::from("%BKP_CMD_TMPFILE%"),
        String::from("--log=%BKP_CMD_TMPFILE%.log"),
    ];
    assert_eq!(
        command_arguments(&args, "/tmp/cap"),
        vec!["dump", "-f", "/tmp/cap", "--log=/tmp/cap.log"]
    );
    assert_eq!(command_arguments(&Vec::new(), "/tmp/cap"), Vec::<String>::new());
}

#[test]
fn environment_overlays_the_declared_variables() {
    let inherited = vec![pair("PATH", "/bin"), pair("OUT", "%BKP_CMD_TMPFILE%")];
    let declared = vec![pair("OUT", "%BKP_CMD_TMPFILE%"), pair("MODE", "full")];
    let env = command_environment(&inherited, &declared, "/tmp/cap");
    assert_eq!(
        env,
        vec![
            pair("PATH", "/bin"),
            pair("OUT", "%BKP_CMD_TMPFILE%"),
            pair("OUT", "/tmp/cap"),
            pair("MODE", "full"),
        ]
    );
    let last_out = env.iter().rev().find(|(name, _)| name == "OUT").unwrap();
    assert_eq!(last_out.1, "/tmp/cap");
}

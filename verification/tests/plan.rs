use backup::models::config::{Backup, Command, Destination, Directory, Packer, Target};
use backup::naming::Timestamp;
use backup::pipeline::{Action, Event};
use backup::plan::{copy_texts, copy_variables, CommandJob, DirectoryJob, Plan};

fn text(value: &str) -> Option<String> {
    Some(String::from(value))
}

fn destination(bucket: &str, key_prefix: &str) -> Destination {
    Destination {
        endpoint: String::from("https://s3.example"),
        access_key: String::from("AK"),
        secret_key: String::from("SK"),
        region: String::from("eu"),
        bucket: String::from(bucket),
        key_prefix: String::from(key_prefix),
    }
}

fn moment() -> Timestamp {
    Timestamp { year: 2024, month: 3, day: 5, hour: 7, minute: 8, second: 9 }
}

fn is_transient(path: &str, dir: &str) -> bool {
    match path.strip_prefix(dir) {
        Some(name) => name.len() == 16 && name.chars().all(|c| c.is_ascii_alphanumeric()),
        None => false,
    }
}

#[test]
fn plan_fills_in_the_target() {
    let target = Target {
        name: text("site_{year}-{month}-{day}.zip"),
        packer: Some(Packer { password: text("pw") }),
        backup: Some(Backup {
            directories: Some(vec![
                Directory { output: text("www"), source: text("/var/www") },
                Directory { output: None, source: text("/etc") },
            ]),
            commands: Some(vec![Command {
                output: text("db.sql"),
                command: text("pg_dump"),
                args: Some(vec![String::from("-f"), String::from("%BKP_CMD_TMPFILE%")]),
                env: Some(vec![(String::from("PGPASSFILE"), String::from("%BKP_CMD_TMPFILE%.pass"))]),
            }]),
        }),
    };
    let destinations = vec![destination("one", "daily/"), destination("two", "")];
    let plan = Plan::new(&target, &destinations, &moment(), "/tmp");
    assert_eq!(plan.name, "site_2024-03-05.zip");
    assert_eq!(plan.password, "pw");
    assert!(is_transient(&plan.archive_path, "/tmp/"));
    assert_eq!(plan.directories.len(), 2);
    assert_eq!(plan.directories[0].source, "/var/www");
    assert_eq!(plan.directories[0].output, "www");
    assert_eq!(plan.directories[1].source, "/etc");
    assert_eq!(plan.directories[1].output, "");
    assert_eq!(plan.commands.len(), 1);
    let job = &plan.commands[0];
    assert_eq!(job.command, "pg_dump");
    assert_eq!(job.output, "db.sql");
    assert_eq!(job.args, vec!["-f", "%BKP_CMD_TMPFILE%"]);
    assert!(is_transient(&job.capture, "/tmp/"));
    assert_ne!(job.capture, plan.archive_path);
    assert_eq!(job.arguments(), vec![String::from("-f"), job.capture.clone()]);
    let env = job.environment(&vec![(String::from("HOME"), String::from("/root"))]);
    assert_eq!(
        env,
        vec![
            (String::from("HOME"), String::from("/root")),
            (String::from("PGPASSFILE"), format!("{}.pass", job.capture)),
        ]
    );
    assert_eq!(plan.keys, vec!["daily/site_2024-03-05.zip", "site_2024-03-05.zip"]);
}

#[test]
fn plan_of_a_bare_target_has_defaults() {
    let target = Target { name: None, packer: None, backup: None };
    let plan = Plan::new(&target, &Vec::new(), &moment(), "");
    assert_eq!(plan.name, "backup");
    assert_eq!(plan.password, "");
    assert!(is_transient(&plan.archive_path, ""));
    assert!(plan.directories.is_empty());
    assert!(plan.commands.is_empty());
    assert!(plan.keys.is_empty());
    let mut pipeline = plan.pipeline();
    assert_eq!(
        pipeline.step(Event::Start),
        Action::Finish(backup::pipeline::Outcome::Skipped)
    );
}

#[test]
fn plan_gives_the_pipeline_its_counts() {
    let target = Target {
        name: None,
        packer: None,
        backup: Some(Backup {
            directories: None,
            commands: Some(vec![
                Command { output: None, command: None, args: None, env: None },
                Command { output: None, command: None, args: None, env: None },
            ]),
        }),
    };
    let plan = Plan::new(&target, &vec![destination("b", "p/")], &moment(), "/tmp/");
    let pipeline = plan.pipeline();
    assert_eq!((pipeline.directories, pipeline.commands, pipeline.uploads), (0, 2, 1));
    assert_ne!(plan.commands[0].capture, plan.commands[1].capture);
    assert_eq!(plan.commands[0].command, "");
    assert!(plan.commands[0].args.is_empty());
    assert!(plan.commands[0].env.is_empty());
    assert_eq!(plan.keys, vec!["p/backup"]);
}

#[test]
fn jobs_copy_the_configured_actions() {
    let directory = Directory { output: text("o"), source: None };
    let job = DirectoryJob::of(&directory);
    assert_eq!((job.source.as_str(), job.output.as_str()), ("", "o"));
    let command = Command {
        output: None,
        command: text("tar"),
        args: Some(vec![String::from("c")]),
        env: None,
    };
    let job = CommandJob::of(&command, String::from("/tmp/c"));
    assert_eq!(job.command, "tar");
    assert_eq!(job.output, "");
    assert_eq!(job.args, vec!["c"]);
    assert!(job.env.is_empty());
    assert_eq!(job.capture, "/tmp/c");
}

#[test]
fn lists_are_copied_in_order() {
    let list = vec![String::from("a"), String::from(""), String::from("c")];
    assert_eq!(copy_texts(&list), list);
    let pairs = vec![(String::from("A"), String::from("1")), (String::from("B"), String::from(""))];
    assert_eq!(copy_variables(&pairs), pairs);
}

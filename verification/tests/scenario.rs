use backup::models::config::{Backup, Command, Destination, Directory, Target};
use backup::naming::Timestamp;
use backup::packaging::archive::{read_path, Archive};
use backup::packaging::tree::Node;
use backup::pipeline::{Action, Event, Outcome};
use backup::plan::Plan;
use std::io::{Cursor, Read};
use zip::ZipArchive;

fn text(value: &str) -> Option<String> {
    Some(String::from(value))
}

fn destination() -> Destination {
    Destination {
        endpoint: String::from("https://s3.example"),
        access_key: String::from("AK"),
        secret_key: String::from("SK"),
        region: String::from("eu"),
        bucket: String::from("bucket"),
        key_prefix: String::from("nightly/"),
    }
}

fn moment() -> Timestamp {
    Timestamp { year: 2024, month: 3, day: 5, hour: 0, minute: 0, second: 0 }
}

fn entries(bytes: &[u8]) -> Vec<(String, Vec<u8>)> {
    let mut archive = ZipArchive::new(Cursor::new(bytes.to_vec())).unwrap();
    let mut out = Vec::new();
    for i in 0..archive.len() {
        let mut entry = archive.by_index(i).unwrap();
        let mut content = Vec::new();
        entry.read_to_end(&mut content).unwrap();
        out.push((String::from(entry.name()), content));
    }
    out
}

struct Run {
    trace: Vec<Action>,
    uploads: Vec<(String, Vec<u8>)>,
    outcome: Outcome,
}

fn run(plan: &Plan, data: &Vec<Node>, capture: Option<&[u8]>, failing_uploads: u32) -> Run {
    let mut pipeline = plan.pipeline();
    let mut archive: Option<Archive> = None;
    let mut sealed: Vec<u8> = Vec::new();
    let mut trace = Vec::new();
    let mut uploads = Vec::new();
    let mut failures_left = failing_uploads;
    let mut action = pipeline.step(Event::Start);
    loop {
        trace.push(action);
        let event = match action {
            Action::CreateArchive => {
                archive = Some(Archive::new(plan.archive_path.clone(), plan.password.clone()));
                Event::Succeeded
            }
            Action::PackDirectory(i) => {
                let job = &plan.directories[i];
                assert_eq!(read_path(&job.source, ""), job.source);
                let packed = archive.as_mut().unwrap().pack_dir(data, job.output.clone(), String::new());
                if packed.is_ok() { Event::Succeeded } else { Event::Failed }
            }
            Action::RunCommand(_) => {
                if capture.is_some() { Event::CapturePresent } else { Event::CaptureMissing }
            }
            Action::PackCapture(j) => {
                let packed = archive
                    .as_mut()
                    .unwrap()
                    .pack_file(capture.unwrap(), plan.commands[j].output.clone());
                if packed.is_ok() { Event::Succeeded } else { Event::Failed }
            }
            Action::RemoveCapture(_) => Event::Succeeded,
            Action::Seal => match archive.as_mut().unwrap().finish() {
                Ok(bytes) => {
                    sealed = bytes;
                    Event::Succeeded
                }
                Err(_) => Event::Failed,
            },
            Action::Upload(k) => {
                if failures_left > 0 {
                    failures_left -= 1;
                    Event::Failed
                } else {
                    uploads.push((plan.keys[k].clone(), sealed.clone()));
                    Event::Succeeded
                }
            }
            Action::RemoveArchive => Event::Succeeded,
            Action::Finish(outcome) => {
                assert!(!pipeline.archive_live);
                assert_eq!(pipeline.capture_live, None);
                return Run { trace, uploads, outcome };
            }
        };
        action = pipeline.step(event);
    }
}

#[test]
fn directory_target_is_packed_uploaded_once_and_removed() {
    let target = Target {
        name: text("data_{year}-{month}-{day}"),
        packer: None,
        backup: Some(Backup {
            directories: Some(vec![Directory { source: text("/data"), output: text("") }]),
            commands: None,
        }),
    };
    let data = vec![
        Node::File { name: String::from("a.txt"), content: b"first".to_vec() },
        Node::Dir {
            name: String::from("sub"),
            children: vec![Node::File { name: String::from("b.txt"), content: b"second".to_vec() }],
        },
    ];
    let plan = Plan::new(&target, &vec![destination()], &moment(), "/tmp");
    let run = run(&plan, &data, None, 0);
    assert_eq!(run.outcome, Outcome::Done);
    assert_eq!(
        run.trace,
        vec![
            Action::CreateArchive,
            Action::PackDirectory(0),
            Action::Seal,
            Action::Upload(0),
            Action::RemoveArchive,
            Action::Finish(Outcome::Done),
        ]
    );
    assert_eq!(run.uploads.len(), 1);
    assert_eq!(run.uploads[0].0, "nightly/data_2024-03-05");
    assert_eq!(
        entries(&run.uploads[0].1),
        vec![
            (String::from("a.txt"), b"first".to_vec()),
            (String::from("sub/b.txt"), b"second".to_vec()),
        ]
    );
}

fn command_target() -> Target {
    Target {
        name: text("dump"),
        packer: None,
        backup: Some(Backup {
            directories: None,
            commands: Some(vec![Command {
                output: text("db/dump.sql"),
                command: text("dump"),
                args: Some(vec![String::from("%BKP_CMD_TMPFILE%")]),
                env: None,
            }]),
        }),
    }
}

#[test]
fn command_that_writes_nothing_adds_no_entry_and_does_not_abort() {
    let plan = Plan::new(&command_target(), &vec![destination()], &moment(), "/tmp");
    let run = run(&plan, &Vec::new(), None, 0);
    assert_eq!(run.outcome, Outcome::Done);
    assert_eq!(
        run.trace,
        vec![
            Action::CreateArchive,
            Action::RunCommand(0),
            Action::Seal,
            Action::Upload(0),
            Action::RemoveArchive,
            Action::Finish(Outcome::Done),
        ]
    );
    assert_eq!(run.uploads.len(), 1);
    assert_eq!(entries(&run.uploads[0].1), Vec::new());
}

#[test]
fn command_output_becomes_the_entry_at_its_output_name() {
    let plan = Plan::new(&command_target(), &vec![destination()], &moment(), "/tmp");
    let written: &[u8] = b"CREATE TABLE t (id int);\n\x00\xff";
    let run = run(&plan, &Vec::new(), Some(written), 0);
    assert_eq!(run.outcome, Outcome::Done);
    assert_eq!(
        run.trace,
        vec![
            Action::CreateArchive,
            Action::RunCommand(0),
            Action::PackCapture(0),
            Action::RemoveCapture(0),
            Action::Seal,
            Action::Upload(0),
            Action::RemoveArchive,
            Action::Finish(Outcome::Done),
        ]
    );
    assert_eq!(
        entries(&run.uploads[0].1),
        vec![(String::from("db/dump.sql"), written.to_vec())]
    );
}

#[test]
fn upload_is_delivered_after_failures() {
    let plan = Plan::new(&command_target(), &vec![destination(), destination()], &moment(), "/tmp");
    let run = run(&plan, &Vec::new(), Some(b"x"), 3);
    assert_eq!(run.outcome, Outcome::Done);
    assert_eq!(run.uploads.len(), 2);
    let attempts = run.trace.iter().filter(|a| **a == Action::Upload(0)).count();
    assert_eq!(attempts, 4);
}

#[test]
fn overlong_entry_name_aborts_the_run_and_cleans_up() {
    let target = Target {
        name: None,
        packer: None,
        backup: Some(Backup {
            directories: Some(vec![Directory { source: text("/data"), output: None }]),
            commands: None,
        }),
    };
    let data = vec![Node::File { name: "x".repeat(70000), content: Vec::new() }];
    let plan = Plan::new(&target, &vec![destination()], &moment(), "/tmp");
    let run = run(&plan, &data, None, 0);
    assert_eq!(run.outcome, Outcome::Aborted);
    assert_eq!(
        run.trace,
        vec![
            Action::CreateArchive,
            Action::PackDirectory(0),
            Action::RemoveArchive,
            Action::Finish(Outcome::Aborted),
        ]
    );
    assert!(run.uploads.is_empty());
}

#[test]
fn read_path_goes_into_the_subdirectory() {
    assert_eq!(read_path("/data", ""), "/data");
    assert_eq!(read_path("/data/", "sub"), "/data/sub/");
    assert_eq!(read_path("/data", "/sub/"), "/data/sub/");
    assert_eq!(read_path("/data", "sub"), "/data/sub/");
    assert_eq!(read_path("/data", "sub/deep"), "/data/sub/deep/");
    assert_eq!(read_path("/data", "/"), "/data");
    assert_eq!(read_path("", "sub"), "sub/");
}

//! The plan of one target's run: its resolved name, the transient paths that the
//! run uses, the actions with their defaults filled in, and the storage keys.

use crate::models::config::copy_or_empty;
use crate::models::config::text_or_empty;
use crate::models::config::Command;
use crate::models::config::Destination;
use crate::models::config::Directory;
use crate::models::config::Target;
use crate::naming::command_arguments;
use crate::naming::command_environment;
use crate::naming::composite_key;
use crate::naming::is_transient_path;
use crate::naming::overlaid;
use crate::naming::substituted_args;
use crate::naming::texts;
use crate::naming::variables;
use crate::naming::resolve_name;
use crate::naming::resolved_name;
use crate::naming::transient_path;
use crate::naming::Timestamp;
use crate::pipeline::Pipeline;
use crate::pipeline::Step;
use vstd::prelude::*;

verus! {

/// A directory action: the directory to capture and the archive path below which its
/// files go.
#[derive(Debug)]
pub struct DirectoryJob {
    pub source: String,
    pub output: String,
}

/// A command action: the command with its arguments and declared environment as
/// configured, the archive name of the captured file, and the transient path of the
/// capture file.
#[derive(Debug)]
pub struct CommandJob {
    pub command: String,
    pub args: Vec<String>,
    pub env: Vec<(String, String)>,
    pub output: String,
    pub capture: String,
}

/// What the run of one target works from.
#[derive(Debug)]
pub struct Plan {
    /// The resolved name of the target.
    pub name: String,
    /// The password of the archive; empty for none.
    pub password: String,
    /// The transient path of the archive file.
    pub archive_path: String,
    /// The directory actions, in their order.
    pub directories: Vec<DirectoryJob>,
    /// The command actions, in their order.
    pub commands: Vec<CommandJob>,
    /// The storage key of the archive for each storage backend, in their order.
    pub keys: Vec<String>,
}

/// The arguments of a configured command; none where the field is absent.
pub open spec fn declared_args(command: Command) -> Seq<Seq<char>> {
    match command.args {
        Some(args) => texts(args@),
        None => Seq::empty(),
    }
}

/// The declared environment of a configured command; empty where the field is absent.
pub open spec fn declared_env(command: Command) -> Seq<(Seq<char>, Seq<char>)> {
    match command.env {
        Some(env) => variables(env@),
        None => Seq::empty(),
    }
}

/// A copy of a list of strings.
pub fn copy_texts(list: &Vec<String>) -> (out: Vec<String>)
    ensures
        texts(out@) == texts(list@),
{
    let mut out: Vec<String> = Vec::new();
    let mut i: usize = 0;
    while i < list.len()
        invariant
            i <= list.len(),
            out@.len() == i,
            forall|k: int| 0 <= k < i ==> (#[trigger] out@[k])@ == list@[k]@,
        decreases list.len() - i,
    {
        out.push(list[i].clone());
        i += 1;
    }
    assert(texts(out@) =~= texts(list@));
    out
}

/// A copy of a list of variables.
pub fn copy_variables(list: &Vec<(String, String)>) -> (out: Vec<(String, String)>)
    ensures
        variables(out@) == variables(list@),
{
    let mut out: Vec<(String, String)> = Vec::new();
    let mut i: usize = 0;
    while i < list.len()
        invariant
            i <= list.len(),
            out@.len() == i,
            forall|k: int|
                0 <= k < i ==> (#[trigger] out@[k]).0@ == list@[k].0@ && out@[k].1@
                    == list@[k].1@,
        decreases list.len() - i,
    {
        out.push((list[i].0.clone(), list[i].1.clone()));
        i += 1;
    }
    assert(variables(out@) =~= variables(list@));
    out
}

impl DirectoryJob {
    /// Whether the job is the given directory action, with absent fields empty.
    pub open spec fn describes(self, directory: Directory) -> bool {
        &&& self.source@ == text_or_empty(directory.source)
        &&& self.output@ == text_or_empty(directory.output)
    }

    /// The job of a configured directory action.
    pub fn of(directory: &Directory) -> (job: DirectoryJob)
        ensures
            job.describes(*directory),
    {
        DirectoryJob {
            source: copy_or_empty(&directory.source),
            output: copy_or_empty(&directory.output),
        }
    }
}

impl CommandJob {
    /// Whether the job is the given command action, with absent fields empty, and
    /// captures at the given path.
    pub open spec fn describes(self, command: Command, capture: Seq<char>) -> bool {
        &&& self.command@ == text_or_empty(command.command)
        &&& self.output@ == text_or_empty(command.output)
        &&& texts(self.args@) == declared_args(command)
        &&& variables(self.env@) == declared_env(command)
        &&& self.capture@ == capture
    }

    /// The job of a configured command action that captures at the given path.
    pub fn of(command: &Command, capture: String) -> (job: CommandJob)
        ensures
            job.describes(*command, capture@),
    {
        let args = match &command.args {
            Some(args) => copy_texts(args),
            None => Vec::new(),
        };
        let env = match &command.env {
            Some(env) => copy_variables(env),
            None => Vec::new(),
        };
        proof {
            assert(texts(Seq::<String>::empty()) =~= Seq::<Seq<char>>::empty());
            assert(variables(Seq::<(String, String)>::empty()) =~= Seq::<
                (Seq<char>, Seq<char>),
            >::empty());
        }
        CommandJob {
            command: copy_or_empty(&command.command),
            args,
            env,
            output: copy_or_empty(&command.output),
            capture,
        }
    }

    /// The arguments to run the command with: the configured ones, each with the
    /// placeholder token replaced by the path of the capture file.
    pub fn arguments(&self) -> (out: Vec<String>)
        ensures
            texts(out@) == substituted_args(texts(self.args@), self.capture@),
    {
        command_arguments(&self.args, self.capture.as_str())
    }

    /// The environment to run the command in: the inherited variables, followed by
    /// the declared ones with the placeholder token in their values replaced by the
    /// path of the capture file.
    pub fn environment(&self, inherited: &Vec<(String, String)>) -> (out: Vec<(String, String)>)
        ensures
            variables(out@) == overlaid(variables(inherited@), variables(self.env@), self.capture@),
    {
        command_environment(inherited, &self.env, self.capture.as_str())
    }
}

impl Plan {
    /// Whether the plan is that of the given target at the given time: the target's
    /// name template resolved at that time, its password, its actions in their order
    /// with a transient capture path for each command, a transient path for the
    /// archive, and for each storage backend the key made of its prefix and the
    /// resolved name.
    pub open spec fn describes(
        self,
        target: Target,
        destinations: Seq<Destination>,
        at: Timestamp,
        temp_dir: Seq<char>,
    ) -> bool {
        &&& self.name@ == resolved_name(target.name_template(), at)
        &&& self.password@ == target.password()
        &&& is_transient_path(self.archive_path@, temp_dir)
        &&& self.directories@.len() == target.directories().len()
        &&& forall|i: int|
            0 <= i < self.directories@.len() ==> (#[trigger] self.directories@[i]).describes(
                target.directories()[i],
            )
        &&& self.commands@.len() == target.commands().len()
        &&& forall|j: int|
            0 <= j < self.commands@.len() ==> {
                &&& (#[trigger] self.commands@[j]).describes(
                    target.commands()[j],
                    self.commands@[j].capture@,
                )
                &&& is_transient_path(self.commands@[j].capture@, temp_dir)
            }
        &&& self.keys@.len() == destinations.len()
        &&& forall|k: int|
            0 <= k < self.keys@.len() ==> (#[trigger] self.keys@[k])@
                == destinations[k].key_prefix@ + self.name@
    }

    /// Plans the run of a target at the given time, with transient files in the given
    /// directory.
    pub fn new(target: &Target, destinations: &Vec<Destination>, at: &Timestamp, temp_dir: &str) -> (plan:
        Plan)
        ensures
            plan.describes(*target, destinations@, *at, temp_dir@),
    {
        let template = target.copy_name_template();
        let name = resolve_name(template.as_str(), at);
        let password = target.copy_password();
        let archive_path = transient_path(temp_dir);
        let mut directories: Vec<DirectoryJob> = Vec::new();
        let mut commands: Vec<CommandJob> = Vec::new();
        if let Some(backup) = &target.backup {
            if let Some(list) = &backup.directories {
                let mut i: usize = 0;
                while i < list.len()
                    invariant
                        i <= list.len(),
                        directories@.len() == i,
                        forall|k: int|
                            0 <= k < i ==> (#[trigger] directories@[k]).describes(list@[k]),
                    decreases list.len() - i,
                {
                    directories.push(DirectoryJob::of(&list[i]));
                    i += 1;
                }
            }
            if let Some(list) = &backup.commands {
                let mut j: usize = 0;
                while j < list.len()
                    invariant
                        j <= list.len(),
                        commands@.len() == j,
                        forall|k: int|
                            0 <= k < j ==> {
                                &&& (#[trigger] commands@[k]).describes(
                                    list@[k],
                                    commands@[k].capture@,
                                )
                                &&& is_transient_path(commands@[k].capture@, temp_dir@)
                            },
                    decreases list.len() - j,
                {
                    let capture = transient_path(temp_dir);
                    commands.push(CommandJob::of(&list[j], capture));
                    j += 1;
                }
            }
        }
        let mut keys: Vec<String> = Vec::new();
        let mut k: usize = 0;
        while k < destinations.len()
            invariant
                k <= destinations.len(),
                keys@.len() == k,
                forall|n: int|
                    0 <= n < k ==> (#[trigger] keys@[n])@ == destinations@[n].key_prefix@
                        + name@,
            decreases destinations.len() - k,
        {
            keys.push(composite_key(destinations[k].key_prefix.as_str(), name.as_str()));
            k += 1;
        }
        Plan { name, password, archive_path, directories, commands, keys }
    }

    /// The state of the plan's run before it has begun.
    pub fn pipeline(&self) -> (pipeline: Pipeline)
        ensures
            pipeline == (Pipeline {
                directories: self.directories@.len() as usize,
                commands: self.commands@.len() as usize,
                uploads: self.keys@.len() as usize,
                step: Step::Idle,
                archive_live: false,
                capture_live: None,
                archive_left: false,
                capture_left: None,
            }),
            pipeline.wf(),
    {
        Pipeline::new(self.directories.len(), self.commands.len(), self.keys.len())
    }
}

} // verus!

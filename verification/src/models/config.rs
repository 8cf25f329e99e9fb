//! The backup configuration: storage backends and backup targets.
//!
//! Every field may be absent. An absent field stands for an empty value, except for the
//! fields that a run cannot do without: the two lists of the configuration, and the
//! connection data and bucket of each storage backend.

use vstd::prelude::*;
use vstd::string::StringExecFns;

verus! {

/// The whole configuration: where archives go and what is backed up.
#[derive(Debug)]
pub struct Config {
    pub storages: Option<Vec<Storage>>,
    pub targets: Option<Vec<Target>>,
}

/// One object-storage backend.
#[derive(Debug)]
pub struct Storage {
    pub storage_type: Option<String>,
    pub endpoint: Option<String>,
    pub access_key: Option<String>,
    pub secret_key: Option<String>,
    pub region: Option<String>,
    pub bucket: Option<String>,
    pub key_prefix: Option<String>,
}

/// One backup target: a name template, a packing policy and the actions to run.
#[derive(Debug)]
pub struct Target {
    pub name: Option<String>,
    pub packer: Option<Packer>,
    pub backup: Option<Backup>,
}

/// The actions of a target: directories to capture, then commands to capture.
#[derive(Debug)]
pub struct Backup {
    pub directories: Option<Vec<Directory>>,
    pub commands: Option<Vec<Command>>,
}

/// A command whose output file is captured into the archive.
#[derive(Debug)]
pub struct Command {
    pub output: Option<String>,
    pub command: Option<String>,
    pub args: Option<Vec<String>>,
    pub env: Option<Vec<(String, String)>>,
}

/// A directory that is captured into the archive.
#[derive(Debug)]
pub struct Directory {
    pub output: Option<String>,
    pub source: Option<String>,
}

/// How the archive of a target is packed.
#[derive(Debug)]
pub struct Packer {
    pub password: Option<String>,
}

/// A field that a storage backend cannot do without.
#[derive(Clone, Copy, Debug, PartialEq, Eq, Structural)]
pub enum StorageField {
    AccessKey,
    SecretKey,
    Region,
    Endpoint,
    Bucket,
}

/// Why a configuration cannot be run.
#[derive(Clone, Copy, Debug, PartialEq, Eq, Structural)]
pub enum ConfigError {
    /// The configuration has no list of targets.
    MissingTargets,
    /// The configuration has no list of storage backends.
    MissingStorages,
    /// The storage backend at the given position lacks the given field.
    MissingField { storage: usize, field: StorageField },
}

/// A storage backend with all that an upload needs.
#[derive(Debug)]
pub struct Destination {
    pub endpoint: String,
    pub access_key: String,
    pub secret_key: String,
    pub region: String,
    pub bucket: String,
    pub key_prefix: String,
}

/// The text of an optional field: empty where the field is absent.
pub open spec fn text_or_empty(field: Option<String>) -> Seq<char> {
    match field {
        Some(text) => text@,
        None => Seq::empty(),
    }
}

/// The name template of a target without a name.
pub open spec fn default_name() -> Seq<char> {
    "backup"@
}

/// A copy of an optional text; the empty text where it is absent.
pub fn copy_or_empty(field: &Option<String>) -> (text: String)
    ensures
        text@ == text_or_empty(*field),
{
    match field {
        Some(text) => text.clone(),
        None => String::new(),
    }
}

impl StorageField {
    /// The field's name in messages.
    pub fn label(&self) -> (label: &'static str)
        ensures
            label@ == match *self {
                StorageField::AccessKey => "access_key"@,
                StorageField::SecretKey => "secret_key"@,
                StorageField::Region => "region"@,
                StorageField::Endpoint => "endpoint"@,
                StorageField::Bucket => "bucket"@,
            },
    {
        match self {
            StorageField::AccessKey => "access_key",
            StorageField::SecretKey => "secret_key",
            StorageField::Region => "region",
            StorageField::Endpoint => "endpoint",
            StorageField::Bucket => "bucket",
        }
    }
}

impl ConfigError {
    /// The text of the error: what is missing.
    pub open spec fn text(self) -> Seq<char> {
        match self {
            ConfigError::MissingTargets => "Missing targets"@,
            ConfigError::MissingStorages => "Missing storages"@,
            ConfigError::MissingField { field: StorageField::AccessKey, .. } => "Missing access_key"@,
            ConfigError::MissingField { field: StorageField::SecretKey, .. } => "Missing secret_key"@,
            ConfigError::MissingField { field: StorageField::Region, .. } => "Missing region"@,
            ConfigError::MissingField { field: StorageField::Endpoint, .. } => "Missing endpoint"@,
            ConfigError::MissingField { field: StorageField::Bucket, .. } => "No bucket specified!"@,
        }
    }

    /// The text of the error, for the user.
    pub fn message(&self) -> (message: String)
        ensures
            message@ == self.text(),
    {
        let text = match self {
            ConfigError::MissingTargets => "Missing targets",
            ConfigError::MissingStorages => "Missing storages",
            ConfigError::MissingField { field: StorageField::AccessKey, .. } => "Missing access_key",
            ConfigError::MissingField { field: StorageField::SecretKey, .. } => "Missing secret_key",
            ConfigError::MissingField { field: StorageField::Region, .. } => "Missing region",
            ConfigError::MissingField { field: StorageField::Endpoint, .. } => "Missing endpoint",
            ConfigError::MissingField { field: StorageField::Bucket, .. } => "No bucket specified!",
        };
        String::from_str(text)
    }
}

impl Storage {
    /// The first of the required fields that is absent, in the order access key,
    /// secret key, region, endpoint, bucket.
    pub open spec fn missing_field(self) -> Option<StorageField> {
        if self.access_key is None {
            Some(StorageField::AccessKey)
        } else if self.secret_key is None {
            Some(StorageField::SecretKey)
        } else if self.region is None {
            Some(StorageField::Region)
        } else if self.endpoint is None {
            Some(StorageField::Endpoint)
        } else if self.bucket is None {
            Some(StorageField::Bucket)
        } else {
            None
        }
    }

    /// The storage backend as an upload destination, or the first required field that
    /// it lacks.
    pub fn destination(&self) -> (result: Result<Destination, StorageField>)
        ensures
            match result {
                Ok(destination) => self.missing_field() is None && destination.describes(*self),
                Err(field) => self.missing_field() == Some(field),
            },
    {
        let access_key = match &self.access_key {
            Some(text) => text.clone(),
            None => {
                return Err(StorageField::AccessKey);
            },
        };
        let secret_key = match &self.secret_key {
            Some(text) => text.clone(),
            None => {
                return Err(StorageField::SecretKey);
            },
        };
        let region = match &self.region {
            Some(text) => text.clone(),
            None => {
                return Err(StorageField::Region);
            },
        };
        let endpoint = match &self.endpoint {
            Some(text) => text.clone(),
            None => {
                return Err(StorageField::Endpoint);
            },
        };
        let bucket = match &self.bucket {
            Some(text) => text.clone(),
            None => {
                return Err(StorageField::Bucket);
            },
        };
        let key_prefix = copy_or_empty(&self.key_prefix);
        Ok(Destination { endpoint, access_key, secret_key, region, bucket, key_prefix })
    }
}

impl Destination {
    /// Whether the destination holds the fields of the given storage backend, with an
    /// empty key prefix where the backend has none.
    pub open spec fn describes(self, storage: Storage) -> bool {
        &&& storage.missing_field() is None
        &&& self.endpoint@ == text_or_empty(storage.endpoint)
        &&& self.access_key@ == text_or_empty(storage.access_key)
        &&& self.secret_key@ == text_or_empty(storage.secret_key)
        &&& self.region@ == text_or_empty(storage.region)
        &&& self.bucket@ == text_or_empty(storage.bucket)
        &&& self.key_prefix@ == text_or_empty(storage.key_prefix)
    }
}

impl Config {
    /// Checks that the configuration can be run, and gives the upload destinations
    /// of its storage backends, in their order.
    ///
    /// The list of targets is looked for first, then the list of storage backends,
    /// then the required fields of each backend in turn: the first thing found missing
    /// is the error.
    pub fn validate(&self) -> (result: Result<Vec<Destination>, ConfigError>)
        ensures
            match result {
                Ok(destinations) => {
                    &&& self.targets is Some
                    &&& self.storages is Some
                    &&& destinations@.len() == self.storages->0@.len()
                    &&& forall|i: int|
                        0 <= i < destinations@.len() ==> (#[trigger] destinations@[i]).describes(
                            self.storages->0@[i],
                        )
                },
                Err(ConfigError::MissingTargets) => self.targets is None,
                Err(ConfigError::MissingStorages) => self.targets is Some && self.storages is None,
                Err(ConfigError::MissingField { storage, field }) => {
                    &&& self.targets is Some
                    &&& self.storages is Some
                    &&& storage < self.storages->0@.len()
                    &&& self.storages->0@[storage as int].missing_field() == Some(field)
                    &&& forall|i: int|
                        0 <= i < storage ==> (#[trigger] self.storages->0@[i]).missing_field()
                            is None
                },
            },
    {
        if self.targets.is_none() {
            return Err(ConfigError::MissingTargets);
        }
        let storages = match &self.storages {
            Some(storages) => storages,
            None => {
                return Err(ConfigError::MissingStorages);
            },
        };
        let mut destinations: Vec<Destination> = Vec::new();
        let mut i: usize = 0;
        while i < storages.len()
            invariant
                i <= storages.len(),
                self.targets is Some,
                self.storages == Some(*storages),
                destinations@.len() == i,
                forall|k: int|
                    0 <= k < i ==> (#[trigger] destinations@[k]).describes(storages@[k]),
                forall|k: int| 0 <= k < i ==> (#[trigger] storages@[k]).missing_field() is None,
            decreases storages.len() - i,
        {
            match storages[i].destination() {
                Ok(destination) => {
                    destinations.push(destination);
                },
                Err(field) => {
                    return Err(ConfigError::MissingField { storage: i, field });
                },
            }
            i += 1;
        }
        Ok(destinations)
    }
}

impl Target {
    /// The name template of the target: `backup` where it has no name.
    pub open spec fn name_template(self) -> Seq<char> {
        match self.name {
            Some(name) => name@,
            None => default_name(),
        }
    }

    /// The password of the target's archive: empty where none is set.
    pub open spec fn password(self) -> Seq<char> {
        match self.packer {
            Some(packer) => text_or_empty(packer.password),
            None => Seq::empty(),
        }
    }

    /// The directory actions of the target, in their order.
    pub open spec fn directories(self) -> Seq<Directory> {
        match self.backup {
            Some(Backup { directories: Some(directories), .. }) => directories@,
            _ => Seq::empty(),
        }
    }

    /// The command actions of the target, in their order.
    pub open spec fn commands(self) -> Seq<Command> {
        match self.backup {
            Some(Backup { commands: Some(commands), .. }) => commands@,
            _ => Seq::empty(),
        }
    }

    /// A copy of the target's name template.
    pub fn copy_name_template(&self) -> (name: String)
        ensures
            name@ == self.name_template(),
    {
        match &self.name {
            Some(name) => name.clone(),
            None => String::from_str("backup"),
        }
    }

    /// A copy of the password of the target's archive.
    pub fn copy_password(&self) -> (password: String)
        ensures
            password@ == self.password(),
    {
        match &self.packer {
            Some(packer) => copy_or_empty(&packer.password),
            None => String::new(),
        }
    }

    /// The number of directory actions.
    pub fn directory_count(&self) -> (count: usize)
        ensures
            count == self.directories().len(),
    {
        match &self.backup {
            Some(backup) => match &backup.directories {
                Some(directories) => directories.len(),
                None => 0,
            },
            None => 0,
        }
    }

    /// The number of command actions.
    pub fn command_count(&self) -> (count: usize)
        ensures
            count == self.commands().len(),
    {
        match &self.backup {
            Some(backup) => match &backup.commands {
                Some(commands) => commands.len(),
                None => 0,
            },
            None => 0,
        }
    }
}

} // verus!

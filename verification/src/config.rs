//! The configuration as it is read, and the locations it describes.

use vstd::prelude::*;
use vstd::string::StringExecFns;
use crate::backup_entity::{BackupEntity, EntityView};
use crate::global::{Global, LogLevel};
use crate::path::WatchPath;
use crate::text::{lowercase_of, replace_all, replaced, same_text, to_lowercase};

verus! {

/// What is found at a configured path.
#[derive(Clone, Copy, Debug, PartialEq, Eq, Structural)]
pub enum PathKind {
    File,
    Directory,
    /// Neither a file nor a directory, or nothing at all.
    Other,
}

/// A configured recursion mode that the path does not go with.
#[derive(Clone, Copy, Debug, PartialEq, Eq, Structural)]
pub enum RecursionNote {
    /// The path is a file, and the entry asks for recursion.
    FileSetRecursive,
    /// The path is a directory, and the entry asks for no recursion.
    DirectorySetPlain,
}

/// One `backup` entry of the configuration as it is read. `kind` is what the
/// filesystem holds at `path`.
#[derive(Debug)]
pub struct BackupModel {
    pub path: WatchPath,
    pub kind: PathKind,
    pub name: Option<String>,
    pub recursive: Option<bool>,
    pub changes: Option<u64>,
    pub timer: Option<u64>,
    pub command: String,
}

/// The configuration as it is read.
#[derive(Debug)]
pub struct ConfigModel {
    pub backups: Vec<BackupModel>,
    pub verbosity: Option<String>,
}

/// The validated configuration: the locations to watch, in the order in
/// which they were configured.
#[derive(Debug)]
pub struct Config {
    pub backups: Vec<BackupEntity>,
}

/// Why a configuration is rejected.
#[derive(Debug)]
pub enum ConfigError {
    /// The path, given as written, has no last component to name the entry by.
    PathParseError(String),
    /// A required setting is missing; the text says which.
    MissingRequiredField(String),
    /// The verbosity is none of the known levels.
    UnknownVariant(String),
}

/// A rejection as the contracts speak of it.
pub enum Rejection {
    PathParseError(Seq<char>),
    MissingRequiredField(Seq<char>),
    UnknownVariant(Seq<char>),
}

impl View for ConfigError {
    type V = Rejection;

    open spec fn view(&self) -> Rejection {
        match self {
            ConfigError::PathParseError(path) => Rejection::PathParseError(path@),
            ConfigError::MissingRequiredField(what) => Rejection::MissingRequiredField(what@),
            ConfigError::UnknownVariant(what) => Rejection::UnknownVariant(what@),
        }
    }
}

impl Rejection {
    /// The rejection in words.
    pub open spec fn message(self) -> Seq<char> {
        match self {
            Rejection::PathParseError(path) => "\""@ + path + "\" is not a valid path"@,
            Rejection::MissingRequiredField(what) => "invalid setting: "@ + what,
            Rejection::UnknownVariant(what) => "unknown variant: \""@ + what + "\""@,
        }
    }
}

impl ConfigError {
    /// The rejection in words.
    pub fn message(&self) -> (text: String)
        ensures
            text@ == self@.message(),
    {
        match self {
            ConfigError::PathParseError(path) => {
                let mut text = String::from_str("\"");
                text.append(path.as_str());
                text.append("\" is not a valid path");
                text
            },
            ConfigError::MissingRequiredField(what) => {
                let mut text = String::from_str("invalid setting: ");
                text.append(what.as_str());
                text
            },
            ConfigError::UnknownVariant(what) => {
                let mut text = String::from_str("unknown variant: \"");
                text.append(what.as_str());
                text.append("\"");
                text
            },
        }
    }
}

/// The text of an optional string.
pub open spec fn text_of(text: Option<String>) -> Option<Seq<char>> {
    match text {
        Some(t) => Some(t@),
        None => None,
    }
}

/// A threshold as a trigger: one that is absent or zero is not in use.
pub open spec fn active(threshold: Option<u64>) -> Option<u64> {
    match threshold {
        Some(n) => if n > 0 {
            Some(n)
        } else {
            None
        },
        None => None,
    }
}

/// Whether a location is watched recursively, from what is configured and
/// what the path is. A file is never watched recursively; without a setting a
/// directory is.
pub open spec fn recursive_default(recursive: Option<bool>, kind: PathKind) -> bool {
    match recursive {
        Some(true) => kind != PathKind::File,
        Some(false) => false,
        None => kind == PathKind::Directory,
    }
}

/// What is worth a warning about the recursion mode of an entry.
pub open spec fn recursion_note_of(recursive: Option<bool>, kind: PathKind) -> Option<RecursionNote> {
    match recursive {
        Some(true) => if kind == PathKind::File {
            Some(RecursionNote::FileSetRecursive)
        } else {
            None
        },
        Some(false) => if kind == PathKind::Directory {
            Some(RecursionNote::DirectorySetPlain)
        } else {
            None
        },
        None => None,
    }
}

/// The command with its placeholders filled in: the path as written for
/// `{{path}}` first, then the name for `{{name}}`.
pub open spec fn substituted(command: Seq<char>, path: Seq<char>, name: Seq<char>) -> Seq<char> {
    replaced(replaced(command, "{{path}}"@, path), "{{name}}"@, name)
}

/// The level that a lowercased name stands for.
pub open spec fn level_named(name: Seq<char>) -> Option<LogLevel> {
    if name == "error"@ {
        Some(LogLevel::Error)
    } else if name == "warn"@ {
        Some(LogLevel::Warn)
    } else if name == "info"@ {
        Some(LogLevel::Info)
    } else if name == "debug"@ {
        Some(LogLevel::Debug)
    } else if name == "trace"@ {
        Some(LogLevel::Trace)
    } else {
        None
    }
}

/// The verbosity that a configuration asks for: `Info` where it names none,
/// else the level that its setting names once lowercased; a setting that
/// names no level is rejected as it was written.
pub open spec fn requested_level(verbosity: Option<Seq<char>>) -> Result<LogLevel, Rejection> {
    match verbosity {
        None => Ok(LogLevel::Info),
        Some(written) => match level_named(lowercase_of(written)) {
            Some(level) => Ok(level),
            None => Err(Rejection::UnknownVariant(written)),
        },
    }
}

/// What is said of an entry that names neither trigger.
pub open spec fn no_trigger_text() -> Seq<char> {
    "both \"timer\" and \"changes\" are unset"@
}

/// A `backup` entry as the contracts speak of it.
pub struct ModelView {
    pub path: Seq<Seq<char>>,
    pub path_text: Seq<char>,
    pub kind: PathKind,
    pub name: Option<Seq<char>>,
    pub recursive: Option<bool>,
    pub changes: Option<u64>,
    pub timer: Option<u64>,
    pub command: Seq<char>,
}

impl View for BackupModel {
    type V = ModelView;

    open spec fn view(&self) -> ModelView {
        ModelView {
            path: self.path@,
            path_text: self.path.text@,
            kind: self.kind,
            name: text_of(self.name),
            recursive: self.recursive,
            changes: self.changes,
            timer: self.timer,
            command: self.command@,
        }
    }
}

impl ModelView {
    /// The entry named after the last component of its path.
    pub open spec fn with_alias(self) -> ModelView {
        ModelView { name: Some(self.path.last()), ..self }
    }

    /// The entry with its recursion mode settled.
    pub open spec fn with_recursive(self) -> ModelView {
        ModelView { recursive: Some(recursive_default(self.recursive, self.kind)), ..self }
    }

    /// The entry with the placeholders of its command filled in.
    pub open spec fn with_command(self) -> ModelView {
        ModelView {
            command: substituted(
                self.command,
                self.path_text,
                match self.name {
                    Some(name) => name,
                    None => Seq::empty(),
                },
            ),
            ..self
        }
    }

    /// The entry with all its defaults set.
    pub open spec fn with_defaults(self) -> ModelView {
        self.with_alias().with_recursive().with_command()
    }

    /// Whether at least one trigger is in use.
    pub open spec fn has_trigger(self) -> bool {
        active(self.changes) is Some || active(self.timer) is Some
    }

    /// The location that the entry describes: its trigger window opens at the
    /// epoch with no change seen.
    pub open spec fn entity(self) -> EntityView {
        EntityView {
            path: self.path,
            path_text: self.path_text,
            recursive: match self.recursive {
                Some(recursive) => recursive,
                None => false,
            },
            trigger_changes: active(self.changes),
            trigger_timer: active(self.timer),
            command: self.command,
            last_triggered: 0,
            changed: 0,
        }
    }

    /// The location that a valid entry describes, or why the entry is
    /// rejected: a path without components first, then an entry without a
    /// trigger in use.
    pub open spec fn checked(self) -> Result<EntityView, Rejection> {
        if self.path.len() == 0 {
            Err(Rejection::PathParseError(self.path_text))
        } else if !self.has_trigger() {
            Err(Rejection::MissingRequiredField(no_trigger_text()))
        } else {
            Ok(self.with_defaults().entity())
        }
    }
}

/// A location that comes out of a valid entry has a positive threshold
/// wherever it has one, and it has at least one.
pub proof fn lemma_checked_is_valid(model: ModelView)
    ensures
        model.checked() matches Ok(entity) ==> entity.is_valid(),
{
}

/// The level that a lowercased name stands for: one of `error`, `warn`,
/// `info`, `debug` and `trace`.
pub fn parse_level(name: &str) -> (level: Option<LogLevel>)
    ensures
        level == level_named(name@),
{
    if same_text(name, "error") {
        Some(LogLevel::Error)
    } else if same_text(name, "warn") {
        Some(LogLevel::Warn)
    } else if same_text(name, "info") {
        Some(LogLevel::Info)
    } else if same_text(name, "debug") {
        Some(LogLevel::Debug)
    } else if same_text(name, "trace") {
        Some(LogLevel::Trace)
    } else {
        None
    }
}

/// The verbosity that a configuration asks for.
pub fn verbosity_of(verbosity: &Option<String>) -> (result: Result<LogLevel, ConfigError>)
    ensures
        match requested_level(text_of(*verbosity)) {
            Ok(level) => result == Ok::<LogLevel, ConfigError>(level),
            Err(rejection) => result matches Err(error) && error@ == rejection,
        },
{
    match verbosity {
        None => Ok(LogLevel::Info),
        Some(written) => {
            let lowered = to_lowercase(written.as_str());
            match parse_level(lowered.as_str()) {
                Some(level) => Ok(level),
                None => Err(ConfigError::UnknownVariant(written.clone())),
            }
        },
    }
}

impl BackupModel {
    /// Sets all defaults and checks that a trigger is in use. The entry is
    /// rejected, untouched, where its path has no component to name it by;
    /// it is rejected, with its defaults set, where neither threshold is in
    /// use.
    pub fn set_defaults(&mut self) -> (result: Result<(), ConfigError>)
        ensures
            match result {
                Ok(_) => old(self)@.checked() is Ok && final(self)@ == old(self)@.with_defaults(),
                Err(error) => {
                    &&& old(self)@.checked() == Err::<EntityView, Rejection>(error@)
                    &&& final(self)@ == (if old(self)@.path.len() == 0 {
                        old(self)@
                    } else {
                        old(self)@.with_defaults()
                    })
                },
            },
    {
        match self.set_alias_or_default() {
            Err(error) => {
                return Err(error);
            },
            Ok(_) => {},
        }
        match self.set_recursive_or_default() {
            Err(error) => {
                return Err(error);
            },
            Ok(_) => {},
        }
        match self.substitute_exec_variables() {
            Err(error) => {
                return Err(error);
            },
            Ok(_) => {},
        }
        let changes_in_use = match self.changes {
            Some(n) => n > 0,
            None => false,
        };
        let timer_in_use = match self.timer {
            Some(n) => n > 0,
            None => false,
        };
        if !changes_in_use && !timer_in_use {
            return Err(
                ConfigError::MissingRequiredField(
                    String::from_str("both \"timer\" and \"changes\" are unset"),
                ),
            );
        }
        Ok(())
    }

    /// Names the entry after the last component of its path, whatever name
    /// was configured. A path without components is rejected and the entry
    /// stays as it is.
    pub fn set_alias_or_default(&mut self) -> (result: Result<(), ConfigError>)
        ensures
            match result {
                Ok(_) => old(self)@.path.len() > 0 && final(self)@ == old(self)@.with_alias(),
                Err(error) => old(self)@.path.len() == 0 && error@ == Rejection::PathParseError(
                    old(self)@.path_text,
                ) && final(self)@ == old(self)@,
            },
    {
        let name = match self.path.last_component() {
            Some(last) => last.clone(),
            None => {
                return Err(ConfigError::PathParseError(self.path.text.clone()));
            },
        };
        self.name = Some(name);
        Ok(())
    }

    /// What is worth a warning about the configured recursion mode.
    pub fn recursion_note(&self) -> (note: Option<RecursionNote>)
        ensures
            note == recursion_note_of(self.recursive, self.kind),
    {
        match self.recursive {
            Some(true) => match self.kind {
                PathKind::File => Some(RecursionNote::FileSetRecursive),
                _ => None,
            },
            Some(false) => match self.kind {
                PathKind::Directory => Some(RecursionNote::DirectorySetPlain),
                _ => None,
            },
            None => None,
        }
    }

    /// Settles the recursion mode.
    pub fn set_recursive_or_default(&mut self) -> (result: Result<(), ConfigError>)
        ensures
            result is Ok,
            final(self)@ == old(self)@.with_recursive(),
    {
        let recursive = match self.recursive {
            Some(true) => match self.kind {
                PathKind::File => false,
                _ => true,
            },
            Some(false) => false,
            None => match self.kind {
                PathKind::Directory => true,
                _ => false,
            },
        };
        self.recursive = Some(recursive);
        Ok(())
    }

    /// Fills in the placeholders of the command.
    pub fn substitute_exec_variables(&mut self) -> (result: Result<(), ConfigError>)
        requires
            old(self).name is Some,
        ensures
            result is Ok,
            final(self)@ == old(self)@.with_command(),
    {
        proof {
            reveal_strlit("{{path}}");
            reveal_strlit("{{name}}");
        }
        let command = match &self.name {
            Some(name) => {
                let with_path = replace_all(
                    self.command.as_str(),
                    "{{path}}",
                    self.path.text.as_str(),
                );
                replace_all(with_path.as_str(), "{{name}}", name.as_str())
            },
            None => String::new(),
        };
        self.command = command;
        Ok(())
    }

    /// The location that the entry describes.
    pub fn into(self) -> (entity: BackupEntity)
        requires
            self.recursive is Some,
        ensures
            entity@ == self@.entity(),
    {
        BackupEntity {
            path: self.path,
            recursive: match self.recursive {
                Some(recursive) => recursive,
                None => false,
            },
            trigger_changes: match self.changes {
                Some(n) => if n > 0 {
                    Some(n)
                } else {
                    None
                },
                None => None,
            },
            trigger_timer: match self.timer {
                Some(n) => if n > 0 {
                    Some(n)
                } else {
                    None
                },
                None => None,
            },
            command: self.command,
            last_triggered: 0,
            changed: 0,
        }
    }
}

impl ConfigModel {
    /// Validates the configuration. The verbosity is settled first and
    /// recorded in `global`; an unknown verbosity is rejected and `global`
    /// stays as it is. Then the entries are taken in order: the first one
    /// that is rejected rejects the configuration, and where none is, each
    /// becomes a location.
    pub fn into_config(self, global: &mut Global) -> (result: Result<Config, ConfigError>)
        ensures
            match requested_level(text_of(self.verbosity)) {
                Err(rejection) => {
                    &&& result matches Err(error)
                    &&& error@ == rejection
                    &&& *final(global) == *old(global)
                },
                Ok(level) => {
                    &&& final(global).log_level == level
                    &&& match result {
                        Ok(config) => {
                            &&& config.backups.len() == self.backups.len()
                            &&& forall|i: int|
                                0 <= i < self.backups.len() ==> (#[trigger] self.backups[i])@.checked()
                                    == Ok::<EntityView, Rejection>(config.backups[i]@)
                            &&& forall|i: int|
                                0 <= i < config.backups.len() ==> (#[trigger] config.backups[i])@.is_valid()
                        },
                        Err(error) => exists|i: int|
                            {
                                &&& 0 <= i < self.backups.len()
                                &&& (#[trigger] self.backups[i])@.checked() == Err::<
                                    EntityView,
                                    Rejection,
                                >(error@)
                                &&& forall|j: int|
                                    0 <= j < i ==> (#[trigger] self.backups[j])@.checked() is Ok
                            },
                    }
                },
            },
    {
        let ConfigModel { backups: models, verbosity } = self;
        let level = match verbosity_of(&verbosity) {
            Ok(level) => level,
            Err(error) => {
                return Err(error);
            },
        };
        global.setup_logger(level);
        let ghost written = models@;
        let mut backups: Vec<BackupEntity> = Vec::new();
        for model in it: models
            invariant
                it.seq() == written,
                written == self.backups@,
                requested_level(text_of(self.verbosity)) == Ok::<LogLevel, Rejection>(level),
                backups.len() == it.index(),
                forall|k: int|
                    0 <= k < backups.len() ==> (#[trigger] written[k])@.checked() == Ok::<
                        EntityView,
                        Rejection,
                    >(backups[k]@),
                global.log_level == level,
        {
            let ghost place = backups.len() as int;
            let mut model = model;
            match model.set_defaults() {
                Err(error) => {
                    assert(self.backups[place]@.checked() == Err::<EntityView, Rejection>(error@));
                    assert forall|j: int| 0 <= j < place implies (#[trigger] self.backups[j])@.checked() is Ok by {
                        assert(written[j]@.checked() is Ok);
                    }
                    return Err(error);
                },
                Ok(_) => {},
            }
            backups.push(model.into());
        }
        proof {
            assert forall|k: int| 0 <= k < backups.len() implies (#[trigger] backups[k])@.is_valid() by {
                lemma_checked_is_valid(written[k]@);
            }
        }
        Ok(Config { backups })
    }
}

} // verus!

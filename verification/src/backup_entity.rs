//! A watched location: its thresholds, its command and its trigger window.

use vstd::prelude::*;
use vstd::string::StringExecFns;
use crate::global::Global;
use crate::path::WatchPath;
use crate::report::{report_of, Report};
use crate::text::{decode_lines, decoded_lines};

verus! {

/// A watched location with its thresholds, its command and the state of its
/// trigger window.
///
/// A threshold that is absent is not used as a trigger, and neither is one
/// that is zero. `last_triggered` and the time handed to the methods count
/// seconds from the Unix epoch.
#[derive(Debug)]
pub struct BackupEntity {
    pub path: WatchPath,
    pub recursive: bool,
    pub trigger_changes: Option<u64>,
    pub trigger_timer: Option<u64>,
    pub command: String,
    pub last_triggered: u64,
    pub changed: u64,
}

/// How the run of a location's command ended.
#[derive(Debug)]
pub enum ExecOutcome {
    /// The command could not be started.
    SpawnFailed { reason: String },
    /// The command was started, and waiting for its end failed.
    WaitFailed { reason: String },
    /// The command ran to its end. `status` describes its exit; `stdout` and
    /// `stderr` are what it wrote, in full.
    Exited { success: bool, status: String, stdout: Vec<u8>, stderr: Vec<u8> },
}

/// Why a location's action brought no report.
#[derive(Debug)]
pub enum BackupError {
    /// The command could not be started.
    ExecError { command: String, reason: String },
    /// Waiting for the command failed.
    Io { reason: String },
}

impl BackupError {
    /// The error in words.
    pub open spec fn spec_message(self) -> Seq<char> {
        match self {
            BackupError::ExecError { command, reason } => "failed to execute command \""@
                + command@ + "\": "@ + reason@,
            BackupError::Io { reason } => reason@,
        }
    }

    /// The error in words.
    pub fn message(&self) -> (text: String)
        ensures
            text@ == self.spec_message(),
    {
        match self {
            BackupError::ExecError { command, reason } => {
                let mut text = String::from_str("failed to execute command \"");
                text.append(command.as_str());
                text.append("\": ");
                text.append(reason.as_str());
                text
            },
            BackupError::Io { reason } => reason.clone(),
        }
    }
}

/// What running the action of `entity` brings back for each way the command
/// can end: the report of a command that ran to its end, made with the
/// verbosity `global` holds, and an error for one that did not.
pub open spec fn reported(
    entity: EntityView,
    outcome: ExecOutcome,
    global: Global,
    result: Result<Report, BackupError>,
) -> bool {
    match outcome {
        ExecOutcome::SpawnFailed { reason } => {
            &&& result matches Err(BackupError::ExecError { command, reason: why })
            &&& command@ == entity.command
            &&& why@ == reason@
        },
        ExecOutcome::WaitFailed { reason } => {
            &&& result matches Err(BackupError::Io { reason: why })
            &&& why@ == reason@
        },
        ExecOutcome::Exited { success, status, stdout, stderr } => {
            &&& result matches Ok(report)
            &&& report@ == report_of(
                entity.path_text,
                entity.command,
                success,
                status@,
                decoded_lines(stdout@),
                decoded_lines(stderr@),
                global.log_level,
            )
        },
    }
}

/// What a location is, as the contracts speak of it.
pub struct EntityView {
    pub path: Seq<Seq<char>>,
    pub path_text: Seq<char>,
    pub recursive: bool,
    pub trigger_changes: Option<u64>,
    pub trigger_timer: Option<u64>,
    pub command: Seq<char>,
    pub last_triggered: u64,
    pub changed: u64,
}

impl EntityView {
    /// The time condition: the timer is in use and at least that many minutes
    /// have passed since the action last ran. A clock that reads earlier than
    /// the last run fulfils nothing.
    pub open spec fn time_due(self, now: u64) -> bool {
        match self.trigger_timer {
            Some(minutes) => minutes > 0 && now >= self.last_triggered && now - self.last_triggered
                >= minutes * 60,
            None => false,
        }
    }

    /// The count condition: the change threshold is in use and at least that
    /// many changes were seen since the action last ran.
    pub open spec fn changes_due(self) -> bool {
        match self.trigger_changes {
            Some(threshold) => threshold > 0 && self.changed >= threshold,
            None => false,
        }
    }

    /// Whether the action is due: either condition suffices.
    pub open spec fn need_backup(self, now: u64) -> bool {
        self.time_due(now) || self.changes_due()
    }

    /// The location after one more change was seen. The counter stops at the
    /// largest value it can hold.
    pub open spec fn noted(self) -> EntityView {
        EntityView {
            changed: if self.changed < u64::MAX {
                (self.changed + 1) as u64
            } else {
                self.changed
            },
            ..self
        }
    }

    /// The location after `count` more changes were seen.
    pub open spec fn noted_times(self, count: nat) -> EntityView
        decreases count,
    {
        if count == 0 {
            self
        } else {
            self.noted_times((count - 1) as nat).noted()
        }
    }

    /// The location after its action ran at `now`: a new trigger window.
    pub open spec fn settled(self, now: u64) -> EntityView {
        EntityView { changed: 0, last_triggered: now, ..self }
    }

    /// The location after it was renamed: the same record at another path.
    pub open spec fn moved(self, path: Seq<Seq<char>>, path_text: Seq<char>) -> EntityView {
        EntityView { path, path_text, ..self }
    }

    /// What the configuration guarantees of a location: a threshold that is
    /// present is positive, and at least one is present.
    pub open spec fn is_valid(self) -> bool {
        &&& self.trigger_changes != Some(0u64)
        &&& self.trigger_timer != Some(0u64)
        &&& (self.trigger_changes is Some || self.trigger_timer is Some)
    }
}

impl View for BackupEntity {
    type V = EntityView;

    open spec fn view(&self) -> EntityView {
        EntityView {
            path: self.path@,
            path_text: self.path.text@,
            recursive: self.recursive,
            trigger_changes: self.trigger_changes,
            trigger_timer: self.trigger_timer,
            command: self.command@,
            last_triggered: self.last_triggered,
            changed: self.changed,
        }
    }
}

/// The program and the arguments that run `command` through the platform's
/// command interpreter.
pub open spec fn invocation_of(windows: bool, command: Seq<char>) -> Seq<Seq<char>> {
    if windows {
        seq!["cmd"@, "/C"@, command]
    } else {
        seq!["bash"@, "-c"@, command]
    }
}

/// The records of a list of locations.
pub open spec fn views(entities: Seq<BackupEntity>) -> Seq<EntityView> {
    entities.map_values(|entity: BackupEntity| entity@)
}

impl Default for BackupEntity {
    /// A location at `./` with no threshold in use, no command, and a trigger
    /// window that opened at the epoch.
    fn default() -> (entity: Self)
        ensures
            entity.path.text@ == "./"@,
            entity@.path == seq!["."@],
            !entity.recursive,
            entity.trigger_changes is None,
            entity.trigger_timer is None,
            entity.command@ == Seq::<char>::empty(),
            entity.last_triggered == 0,
            entity.changed == 0,
    {
        let mut components: Vec<String> = Vec::new();
        components.push(String::from_str("."));
        let path = WatchPath::new(String::from_str("./"), components);
        assert(path@ =~= seq!["."@]);
        BackupEntity {
            path,
            recursive: false,
            trigger_changes: None,
            trigger_timer: None,
            command: String::new(),
            last_triggered: 0,
            changed: 0,
        }
    }
}

impl BackupEntity {
    /// Whether the time condition holds at `now`.
    pub fn time_trigger(&self, now: u64) -> (due: bool)
        ensures
            due == self@.time_due(now),
    {
        match self.trigger_timer {
            Some(minutes) => {
                if minutes == 0 || now < self.last_triggered {
                    false
                } else {
                    match minutes.checked_mul(60) {
                        Some(window) => now - self.last_triggered >= window,
                        None => false,
                    }
                }
            },
            None => false,
        }
    }

    /// Whether the count condition holds.
    pub fn changes_trigger(&self) -> (due: bool)
        ensures
            due == self@.changes_due(),
    {
        match self.trigger_changes {
            Some(threshold) => threshold > 0 && self.changed >= threshold,
            None => false,
        }
    }

    /// Whether the action is due at `now`.
    pub fn need_backup(&self, now: u64) -> (due: bool)
        ensures
            due == self@.need_backup(now),
    {
        self.time_trigger(now) || self.changes_trigger()
    }

    /// The program to start, followed by its arguments, to run the location's
    /// command through the command interpreter of the platform.
    pub fn invocation(&self, windows: bool) -> (words: Vec<String>)
        ensures
            words.deep_view() == invocation_of(windows, self@.command),
    {
        let mut words: Vec<String> = Vec::new();
        if windows {
            words.push(String::from_str("cmd"));
            words.push(String::from_str("/C"));
        } else {
            words.push(String::from_str("bash"));
            words.push(String::from_str("-c"));
        }
        words.push(self.command.clone());
        assert(words.deep_view() =~= invocation_of(windows, self@.command));
        words
    }

    /// Counts one change.
    pub fn note_change(&mut self)
        ensures
            final(self)@ == old(self)@.noted(),
    {
        if self.changed < u64::MAX {
            self.changed = self.changed + 1;
        }
    }

    /// Moves the record to `path`. The counter and the time of the last run
    /// stay as they are.
    pub fn relocate(&mut self, path: WatchPath)
        ensures
            final(self)@ == old(self)@.moved(path@, path.text@),
    {
        self.path = path;
    }

    /// Settles the location after its command was run, at `now`: reports what
    /// is to be surfaced of the run, and opens a new trigger window whether
    /// the command succeeded, failed or could not be started. A failing
    /// command is therefore not run again before its next window is over.
    pub fn backup(&mut self, outcome: ExecOutcome, global: &Global, now: u64) -> (result: Result<
        Report,
        BackupError,
    >)
        ensures
            final(self)@ == old(self)@.settled(now),
            reported(old(self)@, outcome, *global, result),
    {
        let result = match outcome {
            ExecOutcome::SpawnFailed { reason } => Err(
                BackupError::ExecError { command: self.command.clone(), reason },
            ),
            ExecOutcome::WaitFailed { reason } => Err(BackupError::Io { reason }),
            ExecOutcome::Exited { success, status, stdout, stderr } => {
                let out = decode_lines(&stdout);
                let err = decode_lines(&stderr);
                Ok(
                    Report::compose(
                        self.path.text.as_str(),
                        self.command.as_str(),
                        success,
                        status.as_str(),
                        &out,
                        &err,
                        global.log_level,
                    ),
                )
            },
        };
        self.settle(now);
        result
    }

    /// Opens a new trigger window at `now`.
    pub fn settle(&mut self, now: u64)
        ensures
            final(self)@ == old(self)@.settled(now),
    {
        self.last_triggered = now;
        self.changed = 0;
    }
}

} // verus!

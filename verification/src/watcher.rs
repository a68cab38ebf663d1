//! The file watcher's side: which changes on disk are passed on to the
//! engine, and as what.

use crate::netcommand::Command;
use vstd::prelude::*;
use vstd::string::*;

verus! {

/// The kind of a change that the file system reported.
#[derive(Debug, Clone, Copy, PartialEq, Eq, Structural)]
pub enum ChangeKind {
    /// A file was created.
    CreateFile,
    /// A file was removed.
    RemoveFile,
    /// The content of a file was modified.
    ModifyContent,
    /// Anything else: directories, metadata, access.
    Other,
}

/// Passes the changes of the file system on to the engine.
pub struct WatcherSender();

/// What is passed on for a change: a created file is reported as added, a
/// removed file as deleted, modified content as changed, each with the first
/// of the paths that the change names. Nothing is passed on for any other
/// change, nor for a change that names no path.
pub open spec fn passed_on(kind: ChangeKind, paths: Seq<String>) -> Option<
    (ChangeKind, Seq<char>),
> {
    if paths.len() == 0 || kind == ChangeKind::Other {
        None
    } else {
        Some((kind, paths[0]@))
    }
}

/// The path and the kind of change that a command of the watcher reports.
pub open spec fn reported(command: Command) -> Option<(ChangeKind, Seq<char>)> {
    match command {
        Command::EditFileAdd { path } => Some((ChangeKind::CreateFile, path@)),
        Command::EditFileDelete { path } => Some((ChangeKind::RemoveFile, path@)),
        Command::EditFileChange { path } => Some((ChangeKind::ModifyContent, path@)),
        _ => None,
    }
}

/// The report of a command, where there is a command.
pub open spec fn opt_reported(command: Option<Command>) -> Option<(ChangeKind, Seq<char>)> {
    match command {
        Some(c) => reported(c),
        None => None,
    }
}

impl WatcherSender {
    /// The command for a change of the file system, if the change is passed
    /// on to the engine.
    pub fn watch(&self, kind: ChangeKind, paths: &Vec<String>) -> (res: Option<Command>)
        ensures
            opt_reported(res) == passed_on(kind, paths@),
            res is Some <==> passed_on(kind, paths@) is Some,
    {
        if paths.len() == 0 {
            return None;
        }
        match kind {
            ChangeKind::CreateFile => Some(self.create_file_hook(paths[0].clone())),
            ChangeKind::RemoveFile => Some(self.delete_file_hook(paths[0].clone())),
            ChangeKind::ModifyContent => Some(self.change_file_hook(paths[0].clone())),
            ChangeKind::Other => None,
        }
    }

    /// The command that reports an added file.
    pub fn create_file_hook(&self, path: String) -> (res: Command)
        ensures
            reported(res) == Some((ChangeKind::CreateFile, path@)),
    {
        Command::EditFileAdd { path }
    }

    /// The command that reports a deleted file.
    pub fn delete_file_hook(&self, path: String) -> (res: Command)
        ensures
            reported(res) == Some((ChangeKind::RemoveFile, path@)),
    {
        Command::EditFileDelete { path }
    }

    /// The command that reports a changed file.
    pub fn change_file_hook(&self, path: String) -> (res: Command)
        ensures
            reported(res) == Some((ChangeKind::ModifyContent, path@)),
    {
        Command::EditFileChange { path }
    }
}

} // verus!

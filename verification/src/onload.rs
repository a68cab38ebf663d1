//! What a node is started with: the arguments of the command line, and the
//! configuration that says which directories to keep in step.

use crate::bencode::opt_view;
use crate::netcommand::CliCommand;
use crate::types::{replace_all, replace_text, Config, FilePath, FilePathView};
use vstd::prelude::*;
use vstd::string::*;

verus! {

/// The arguments of the command line.
#[derive(Debug)]
pub struct Args {
    /// Where the configuration is read from.
    pub config: Option<String>,
    /// What the program is asked to do.
    pub choice: CliArgs,
}

/// What the program is asked to do.
#[derive(Debug)]
pub enum CliArgs {
    /// Send a command to the node that runs on this machine.
    Query { push: PushPath },
    /// Run as a node.
    Serve {  },
}

/// The command to force the state of this machine's files to be the
/// current state.
#[derive(Debug)]
pub enum PushPath {
    /// Push one path, or every tracked file where none is given.
    Push { path: Option<String> },
}

/// The view of a sequence of texts.
pub open spec fn texts(v: Seq<String>) -> Seq<Seq<char>> {
    Seq::new(v.len(), |i: int| v[i]@)
}

/// The configuration that is used where none was given or the one that was
/// given could not be read.
pub fn default_config() -> (res: Config)
    ensures
        res.version@ == "~/.version"@,
        res.listen@ == "127.0.0.1/tcp/6234"@,
        texts(res.paths@) == seq!["~/org-sync-test/"@],
{
    let mut paths: Vec<String> = Vec::new();
    paths.push("~/org-sync-test/".to_owned());
    let res = Config {
        version: "~/.version".to_owned(),
        listen: "127.0.0.1/tcp/6234".to_owned(),
        paths,
    };
    proof {
        assert(texts(res.paths@) =~= seq!["~/org-sync-test/"@]);
    }
    res
}

/// The path with the home directory put in for every `~`.
pub open spec fn expanded(path: Seq<char>, home: Seq<char>) -> Seq<char> {
    replace_all(path, "~"@, home)
}

/// The path with the home directory put in for every `~`.
pub fn expand_home(path: &String, home: &String) -> (res: String)
    ensures
        res@ == expanded(path@, home@),
{
    proof {
        reveal_strlit("~");
    }
    replace_text(path.as_str(), "~", home.as_str())
}

/// The paths of a configuration, each with the home directory put in.
pub open spec fn expanded_paths(paths: Seq<String>, home: Seq<char>) -> Seq<Seq<char>> {
    Seq::new(paths.len(), |i: int| expanded(paths[i]@, home))
}

/// Settles the configuration of a node and names the directories it asks to
/// be watched. `parsed` is the configuration that was read, if one was given
/// and could be read; otherwise the default configuration is used. The
/// directories are the paths of the configuration with the home directory
/// put in for every `~`, in the order of the configuration.
pub fn onload(parsed: Option<Config>, home: &String) -> (res: (Config, Vec<String>))
    ensures
        parsed matches Some(c) ==> res.0 == c,
        parsed is None ==> res.0.version@ == "~/.version"@ && res.0.listen@
            == "127.0.0.1/tcp/6234"@ && texts(res.0.paths@) == seq!["~/org-sync-test/"@],
        texts(res.1@) == expanded_paths(res.0.paths@, home@),
{
    let config = match parsed {
        Some(c) => c,
        None => default_config(),
    };
    let mut dirs: Vec<String> = Vec::new();
    let mut i: usize = 0;
    while i < config.paths.len()
        invariant
            i <= config.paths@.len(),
            dirs@.len() == i,
            forall|j: int| 0 <= j < i ==> (#[trigger] dirs@[j])@
                == expanded(config.paths@[j]@, home@),
        decreases config.paths@.len() - i,
    {
        dirs.push(expand_home(&config.paths[i], home));
        i += 1;
    }
    proof {
        assert(texts(dirs@) =~= expanded_paths(config.paths@, home@));
    }
    (config, dirs)
}

/// Those of the candidate paths that are directories, in order. The marks
/// say of each candidate whether it is one.
pub open spec fn kept_dirs(candidates: Seq<String>, marks: Seq<bool>) -> Seq<Seq<char>>
    decreases candidates.len(),
{
    if candidates.len() == 0 {
        Seq::<Seq<char>>::empty()
    } else if candidates.len() <= marks.len() && marks[candidates.len() - 1] {
        kept_dirs(candidates.drop_last(), marks).push(candidates.last()@)
    } else {
        kept_dirs(candidates.drop_last(), marks)
    }
}

/// Keeps those of the candidate paths that are directories. A candidate
/// without a mark is not kept.
pub fn watched_dirs(candidates: &Vec<String>, marks: &Vec<bool>) -> (res: Vec<String>)
    ensures
        texts(res@) == kept_dirs(candidates@, marks@),
{
    let mut dirs: Vec<String> = Vec::new();
    let mut i: usize = 0;
    proof {
        assert(texts(dirs@) =~= kept_dirs(candidates@.take(0), marks@));
    }
    while i < candidates.len()
        invariant
            i <= candidates@.len(),
            texts(dirs@) == kept_dirs(candidates@.take(i as int), marks@),
        decreases candidates@.len() - i,
    {
        let ghost before = texts(dirs@);
        proof {
            assert(candidates@.take(i + 1).drop_last() =~= candidates@.take(i as int));
            assert(candidates@.take(i + 1).last() == candidates@[i as int]);
        }
        if i < marks.len() && marks[i] {
            dirs.push(candidates[i].clone());
            proof {
                assert(texts(dirs@) =~= before.push(candidates@[i as int]@));
            }
        }
        i += 1;
    }
    proof {
        assert(candidates@.take(candidates@.len() as int) =~= candidates@);
    }
    dirs
}

/// The files among what a walk of the watched directories found: every
/// entry that is no directory, in the order of the walk, each with the home
/// directory it is relative to.
pub open spec fn walked_files(home: Seq<char>, entries: Seq<(String, bool)>) -> Seq<FilePathView>
    decreases entries.len(),
{
    if entries.len() == 0 {
        Seq::<FilePathView>::empty()
    } else if entries.last().1 {
        walked_files(home, entries.drop_last())
    } else {
        walked_files(home, entries.drop_last()).push(
            FilePathView { home, full: entries.last().0@ },
        )
    }
}

/// The views of a sequence of files.
pub open spec fn file_views(files: Seq<FilePath>) -> Seq<FilePathView> {
    Seq::new(files.len(), |i: int| files[i]@)
}

/// The files among the entries that a walk of directories found. Each entry
/// is a path with the mark of whether it is a directory.
pub fn files_from_walk(home: &String, entries: &Vec<(String, bool)>) -> (res: Vec<FilePath>)
    ensures
        file_views(res@) == walked_files(home@, entries@),
{
    let mut paths: Vec<FilePath> = Vec::new();
    let mut i: usize = 0;
    proof {
        assert(file_views(paths@) =~= walked_files(home@, entries@.take(0)));
    }
    while i < entries.len()
        invariant
            i <= entries@.len(),
            file_views(paths@) == walked_files(home@, entries@.take(i as int)),
        decreases entries@.len() - i,
    {
        let ghost before = file_views(paths@);
        proof {
            assert(entries@.take(i + 1).drop_last() =~= entries@.take(i as int));
            assert(entries@.take(i + 1).last() == entries@[i as int]);
        }
        if !entries[i].1 {
            paths.push(FilePath { home: home.clone(), full: entries[i].0.clone() });
            proof {
                assert(file_views(paths@) =~= before.push(
                    FilePathView { home: home@, full: entries@[i as int].0@ },
                ));
            }
        }
        i += 1;
    }
    proof {
        assert(entries@.take(entries@.len() as int) =~= entries@);
    }
    paths
}

/// The path that a push names, if it names one.
pub open spec fn push_path(push: PushPath) -> Option<Seq<char>> {
    match push {
        PushPath::Push { path } => opt_view(path),
    }
}

/// The command that is sent to the running node for a push: it names the
/// path that was given, and none where none was given.
pub fn push_command(push: PushPath) -> (res: CliCommand)
    ensures
        res@.push == push_path(push),
{
    match push {
        PushPath::Push { path } => CliCommand { Push: path },
    }
}

} // verus!

//! What is to be edited, and where it comes from.

use vstd::prelude::*;
use vstd::utf8::{encode_utf8, is_ascii_chars_encode_utf8};

use crate::edit::error::EditError;
use crate::edit::markers::{stdin_file, stdin_file_path};
use crate::file_path::{law_join_puts_one_slash_between, path_join, rooted, FilePath};
use crate::unique_id::{is_version_4, UniqueId};

verus! {

/// The arguments of `edit`.
#[derive(Debug)]
pub struct EditArgs {
    /// Path of the file to open in the built-in editor, or `-` to open what is
    /// piped in on stdin.
    pub path: FilePath,
    /// Return as soon as the file is opened instead of waiting for the editor
    /// to be closed.
    pub no_wait: bool,
}

/// Where the contents being edited came from.
#[derive(Debug)]
pub enum EditInput {
    /// A file the caller named, which is what tools using the shim as `$EDITOR`
    /// do.
    File(FilePath),
    /// Data piped in on stdin, spooled to this temporary file.
    Stdin(FilePath),
}

impl Clone for EditArgs {
    fn clone(&self) -> (r: EditArgs)
        ensures
            r.path@ == self.path@,
            r.no_wait == self.no_wait,
    {
        EditArgs { path: self.path.clone(), no_wait: self.no_wait }
    }
}

impl EditArgs {
    /// Whether the path means "the contents are piped in on stdin".
    pub open spec fn names_stdin(&self) -> bool {
        self.path@ == encode_utf8("-"@)
    }

    /// Whether the path means "the contents are piped in on stdin".
    pub fn is_stdin(&self) -> (r: bool)
        ensures
            r == self.names_stdin(),
            r <==> self.path@ == encode_utf8("-"@),
    {
        let dash = FilePath::from_text("-");
        self.path.same_bytes(&dash)
    }
}

impl EditInput {
    /// The file that holds the contents.
    pub open spec fn path_view(&self) -> Seq<u8> {
        match self {
            EditInput::File(path) => path@,
            EditInput::Stdin(path) => path@,
        }
    }

    /// The file that holds the contents.
    pub fn path(&self) -> (r: &FilePath)
        ensures
            r@ == self.path_view(),
    {
        match self {
            EditInput::File(path) => path,
            EditInput::Stdin(path) => path,
        }
    }

    /// Whether the contents were piped in.
    pub fn is_stdin(&self) -> (r: bool)
        ensures
            r == (self is Stdin),
    {
        match self {
            EditInput::File(_) => false,
            EditInput::Stdin(_) => true,
        }
    }
}

/// `path` resolved against `current_dir`, unless it is absolute.
pub open spec fn resolved(path: Seq<u8>, is_absolute: bool, current_dir: Seq<u8>) -> Seq<u8> {
    if is_absolute {
        path
    } else {
        path_join(current_dir, path)
    }
}

/// Resolves `path` against `current_dir` without requiring it to exist.
///
/// Which paths are absolute differs between systems, so the caller says whether
/// this one is.
pub fn absolute_path(
    path: &FilePath,
    is_absolute: bool,
    current_dir: Option<&FilePath>,
) -> (r: Result<FilePath, EditError>)
    ensures
        r is Err <==> !is_absolute && current_dir is None,
        r matches Err(error) ==> error == EditError::NoWorkingDirectory,
        is_absolute ==> r is Ok && r->Ok_0@ == path@,
        current_dir matches Some(dir) ==> r is Ok && r->Ok_0@ == resolved(
            path@,
            is_absolute,
            dir@,
        ),
{
    if is_absolute {
        return Ok(path.clone());
    }
    match current_dir {
        Some(dir) => Ok(dir.join(path)),
        None => Err(EditError::NoWorkingDirectory),
    }
}

/// Where absolute paths are those that start at the root, a path that was
/// resolved against an absolute directory is absolute, and resolving it again
/// changes nothing, whatever the directory.
pub proof fn law_resolved_path_is_absolute(
    path: Seq<u8>,
    current_dir: Seq<u8>,
    elsewhere: Seq<u8>,
)
    requires
        rooted(current_dir),
    ensures
        ({
            let absolute = resolved(path, rooted(path), current_dir);
            &&& rooted(absolute)
            &&& rooted(path) ==> absolute == path
            &&& resolved(absolute, rooted(absolute), elsewhere) == absolute
            &&& path_join(current_dir, path) == absolute
        }),
{
}

/// Where the contents to edit are to come from.
#[derive(Debug)]
pub enum InputSource {
    /// The file at this path.
    File(FilePath),
    /// Stdin, which is still to be read.
    Stdin,
}

/// Where to take the contents to edit from, given whether the path in `args` is
/// absolute.
pub fn choose_input(
    args: &EditArgs,
    is_absolute: bool,
    stdin_is_terminal: bool,
    current_dir: Option<&FilePath>,
) -> (r: Result<InputSource, EditError>)
    ensures
        args.names_stdin() ==> r == (if stdin_is_terminal {
            Err::<InputSource, EditError>(EditError::StdinIsTerminal)
        } else {
            Ok(InputSource::Stdin)
        }),
        !args.names_stdin() && is_absolute ==> {
            &&& r matches Ok(InputSource::File(path))
            &&& path@ == args.path@
        },
        !args.names_stdin() && !is_absolute ==> match current_dir {
            Some(dir) => {
                &&& r matches Ok(InputSource::File(path))
                &&& path@ == path_join(dir@, args.path@)
            },
            None => r == Err::<InputSource, EditError>(EditError::NoWorkingDirectory),
        },
{
    if args.is_stdin() {
        if stdin_is_terminal {
            return Err(EditError::StdinIsTerminal);
        }
        return Ok(InputSource::Stdin);
    }
    match absolute_path(&args.path, is_absolute, current_dir) {
        Ok(path) => Ok(InputSource::File(path)),
        Err(error) => Err(error),
    }
}

/// A file that is to be written, since an editor opens paths rather than
/// streams.
///
/// The file is deliberately left behind: nothing waits for the editor to be
/// closed, so there is no point at which deleting it would be safe.
#[derive(Debug)]
pub struct SpoolFile {
    /// Where the file is to be.
    pub path: FilePath,
    /// What it is to hold.
    pub contents: Vec<u8>,
}

/// What is to be written once stdin has been read to its end: just what was
/// read, to a fresh file in `temp_dir`. If reading failed there is nothing to
/// write.
pub fn spool_to_temp_file<E>(read: Result<Vec<u8>, E>, temp_dir: &FilePath) -> (r: Result<
    SpoolFile,
    E,
>)
    ensures
        match read {
            Ok(contents) => {
                &&& r matches Ok(file)
                &&& file.contents == contents
                &&& exists|id: UniqueId|
                    is_version_4(id.value) && file.path@ == #[trigger] stdin_file(temp_dir@, id)
            },
            Err(error) => r == Err::<SpoolFile, E>(error),
        },
{
    match read {
        Ok(contents) => Ok(SpoolFile { path: stdin_file_path(temp_dir), contents }),
        Err(error) => Err(error),
    }
}

impl SpoolFile {
    /// What to edit, given whether the file could be written.
    pub fn into_input<E>(self, written: Result<(), E>) -> (r: Result<EditInput, E>)
        ensures
            r == (match written {
                Ok(_) => Ok::<EditInput, E>(EditInput::Stdin(self.path)),
                Err(error) => Err(error),
            }),
    {
        match written {
            Ok(_) => Ok(EditInput::Stdin(self.path)),
            Err(error) => Err(error),
        }
    }
}

/// A hyphen, alone, stands for stdin, and no other path does.
pub proof fn law_a_hyphen_names_stdin(args: EditArgs)
    ensures
        args.names_stdin() <==> args.path@.len() == 1 && args.path@[0] == 45,
{
    reveal_strlit("-");
    is_ascii_chars_encode_utf8("-"@);
    let dash = encode_utf8("-"@);
    assert(dash.len() == 1 && dash[0] == 45);
    if args.path@.len() == 1 && args.path@[0] == 45 {
        assert(args.path@ == dash);
    }
}

/// An absolute path is taken as it is. Any other is taken from the directory,
/// with nothing of either path lost.
pub proof fn law_how_a_path_is_resolved(path: Seq<u8>, current_dir: Seq<u8>)
    ensures
        resolved(path, true, current_dir) == path,
        !(path.len() > 0 && path[0] == 47) ==> {
            let absolute = resolved(path, false, current_dir);
            &&& absolute.len() >= current_dir.len() + path.len()
            &&& absolute.len() <= current_dir.len() + path.len() + 1
            &&& absolute.take(current_dir.len() as int) == current_dir
            &&& absolute.skip(absolute.len() - path.len()) == path
        },
{
    law_join_puts_one_slash_between(current_dir, path);
}

/// The contents are in the file that the input names, wherever they came from.
pub proof fn law_where_the_contents_are(path: FilePath)
    ensures
        EditInput::File(path).path_view() == path@,
        EditInput::Stdin(path).path_view() == path@,
{
}

} // verus!

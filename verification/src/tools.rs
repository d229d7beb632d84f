//! The built-in tools the agent can call: their names, descriptions and
//! arguments, how a call's arguments are validated, and the text a call
//! reports. The tools' effects on the file system and processes are the
//! caller's.
use vstd::prelude::*;
use crate::numbers::{decimal_spec, format_u64};

verus! {

/// The type of a tool argument.
#[derive(Debug, Clone, Copy, PartialEq, Eq)]
pub enum ArgKind {
    Text,
    Number,
    Bool,
}

/// Whether an argument is marked required, marked optional, or left as
/// the tool-call schema's default.
#[derive(Debug, Clone, Copy, PartialEq, Eq)]
pub enum Presence {
    Default,
    Required,
    Optional,
}

/// One argument of a tool, as announced to the model.
#[derive(Debug, Clone)]
pub struct ArgDescriptor {
    pub name: String,
    pub description: String,
    pub kind: ArgKind,
    pub presence: Presence,
}

/// `d` announces an argument with this name, description, type and
/// presence.
pub open spec fn describes(
    d: ArgDescriptor,
    name: Seq<char>,
    description: Seq<char>,
    kind: ArgKind,
    presence: Presence,
) -> bool {
    d.name@ == name && d.description@ == description && d.kind == kind && d.presence == presence
}

/// An argument descriptor.
pub fn arg(name: &str, description: &str, kind: ArgKind, presence: Presence) -> (d: ArgDescriptor)
    ensures
        describes(d, name@, description@, kind, presence),
{
    ArgDescriptor {
        name: String::from_str(name),
        description: String::from_str(description),
        kind,
        presence,
    }
}

/// A tool that replaces a snippet of a file.
#[derive(Debug, Clone, Copy)]
pub struct EditFile;

/// A tool that reads a file, or a byte range of it.
#[derive(Debug, Clone, Copy)]
pub struct ReadFile;

/// A tool that creates a file with given contents.
#[derive(Debug, Clone, Copy)]
pub struct CreateFile;

/// A tool that lists a directory.
#[derive(Debug, Clone, Copy)]
pub struct ListDirectoryContents;

/// A tool that creates a directory and its missing parents.
#[derive(Debug, Clone, Copy)]
pub struct MakeDirectory;

/// A tool that runs a shell command.
#[derive(Debug, Clone, Copy)]
pub struct BashExec;

impl EditFile {
    pub fn get_name(&self) -> (r: &'static str)
        ensures
            r@ == "edit_file"@,
    {
        "edit_file"
    }

    pub fn get_description(&self) -> (r: &'static str)
        ensures
            r@
                == "edit a file by providing what snippet of the file you want to change and what to replate it with. this uses str replace."@,
    {
        "edit a file by providing what snippet of the file you want to change and what to replate it with. this uses str replace."
    }

    pub fn get_args(&self) -> (r: Vec<ArgDescriptor>)
        ensures
            r@.len() == 3,
            describes(
                r@[0],
                "path"@,
                "the relative path of the file to read."@,
                ArgKind::Text,
                Presence::Default,
            ),
            describes(
                r@[1],
                "old"@,
                "the part of the file that should be replaced"@,
                ArgKind::Text,
                Presence::Default,
            ),
            describes(
                r@[2],
                "new"@,
                "the new snippet that should be used in the file"@,
                ArgKind::Text,
                Presence::Default,
            ),
    {
        let mut v: Vec<ArgDescriptor> = Vec::new();
        v.push(arg("path", "the relative path of the file to read.", ArgKind::Text, Presence::Default));
        v.push(arg("old", "the part of the file that should be replaced", ArgKind::Text, Presence::Default));
        v.push(arg("new", "the new snippet that should be used in the file", ArgKind::Text, Presence::Default));
        v
    }
}

impl ReadFile {
    pub fn get_name(&self) -> (r: &'static str)
        ensures
            r@ == "read_file"@,
    {
        "read_file"
    }

    pub fn get_description(&self) -> (r: &'static str)
        ensures
            r@
                == "read the contents of a file with optional byte offset and length. always use this to know how a file looks like before modifying it in any way shape or form."@,
    {
        "read the contents of a file with optional byte offset and length. always use this to know how a file looks like before modifying it in any way shape or form."
    }

    pub fn get_args(&self) -> (r: Vec<ArgDescriptor>)
        ensures
            r@.len() == 3,
            describes(
                r@[0],
                "path"@,
                "the relative path of the file to read."@,
                ArgKind::Text,
                Presence::Default,
            ),
            describes(
                r@[1],
                "offset"@,
                "optional byte offset to start reading from (defaults to 0)"@,
                ArgKind::Number,
                Presence::Default,
            ),
            describes(
                r@[2],
                "length"@,
                "optional maximum number of bytes to read (reads to EOF if omitted)"@,
                ArgKind::Number,
                Presence::Default,
            ),
    {
        let mut v: Vec<ArgDescriptor> = Vec::new();
        v.push(arg("path", "the relative path of the file to read.", ArgKind::Text, Presence::Default));
        v.push(arg("offset", "optional byte offset to start reading from (defaults to 0)", ArgKind::Number, Presence::Default));
        v.push(arg("length", "optional maximum number of bytes to read (reads to EOF if omitted)", ArgKind::Number, Presence::Default));
        v
    }
}

impl CreateFile {
    pub fn get_name(&self) -> (r: &'static str)
        ensures
            r@ == "create_file"@,
    {
        "create_file"
    }

    pub fn get_description(&self) -> (r: &'static str)
        ensures
            r@ == "create a new file with the given content at the given path."@,
    {
        "create a new file with the given content at the given path."
    }

    pub fn get_args(&self) -> (r: Vec<ArgDescriptor>)
        ensures
            r@.len() == 2,
            describes(
                r@[0],
                "path"@,
                "the relative path of the file to create."@,
                ArgKind::Text,
                Presence::Default,
            ),
            describes(
                r@[1],
                "content"@,
                "the content to write to the file."@,
                ArgKind::Text,
                Presence::Default,
            ),
    {
        let mut v: Vec<ArgDescriptor> = Vec::new();
        v.push(arg("path", "the relative path of the file to create.", ArgKind::Text, Presence::Default));
        v.push(arg("content", "the content to write to the file.", ArgKind::Text, Presence::Default));
        v
    }
}

impl ListDirectoryContents {
    pub fn get_name(&self) -> (r: &'static str)
        ensures
            r@ == "list_dir_contents"@,
    {
        "list_dir_contents"
    }

    pub fn get_description(&self) -> (r: &'static str)
        ensures
            r@
                == "list the contents of a directory on an absolute or relative path. use this to explore codebases"@,
    {
        "list the contents of a directory on an absolute or relative path. use this to explore codebases"
    }

    pub fn get_args(&self) -> (r: Vec<ArgDescriptor>)
        ensures
            r@.len() == 1,
            describes(
                r@[0],
                "path"@,
                "the absolute or relative path of the directory to list"@,
                ArgKind::Text,
                Presence::Default,
            ),
    {
        let mut v: Vec<ArgDescriptor> = Vec::new();
        v.push(arg("path", "the absolute or relative path of the directory to list", ArgKind::Text, Presence::Default));
        v
    }
}

impl MakeDirectory {
    pub fn get_name(&self) -> (r: &'static str)
        ensures
            r@ == "make_dir"@,
    {
        "make_dir"
    }

    pub fn get_description(&self) -> (r: &'static str)
        ensures
            r@
                == "create a directory at the specified path (including intermediate directories if necessary)"@,
    {
        "create a directory at the specified path (including intermediate directories if necessary)"
    }

    pub fn get_args(&self) -> (r: Vec<ArgDescriptor>)
        ensures
            r@.len() == 1,
            describes(
                r@[0],
                "path"@,
                "the absolute or relative path of the directory to create"@,
                ArgKind::Text,
                Presence::Default,
            ),
    {
        let mut v: Vec<ArgDescriptor> = Vec::new();
        v.push(arg("path", "the absolute or relative path of the directory to create", ArgKind::Text, Presence::Default));
        v
    }
}

impl BashExec {
    pub fn get_name(&self) -> (r: &'static str)
        ensures
            r@ == "bash_exec"@,
    {
        "bash_exec"
    }

    pub fn get_description(&self) -> (r: &'static str)
        ensures
            r@
                == "execute an arbitrary bash command in a shell and return stdout, stderr and exit code"@,
    {
        "execute an arbitrary bash command in a shell and return stdout, stderr and exit code"
    }

    pub fn get_args(&self) -> (r: Vec<ArgDescriptor>)
        ensures
            r@.len() == 5,
            describes(
                r@[0],
                "cmd"@,
                "the exact shell command to execute"@,
                ArgKind::Text,
                Presence::Required,
            ),
            describes(
                r@[1],
                "cwd"@,
                "optional working directory; defaults to current"@,
                ArgKind::Text,
                Presence::Optional,
            ),
            describes(
                r@[2],
                "timeout_ms"@,
                "optional timeout in milliseconds; defaults to 60000"@,
                ArgKind::Text,
                Presence::Optional,
            ),
            describes(
                r@[3],
                "filter_for"@,
                "optional regex: only include lines that match this (applied to stdout/stderr)"@,
                ArgKind::Text,
                Presence::Optional,
            ),
            describes(
                r@[4],
                "filter_out"@,
                "optional regex: exclude lines that match this (applied to stdout/stderr)"@,
                ArgKind::Text,
                Presence::Optional,
            ),
    {
        let mut v: Vec<ArgDescriptor> = Vec::new();
        v.push(arg("cmd", "the exact shell command to execute", ArgKind::Text, Presence::Required));
        v.push(arg("cwd", "optional working directory; defaults to current", ArgKind::Text, Presence::Optional));
        v.push(arg("timeout_ms", "optional timeout in milliseconds; defaults to 60000", ArgKind::Text, Presence::Optional));
        v.push(arg("filter_for", "optional regex: only include lines that match this (applied to stdout/stderr)", ArgKind::Text, Presence::Optional));
        v.push(arg("filter_out", "optional regex: exclude lines that match this (applied to stdout/stderr)", ArgKind::Text, Presence::Optional));
        v
    }
}

/// The `path`, `old` and `new` arguments of an edit, each refused in turn
/// when missing.
pub fn edit_args(path: Option<String>, old: Option<String>, new: Option<String>) -> (r: Result<
    (String, String, String),
    &'static str,
>)
    ensures
        match r {
            Ok((p, o, n)) => path matches Some(p0) && old matches Some(o0) && new matches Some(n0)
                && p@ == p0@ && o@ == o0@ && n@ == n0@,
            Err(e) => if path is None {
                e@ == "please provide a path"@
            } else if old is None {
                e@ == "please provide the old snippet that should be replaced."@
            } else {
                new is None && e@ == "please provide a new snippet to be inserted in the file"@
            },
        },
{
    let p = match path {
        Some(p) => p,
        None => return Err("please provide a path"),
    };
    let o = match old {
        Some(o) => o,
        None => return Err("please provide the old snippet that should be replaced."),
    };
    let n = match new {
        Some(n) => n,
        None => return Err("please provide a new snippet to be inserted in the file"),
    };
    Ok((p, o, n))
}

/// The `path` and `content` arguments of a file creation, each refused in
/// turn when missing.
pub fn create_args(path: Option<String>, content: Option<String>) -> (r: Result<
    (String, String),
    &'static str,
>)
    ensures
        match r {
            Ok((p, c)) => path matches Some(p0) && content matches Some(c0) && p@ == p0@ && c@
                == c0@,
            Err(e) => if path is None {
                e@ == "please provide a path"@
            } else {
                content is None && e@ == "please provide content"@
            },
        },
{
    let p = match path {
        Some(p) => p,
        None => return Err("please provide a path"),
    };
    let c = match content {
        Some(c) => c,
        None => return Err("please provide content"),
    };
    Ok((p, c))
}

/// The `path` argument of a directory tool, refused when missing.
pub fn path_arg(path: Option<String>) -> (r: Result<String, &'static str>)
    ensures
        match r {
            Ok(p) => path matches Some(p0) && p@ == p0@,
            Err(e) => path is None && e@ == "please provide a path"@,
        },
{
    match path {
        Some(p) => Ok(p),
        None => Err("please provide a path"),
    }
}

/// A ranged read's arguments.
#[derive(Debug, Clone)]
pub struct ReadArgs {
    pub path: String,
    pub offset: Option<u64>,
    pub length: Option<usize>,
}

/// A requested length, kept when it fits in a `usize`.
pub open spec fn length_spec(n: Option<u64>) -> Option<usize> {
    match n {
        Some(n) => if n <= usize::MAX {
            Some(n as usize)
        } else {
            None
        },
        None => None,
    }
}

/// The arguments of a read: `path` (refused when missing), and the
/// `offset` and `length` given as non-negative integers (`None` when
/// missing or of another kind); a length too large for a `usize` is
/// dropped.
pub fn read_args(path: Option<String>, offset: Option<u64>, length: Option<u64>) -> (r: Result<
    ReadArgs,
    &'static str,
>)
    ensures
        match r {
            Ok(a) => path matches Some(p) && a.path@ == p@ && a.offset == offset && a.length
                == length_spec(length),
            Err(e) => path is None && e@ == "please provide a path"@,
        },
{
    let p = match path {
        Some(p) => p,
        None => return Err("please provide a path"),
    };
    let len = match length {
        Some(n) => if n <= usize::MAX as u64 {
            Some(n as usize)
        } else {
            None
        },
        None => None,
    };
    Ok(ReadArgs { path: p, offset, length: len })
}

/// How an optional number shows in a report: `Some(n)` or `None`.
pub open spec fn debug_opt_spec(n: Option<nat>) -> Seq<char> {
    match n {
        Some(n) => "Some("@ + decimal_spec(n) + ")"@,
        None => "None"@,
    }
}

fn debug_opt(n: Option<u64>) -> (r: String)
    ensures
        r@ == debug_opt_spec(
            match n {
                Some(n) => Some(n as nat),
                None => None,
            },
        ),
{
    match n {
        Some(n) => {
            let mut s = String::from_str("Some(");
            s.append(format_u64(n).as_str());
            s.append(")");
            s
        },
        None => String::from_str("None"),
    }
}

/// The header line of a read's report: what was read and how many bytes it
/// was.
pub open spec fn read_header_spec(
    path: Seq<char>,
    offset: Option<u64>,
    length: Option<usize>,
    bytes_read: nat,
) -> Seq<char> {
    "read file path: "@ + path + " (offset="@ + debug_opt_spec(
        match offset {
            Some(o) => Some(o as nat),
            None => None,
        },
    ) + ", length="@ + debug_opt_spec(
        match length {
            Some(l) => Some(l as nat),
            None => None,
        },
    ) + ", bytes_read="@ + decimal_spec(bytes_read) + ")"@
}

/// The report of a successful read: its header line, then the text read.
pub open spec fn read_report_spec(
    path: Seq<char>,
    offset: Option<u64>,
    length: Option<usize>,
    content: Seq<char>,
    bytes_read: nat,
) -> Seq<char> {
    read_header_spec(path, offset, length, bytes_read) + seq!['\n'] + content
}

/// The report of a read of `content` from `path` with `offset` and
/// `length`: a header line whose `bytes_read` is the content's length in
/// UTF-8 bytes (`str::len`), then the content itself, so that the agent
/// sees what the file holds.
pub fn read_report(path: &str, offset: Option<u64>, length: Option<usize>, content: &str) -> (r:
    String)
    ensures
        r@ == read_report_spec(path@, offset, length, content@, content.len() as nat),
{
    let bytes = content.len();
    let mut s = String::from_str("read file path: ");
    s.append(path);
    s.append(" (offset=");
    s.append(debug_opt(offset).as_str());
    s.append(", length=");
    let l: Option<u64> = match length {
        Some(l) => Some(l as u64),
        None => None,
    };
    s.append(debug_opt(l).as_str());
    s.append(", bytes_read=");
    s.append(format_u64(bytes as u64).as_str());
    s.append(")\n");
    s.append(content);
    proof {
        reveal_strlit(")\n");
        reveal_strlit(")");
    }
    s
}

} // verus!

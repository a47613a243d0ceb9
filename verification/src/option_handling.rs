//! Argument handling for the file-menu requests: each function takes the
//! pipe-separated argument fields of one request, parses them, runs the file
//! operation, and yields the status code to reply with. A malformed field —
//! too few arguments, a bad number, a bad permission — yields nothing, and
//! the connection handling the request is closed.

use crate::file_system::FileRecord;
use crate::file_system::FileSystem;
use crate::file_system::FsState;
use crate::file_system::Permission;
use crate::file_system::SystemResult;
use crate::file_system::_File;
use crate::numbers::all_digits;
use crate::numbers::decimal_value;
use crate::numbers::parse_usize;
use crate::protocol::parse_permission;
use crate::protocol::permission_of_text;
use vstd::prelude::*;

verus! {

/// The number a text field denotes, if it is one or more digits and fits the
/// machine word.
pub open spec fn usize_of_text(s: Seq<char>) -> Option<int> {
    if s.len() > 0 && all_digits(s) && decimal_value(s) <= usize::MAX {
        Some(decimal_value(s))
    } else {
        None
    }
}

/// Outcome of `create` on the argument fields
/// `name | content | owner_permission | others_permission`.
pub open spec fn spec_create_file(s: FsState, args: Seq<Seq<char>>) -> Option<(
    FsState,
    SystemResult,
)> {
    if args.len() < 4 {
        None
    } else {
        match (permission_of_text(args[2]), permission_of_text(args[3])) {
            (Some(owner_permission), Some(others_permission)) => Some(
                s.spec_add_file(
                    FileRecord {
                        name: args[0],
                        content: args[1],
                        owner_permission,
                        others_permission,
                    },
                ),
            ),
            _ => None,
        }
    }
}

/// Outcome of `delete` on the argument fields `name`.
pub open spec fn spec_delete_file(s: FsState, args: Seq<Seq<char>>) -> Option<(
    FsState,
    SystemResult,
)> {
    if args.len() < 1 {
        None
    } else {
        Some(s.spec_delete_file(args[0]))
    }
}

/// Outcome of `rename` on the argument fields `name | new_name`.
pub open spec fn spec_rename_file(s: FsState, args: Seq<Seq<char>>) -> Option<(
    FsState,
    SystemResult,
)> {
    if args.len() < 2 {
        None
    } else {
        Some(s.spec_rename_file(args[0], args[1]))
    }
}

/// Outcome of `open` on the argument fields `name | permission`.
pub open spec fn spec_open_file(s: FsState, args: Seq<Seq<char>>) -> Option<(
    FsState,
    SystemResult,
)> {
    if args.len() < 2 {
        None
    } else {
        match permission_of_text(args[1]) {
            Some(p) => Some(s.spec_open_file(args[0], p)),
            None => None,
        }
    }
}

/// Outcome of `close` on the argument fields `fd`.
pub open spec fn spec_close_file(s: FsState, args: Seq<Seq<char>>) -> Option<(
    FsState,
    SystemResult,
)> {
    if args.len() < 1 {
        None
    } else {
        match usize_of_text(args[0]) {
            Some(fd) => Some(s.spec_close_file(fd)),
            None => None,
        }
    }
}

/// Outcome of `read` on the argument fields `fd | length`. The reply is the
/// status code alone; the characters read are not part of it.
pub open spec fn spec_read_file(s: FsState, args: Seq<Seq<char>>) -> Option<(
    FsState,
    SystemResult,
)> {
    if args.len() < 2 {
        None
    } else {
        match (usize_of_text(args[0]), usize_of_text(args[1])) {
            (Some(fd), Some(len)) => Some((s, s.spec_read_file(fd, len).0)),
            _ => None,
        }
    }
}

/// Outcome of `write` on the argument fields `fd | content | length`.
pub open spec fn spec_write_to_file(s: FsState, args: Seq<Seq<char>>) -> Option<(
    FsState,
    SystemResult,
)> {
    if args.len() < 3 {
        None
    } else {
        match (usize_of_text(args[0]), usize_of_text(args[2])) {
            (Some(fd), Some(len)) => Some(s.spec_write_to_file(fd, args[1], len)),
            _ => None,
        }
    }
}

/// The argument field at `index`, if there is one.
fn get_string(args: &Vec<String>, index: usize) -> (r: Option<String>)
    ensures
        r is Some <==> index < args@.len(),
        r matches Some(s) ==> s@ == args@[index as int]@,
{
    if index < args.len() {
        Some(args[index].clone())
    } else {
        None
    }
}

/// The argument field at `index` read as an unsigned number, if there is one
/// and it is one.
fn get_usize(args: &Vec<String>, index: usize) -> (r: Option<usize>)
    ensures
        r is Some <==> (index < args@.len() && usize_of_text(args@[index as int]@) is Some),
        r matches Some(v) ==> v == decimal_value(args@[index as int]@),
{
    if index < args.len() {
        parse_usize(args[index].as_str())
    } else {
        None
    }
}

/// The argument field at `index` read as a permission, if there is one and
/// it is one.
fn get_permission(args: &Vec<String>, index: usize) -> (r: Option<Permission>)
    ensures
        index < args@.len() ==> r == permission_of_text(args@[index as int]@),
        index >= args@.len() ==> r is None,
{
    if index < args.len() {
        parse_permission(args[index].as_str())
    } else {
        None
    }
}

/// `create` on one request's argument fields.
pub fn create_file(file_system: &mut FileSystem, args: &Vec<String>) -> (r: Option<SystemResult>)
    requires
        old(file_system).wf(),
    ensures
        final(file_system).wf(),
        match spec_create_file(old(file_system)@, args@.map_values(|a: String| a@)) {
            Some(t) => final(file_system)@ == t.0 && r == Some(t.1),
            None => *final(file_system) == *old(file_system) && r is None,
        },
{
    let name = match get_string(args, 0) {
        Some(s) => s,
        None => {
            return None;
        },
    };
    let content = match get_string(args, 1) {
        Some(s) => s,
        None => {
            return None;
        },
    };
    let owner_permission = match get_permission(args, 2) {
        Some(p) => p,
        None => {
            return None;
        },
    };
    let others_permission = match get_permission(args, 3) {
        Some(p) => p,
        None => {
            return None;
        },
    };
    let new_file = _File::new(name, content, owner_permission, others_permission);
    Some(file_system.add_file(new_file))
}

/// `delete` on one request's argument fields.
pub fn delete_file(file_system: &mut FileSystem, args: &Vec<String>) -> (r: Option<SystemResult>)
    requires
        old(file_system).wf(),
    ensures
        final(file_system).wf(),
        match spec_delete_file(old(file_system)@, args@.map_values(|a: String| a@)) {
            Some(t) => final(file_system)@ == t.0 && r == Some(t.1),
            None => *final(file_system) == *old(file_system) && r is None,
        },
{
    let name = match get_string(args, 0) {
        Some(s) => s,
        None => {
            return None;
        },
    };
    Some(file_system.delete_file(name))
}

/// `rename` on one request's argument fields.
pub fn rename_file(file_system: &mut FileSystem, args: &Vec<String>) -> (r: Option<SystemResult>)
    requires
        old(file_system).wf(),
    ensures
        final(file_system).wf(),
        match spec_rename_file(old(file_system)@, args@.map_values(|a: String| a@)) {
            Some(t) => final(file_system)@ == t.0 && r == Some(t.1),
            None => *final(file_system) == *old(file_system) && r is None,
        },
{
    let name = match get_string(args, 0) {
        Some(s) => s,
        None => {
            return None;
        },
    };
    let new_name = match get_string(args, 1) {
        Some(s) => s,
        None => {
            return None;
        },
    };
    Some(file_system.rename_file(name, new_name))
}

/// `open` on one request's argument fields.
pub fn open_file(file_system: &mut FileSystem, args: &Vec<String>) -> (r: Option<SystemResult>)
    requires
        old(file_system).wf(),
    ensures
        final(file_system).wf(),
        match spec_open_file(old(file_system)@, args@.map_values(|a: String| a@)) {
            Some(t) => final(file_system)@ == t.0 && r == Some(t.1),
            None => *final(file_system) == *old(file_system) && r is None,
        },
{
    let name = match get_string(args, 0) {
        Some(s) => s,
        None => {
            return None;
        },
    };
    let open_permission = match get_permission(args, 1) {
        Some(p) => p,
        None => {
            return None;
        },
    };
    Some(file_system.open_file(name, open_permission))
}

/// `close` on one request's argument fields.
pub fn close_file(file_system: &mut FileSystem, args: &Vec<String>) -> (r: Option<SystemResult>)
    requires
        old(file_system).wf(),
    ensures
        final(file_system).wf(),
        match spec_close_file(old(file_system)@, args@.map_values(|a: String| a@)) {
            Some(t) => final(file_system)@ == t.0 && r == Some(t.1),
            None => *final(file_system) == *old(file_system) && r is None,
        },
{
    let fd = match get_usize(args, 0) {
        Some(v) => v,
        None => {
            return None;
        },
    };
    Some(file_system.close_file(fd))
}

/// `read` on one request's argument fields. The reply is the status code;
/// the characters read are computed and discarded here, as the reply line
/// carries only the code.
pub fn read_file(file_system: &mut FileSystem, args: &Vec<String>) -> (r: Option<SystemResult>)
    requires
        old(file_system).wf(),
    ensures
        final(file_system).wf(),
        match spec_read_file(old(file_system)@, args@.map_values(|a: String| a@)) {
            Some(t) => final(file_system)@ == t.0 && r == Some(t.1),
            None => *final(file_system) == *old(file_system) && r is None,
        },
{
    let fd = match get_usize(args, 0) {
        Some(v) => v,
        None => {
            return None;
        },
    };
    let len_to_read = match get_usize(args, 1) {
        Some(v) => v,
        None => {
            return None;
        },
    };
    let (result, _content) = file_system.read_file(fd, len_to_read);
    Some(result)
}

/// `write` on one request's argument fields.
pub fn write_to_file(file_system: &mut FileSystem, args: &Vec<String>) -> (r: Option<SystemResult>)
    requires
        old(file_system).wf(),
    ensures
        final(file_system).wf(),
        match spec_write_to_file(old(file_system)@, args@.map_values(|a: String| a@)) {
            Some(t) => final(file_system)@ == t.0 && r == Some(t.1),
            None => *final(file_system) == *old(file_system) && r is None,
        },
{
    let fd = match get_usize(args, 0) {
        Some(v) => v,
        None => {
            return None;
        },
    };
    let content = match get_string(args, 1) {
        Some(s) => s,
        None => {
            return None;
        },
    };
    let len_to_write = match get_usize(args, 2) {
        Some(v) => v,
        None => {
            return None;
        },
    };
    Some(file_system.write_to_file(fd, content, len_to_write))
}

} // verus!

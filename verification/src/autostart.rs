//! Autostart, via the per-user `Run` key.
//!
//! Per-user so no elevation is needed and nothing lands in machine-wide state.

use vstd::prelude::*;

use crate::clipboard;
use crate::text;
use crate::utf16;

verus! {

pub const RUN_KEY: &'static str = "SOFTWARE\\Microsoft\\Windows\\CurrentVersion\\Run";

pub const VALUE_NAME: &'static str = "ClipPlus";

pub const ERROR_SUCCESS: i32 = 0;

pub const ERROR_FILE_NOT_FOUND: i32 = 2;

/// The command that is stored. Quoted, because the path commonly contains spaces
/// and an unquoted path silently fails to launch.
pub open spec fn quoted(path: Seq<char>) -> Seq<char> {
    "\""@ + path + "\""@
}

/// What has to be done to the `Run` key.
#[derive(Debug)]
pub enum Change {
    /// The executable's own path is not known, so nothing can be stored.
    Unresolved,
    /// Store these bytes: UTF-16 text with its terminator.
    Store(Vec<u8>),
    Remove,
}

/// What switching autostart on or off asks for. `path` is where the executable is.
pub fn set_enabled(enabled: bool, path: &Option<String>) -> (r: Change)
    ensures
        match r {
            Change::Unresolved => enabled && path is None,
            Change::Store(bytes) => enabled && path is Some && bytes@ == clipboard::unit_bytes(
                utf16::encoded(quoted(path->0@)).push(0),
            ),
            Change::Remove => !enabled,
        },
{
    if !enabled {
        return Change::Remove;
    }
    match path {
        Some(at) => {
            let mut command = "\"".to_owned();
            command.append(at);
            command.append("\"");
            match clipboard::write_unicode_text(&command) {
                Some(bytes) => Change::Store(bytes),
                None => {
                    proof {
                        reveal_strlit("\"");
                        assert(command@.len() > 0);
                    }
                    Change::Unresolved
                },
            }
        },
        None => Change::Unresolved,
    }
}

/// Whether a read or a write of the key worked: it could be opened, and the call
/// returned this code.
pub fn succeeded(opened: bool, code: i32) -> (r: bool)
    ensures
        r == (opened && code == ERROR_SUCCESS),
{
    opened && code == ERROR_SUCCESS
}

/// Whether a removal worked. A key or a value that is not there is the desired end
/// state, not a failure.
pub fn removed(opened: bool, code: i32) -> (r: bool)
    ensures
        r == (!opened || code == ERROR_SUCCESS || code == ERROR_FILE_NOT_FOUND),
{
    !opened || code == ERROR_SUCCESS || code == ERROR_FILE_NOT_FOUND
}

/// The executable's own path, from the buffer it was written into and the length
/// that was reported; no length is no path.
pub fn exe_path(buffer: &Vec<u16>, length: usize) -> (r: Option<String>)
    ensures
        text::opt_view(r) == (if length == 0 {
            None
        } else if length <= buffer@.len() {
            Some(utf16::decoded(buffer@.take(length as int)))
        } else {
            Some(utf16::decoded(buffer@))
        }),
{
    if length == 0 {
        return None;
    }
    let mut units: Vec<u16> = Vec::new();
    let end: usize = if length <= buffer.len() {
        length
    } else {
        buffer.len()
    };
    let mut i: usize = 0;
    while i < end
        invariant
            i <= end <= buffer@.len(),
            units@ == buffer@.take(i as int),
        decreases end - i,
    {
        units.push(buffer[i]);
        i += 1;
        assert(units@ =~= buffer@.take(i as int));
    }
    assert(buffer@.take(buffer@.len() as int) =~= buffer@);
    Some(utf16::decode(&units))
}

/// The command is the path between two quotation marks.
pub proof fn law_quoted(path: Seq<char>)
    ensures
        quoted(path).len() == path.len() + 2,
        quoted(path)[0] == '"',
        quoted(path).last() == '"',
        quoted(path).subrange(1, path.len() as int + 1) == path,
{
    reveal_strlit("\"");
    assert(quoted(path).subrange(1, path.len() as int + 1) =~= path);
}

} // verus!

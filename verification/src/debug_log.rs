//! The debug log: where it lives and what a line of it looks like. Writing
//! the line to the file is left to the caller.

use vstd::prelude::*;
use vstd::string::StringExecFns;

verus! {

/// The pattern in which a log line's time is written, in the notation of
/// `strftime`.
pub const TIMESTAMP_FORMAT: &'static str = "%Y-%m-%d %H:%M:%S";

/// The file that cleaning writes to.
pub const CLEANING_LOG: &'static str = "cleaning.log";

/// The directories of the user that the host's environment names, each absent
/// where the environment does not name it.
#[derive(Debug)]
pub struct HostDirs {
    /// The user's directory for local application data.
    pub local_app_data: Option<String>,
    /// The user's profile directory.
    pub user_profile: Option<String>,
    /// The user's home directory.
    pub home: Option<String>,
}

/// The directory for logs as a path in components, outermost first: on
/// Windows below the local application data, found directly or through the
/// user's profile; elsewhere below the home directory. `None` where the
/// environment names no directory to start from.
pub open spec fn log_dir_parts(windows: bool, dirs: HostDirs) -> Option<Seq<Seq<char>>> {
    if windows {
        match (dirs.local_app_data, dirs.user_profile) {
            (Some(base), _) => Some(seq![base@, "wole"@, "logs"@]),
            (None, Some(profile)) => Some(
                seq![profile@, "AppData"@, "Local"@, "wole"@, "logs"@],
            ),
            (None, None) => None,
        }
    } else {
        match dirs.home {
            Some(home) => Some(seq![home@, ".local"@, "share"@, "wole"@, "logs"@]),
            None => None,
        }
    }
}

/// The texts of a list of strings.
pub open spec fn texts(parts: Seq<String>) -> Seq<Seq<char>> {
    Seq::new(parts.len(), |i: int| parts[i]@)
}

/// Computes [`log_dir_parts`].
pub fn log_dir(windows: bool, dirs: &HostDirs) -> (parts: Option<Vec<String>>)
    ensures
        match parts {
            Some(parts) => log_dir_parts(windows, *dirs) == Some(texts(parts@)),
            None => log_dir_parts(windows, *dirs) is None,
        },
{
    let mut parts: Vec<String> = Vec::new();
    if windows {
        match (&dirs.local_app_data, &dirs.user_profile) {
            (Some(base), _) => {
                parts.push(base.clone());
            },
            (None, Some(profile)) => {
                parts.push(profile.clone());
                parts.push(String::from_str("AppData"));
                parts.push(String::from_str("Local"));
            },
            (None, None) => {
                return None;
            },
        }
    } else {
        match &dirs.home {
            Some(home) => {
                parts.push(home.clone());
                parts.push(String::from_str(".local"));
                parts.push(String::from_str("share"));
            },
            None => {
                return None;
            },
        }
    }
    parts.push(String::from_str("wole"));
    parts.push(String::from_str("logs"));
    proof {
        assert(log_dir_parts(windows, *dirs)->0 =~= texts(parts@));
    }
    Some(parts)
}

/// The file `file_name` in the directory for logs, in components.
pub fn log_path(windows: bool, dirs: &HostDirs, file_name: &str) -> (parts: Option<Vec<String>>)
    ensures
        match parts {
            Some(parts) => log_dir_parts(windows, *dirs) is Some && texts(parts@)
                == log_dir_parts(windows, *dirs)->0.push(file_name@),
            None => log_dir_parts(windows, *dirs) is None,
        },
{
    match log_dir(windows, dirs) {
        Some(mut parts) => {
            let ghost dir = texts(parts@);
            parts.push(String::from_str(file_name));
            proof {
                assert(texts(parts@) =~= dir.push(file_name@));
            }
            Some(parts)
        },
        None => None,
    }
}

/// A line of the log: the time in square brackets, a space, the message.
pub open spec fn log_line_text(timestamp: Seq<char>, message: Seq<char>) -> Seq<char> {
    seq!['['] + timestamp + seq![']', ' '] + message
}

/// Computes [`log_line_text`].
pub fn log_line(timestamp: &str, message: &str) -> (line: String)
    ensures
        line@ == log_line_text(timestamp@, message@),
{
    let mut line = String::new();
    crate::text::push_char(&mut line, '[');
    line.append(timestamp);
    crate::text::push_char(&mut line, ']');
    crate::text::push_char(&mut line, ' ');
    line.append(message);
    proof {
        assert(line@ =~= log_line_text(timestamp@, message@));
    }
    line
}

/// Something to append to a log file.
#[derive(Debug)]
pub struct LogEntry {
    /// The file's name within the directory for logs.
    pub file_name: String,
    /// The line, without its line end.
    pub line: String,
}

/// The entry that records `message` in the cleaning log, stamped with the
/// time `timestamp`, which the caller reads off the clock and writes in the
/// pattern [`TIMESTAMP_FORMAT`].
pub fn cleaning_log(timestamp: &str, message: &str) -> (entry: LogEntry)
    ensures
        entry.file_name@ == CLEANING_LOG@,
        entry.line@ == log_line_text(timestamp@, message@),
{
    LogEntry { file_name: String::from_str(CLEANING_LOG), line: log_line(timestamp, message) }
}

} // verus!

//! The scan command's decisions: which categories a request selects, whether
//! the scan cache is used and which of its parts are cleared, and how size
//! thresholds convert.

use vstd::prelude::*;
use vstd::string::StringExecFns;

verus! {

/// What is said where a request names no category.
pub const NO_CATEGORIES: &'static str =
    "No categories specified. Use --all or specify categories like --cache, --app-cache, --temp, --build";

/// Where to read on, said with [`NO_CATEGORIES`].
pub const SEE_HELP: &'static str = "Run 'wole scan --help' for more information.";

/// The categories a user can ask for by name.
#[derive(Clone, Copy, Debug, PartialEq, Eq, Structural)]
pub struct CategoryFlags {
    pub cache: bool,
    pub app_cache: bool,
    pub temp: bool,
    pub trash: bool,
    pub build: bool,
    pub downloads: bool,
    pub large: bool,
    pub old: bool,
    pub applications: bool,
    pub windows_update: bool,
    pub event_logs: bool,
}

/// Every category there is, each selected or not.
#[derive(Clone, Copy, Debug, PartialEq, Eq, Structural)]
pub struct Selection {
    pub cache: bool,
    pub app_cache: bool,
    pub temp: bool,
    pub trash: bool,
    pub build: bool,
    pub downloads: bool,
    pub large: bool,
    pub old: bool,
    pub applications: bool,
    pub browser: bool,
    pub system: bool,
    pub empty: bool,
    pub duplicates: bool,
    pub windows_update: bool,
    pub event_logs: bool,
}

/// What the scan command does with a request.
#[derive(Clone, Copy, Debug, PartialEq, Eq, Structural)]
pub enum ScanCommand {
    /// No category was asked for: the user is told how to ask.
    ShowHelp,
    /// These categories are scanned.
    Scan(Selection),
}

impl CategoryFlags {
    /// Whether any category is asked for by name.
    pub open spec fn any(self) -> bool {
        self.cache || self.app_cache || self.temp || self.trash || self.build || self.downloads
            || self.large || self.old || self.applications || self.windows_update
            || self.event_logs
    }
}

/// The selection a request comes to: with `all`, every category; with
/// categories named, those, and none of the four that cannot be named; with
/// neither, nothing is scanned.
pub open spec fn selected(all: bool, flags: CategoryFlags) -> ScanCommand {
    if all {
        ScanCommand::Scan(
            Selection {
                cache: true,
                app_cache: true,
                temp: true,
                trash: true,
                build: true,
                downloads: true,
                large: true,
                old: true,
                applications: true,
                browser: true,
                system: true,
                empty: true,
                duplicates: true,
                windows_update: true,
                event_logs: true,
            },
        )
    } else if !flags.any() {
        ScanCommand::ShowHelp
    } else {
        ScanCommand::Scan(
            Selection {
                cache: flags.cache,
                app_cache: flags.app_cache,
                temp: flags.temp,
                trash: flags.trash,
                build: flags.build,
                downloads: flags.downloads,
                large: flags.large,
                old: flags.old,
                applications: flags.applications,
                browser: false,
                system: false,
                empty: false,
                duplicates: false,
                windows_update: flags.windows_update,
                event_logs: flags.event_logs,
            },
        )
    }
}

/// Computes [`selected`].
pub fn handle_scan(all: bool, flags: &CategoryFlags) -> (command: ScanCommand)
    ensures
        command == selected(all, *flags),
{
    if all {
        ScanCommand::Scan(
            Selection {
                cache: true,
                app_cache: true,
                temp: true,
                trash: true,
                build: true,
                downloads: true,
                large: true,
                old: true,
                applications: true,
                browser: true,
                system: true,
                empty: true,
                duplicates: true,
                windows_update: true,
                event_logs: true,
            },
        )
    } else if !flags.cache && !flags.app_cache && !flags.temp && !flags.trash && !flags.build
        && !flags.downloads && !flags.large && !flags.old && !flags.applications
        && !flags.windows_update && !flags.event_logs {
        ScanCommand::ShowHelp
    } else {
        ScanCommand::Scan(
            Selection {
                cache: flags.cache,
                app_cache: flags.app_cache,
                temp: flags.temp,
                trash: flags.trash,
                build: flags.build,
                downloads: flags.downloads,
                large: flags.large,
                old: flags.old,
                applications: flags.applications,
                browser: false,
                system: false,
                empty: false,
                duplicates: false,
                windows_update: flags.windows_update,
                event_logs: flags.event_logs,
            },
        )
    }
}

/// The scan cache is used unless the request forbids it, the configuration
/// switches it off, or a full scan is forced.
pub fn use_cache(no_cache: bool, cache_enabled: bool, force_full: bool) -> (used: bool)
    ensures
        used == (!no_cache && cache_enabled && !force_full),
{
    !no_cache && cache_enabled && !force_full
}

/// `name` if `wanted`, else nothing.
pub open spec fn named_if(wanted: bool, name: Seq<char>) -> Seq<Seq<char>> {
    if wanted {
        seq![name]
    } else {
        Seq::empty()
    }
}

/// The parts of the scan cache that a request clears, by name: those of the
/// categories that can be named, all of them with `all`.
pub open spec fn cleared_parts(all: bool, flags: CategoryFlags) -> Seq<Seq<char>> {
    named_if(all || flags.cache, "cache"@) + named_if(all || flags.app_cache, "app_cache"@)
        + named_if(all || flags.temp, "temp"@) + named_if(all || flags.trash, "trash"@) + named_if(
        all || flags.build,
        "build"@,
    ) + named_if(all || flags.downloads, "downloads"@) + named_if(all || flags.large, "large"@)
        + named_if(all || flags.old, "old"@) + named_if(
        all || flags.applications,
        "applications"@,
    ) + named_if(all || flags.windows_update, "windows_update"@) + named_if(
        all || flags.event_logs,
        "event_logs"@,
    )
}

/// The texts of a list of names.
pub open spec fn name_texts(names: Seq<&'static str>) -> Seq<Seq<char>> {
    Seq::new(names.len(), |i: int| names[i]@)
}

fn note(wanted: bool, name: &'static str, names: &mut Vec<&'static str>)
    ensures
        name_texts(final(names)@) == name_texts(old(names)@) + named_if(wanted, name@),
{
    if wanted {
        names.push(name);
    }
    proof {
        assert(name_texts(names@) =~= name_texts(old(names)@) + named_if(wanted, name@));
    }
}

/// Computes [`cleared_parts`].
pub fn cache_parts_to_clear(all: bool, flags: &CategoryFlags) -> (names: Vec<&'static str>)
    ensures
        name_texts(names@) == cleared_parts(all, *flags),
{
    let mut names: Vec<&'static str> = Vec::new();
    proof {
        assert(name_texts(names@) =~= Seq::<Seq<char>>::empty());
    }
    note(all || flags.cache, "cache", &mut names);
    note(all || flags.app_cache, "app_cache", &mut names);
    note(all || flags.temp, "temp", &mut names);
    note(all || flags.trash, "trash", &mut names);
    note(all || flags.build, "build", &mut names);
    note(all || flags.downloads, "downloads", &mut names);
    note(all || flags.large, "large", &mut names);
    note(all || flags.old, "old", &mut names);
    note(all || flags.applications, "applications", &mut names);
    note(all || flags.windows_update, "windows_update", &mut names);
    note(all || flags.event_logs, "event_logs", &mut names);
    proof {
        assert(name_texts(names@) =~= cleared_parts(all, *flags));
    }
    names
}

/// The bytes in a megabyte, as size thresholds count them.
pub const MEGABYTE: u64 = 1048576;

/// A size in whole megabytes, rounded down.
pub fn whole_megabytes(bytes: u64) -> (megabytes: u64)
    ensures
        megabytes == bytes / MEGABYTE,
{
    bytes / MEGABYTE
}

/// A size in megabytes, in bytes; `None` where that is beyond `u64`.
pub fn megabytes_in_bytes(megabytes: u64) -> (bytes: Option<u64>)
    ensures
        match bytes {
            Some(bytes) => bytes == megabytes * MEGABYTE,
            None => megabytes * MEGABYTE > u64::MAX,
        },
{
    megabytes.checked_mul(MEGABYTE)
}

/// What is said of a size that cannot be read.
pub fn invalid_size_message(given: &str, cause: &str) -> (out: String)
    ensures
        out@ == "Invalid size format '"@ + given@ + "': "@ + cause@,
{
    String::from_str("Invalid size format '").concat(given).concat("': ").concat(cause)
}

} // verus!

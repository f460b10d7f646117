//! The directory tree below `~/.aud`.
//!
//! ```text
//! ~/.aud
//! ├── api
//! ├── bin
//! └── log
//! ```
use vstd::prelude::*;
use vstd::string::StringExecFns;

verus! {

/// The path that `std::path::Path::join` yields for `base` extended by `part`.
pub uninterp spec fn path_join(base: Seq<char>, part: Seq<char>) -> Seq<char>;

/// Calls `std::path::Path::join`. Both arguments are UTF-8, so the joined
/// path is too and its text is handed back unchanged; the contract only names
/// that text.
#[verifier::external_body]
pub(crate) fn join(base: &str, part: &str) -> (path: String)
    ensures
        path@ == path_join(base@, part@),
{
    std::path::Path::new(base).join(part).to_string_lossy().into_owned()
}

/// Calls `dirs::home_dir`. The answer depends on the user and the
/// environment of the process, so nothing is claimed of it.
#[verifier::external_body]
pub(crate) fn home_dir() -> Option<String> {
    dirs::home_dir().map(|p| p.to_string_lossy().into_owned())
}

/// Root of the tree for a user whose home directory is `home`.
pub open spec fn spec_aud(home: Seq<char>) -> Seq<char> {
    path_join(home, ".aud"@)
}

/// Directory of installed binaries.
pub open spec fn spec_bin(home: Seq<char>) -> Seq<char> {
    path_join(spec_aud(home), "bin"@)
}

/// Directory of script API stubs and examples.
pub open spec fn spec_api(home: Seq<char>) -> Seq<char> {
    path_join(spec_aud(home), "api"@)
}

/// Directory of log files.
pub open spec fn spec_log(home: Seq<char>) -> Seq<char> {
    path_join(spec_aud(home), "log"@)
}

/// The place in the tree of a user who may have no home directory: the place
/// under the home, or none.
pub open spec fn under(home: Option<Seq<char>>, place: spec_fn(Seq<char>) -> Seq<char>) -> Option<
    Seq<char>,
> {
    match home {
        Some(h) => Some(place(h)),
        None => None,
    }
}

/// The text of a path that may be missing.
pub open spec fn text_of(path: Option<&str>) -> Option<Seq<char>> {
    match path {
        Some(p) => Some(p@),
        None => None,
    }
}

/// `<home>/.aud`
pub fn aud_in(home: &str) -> (path: String)
    ensures
        path@ == spec_aud(home@),
{
    join(home, ".aud")
}

/// `<home>/.aud/bin`
pub fn bin_in(home: &str) -> (path: String)
    ensures
        path@ == spec_bin(home@),
{
    let root = aud_in(home);
    join(root.as_str(), "bin")
}

/// `<home>/.aud/api`
pub fn api_in(home: &str) -> (path: String)
    ensures
        path@ == spec_api(home@),
{
    let root = aud_in(home);
    join(root.as_str(), "api")
}

/// `<home>/.aud/log`
pub fn log_in(home: &str) -> (path: String)
    ensures
        path@ == spec_log(home@),
{
    let root = aud_in(home);
    join(root.as_str(), "log")
}

/// The log file of the command `command`.
pub open spec fn spec_log_file(home: Seq<char>, command: Seq<char>) -> Seq<char> {
    path_join(spec_log(home), command + ".log"@)
}

/// `<home>/.aud/log/<command>.log`
pub fn log_file_in(home: &str, command: &str) -> (path: String)
    ensures
        path@ == spec_log_file(home@, command@),
{
    let dir = log_in(home);
    let name = command.to_owned().concat(".log");
    join(dir.as_str(), name.as_str())
}

/// The log file of the command `command`, for a user whose home directory is `home`; none for a
/// user without one.
pub fn log_file_under(home: Option<&str>, command: &str) -> (path: Option<String>)
    ensures
        crate::events::name_view(path) == under(text_of(home), |h: Seq<char>| spec_log_file(h, command@)),
{
    match home {
        Some(home) => Some(log_file_in(home, command)),
        None => None,
    }
}

/// The log file of the command `command` for the current user.
pub fn log_file(command: &str) -> (path: Option<String>)
    ensures
        path matches Some(p) ==> exists|home: Seq<char>| p@ == spec_log_file(home, command@),
{
    let home = home_dir();
    log_file_under(
        match &home {
            Some(h) => Some(h.as_str()),
            None => None,
        },
        command,
    )
}

/// Root of the tree, for a user whose home directory is `home`; none for a
/// user without one.
pub fn aud_under(home: Option<&str>) -> (path: Option<String>)
    ensures
        crate::events::name_view(path) == under(text_of(home), |h: Seq<char>| spec_aud(h)),
{
    match home {
        Some(home) => Some(aud_in(home)),
        None => None,
    }
}

/// Root of the tree of the current user, or `None` when the user has no home
/// directory.
pub fn aud() -> (path: Option<String>)
    ensures
        path matches Some(p) ==> exists|home: Seq<char>| p@ == spec_aud(home),
{
    let home = home_dir();
    aud_under(
        match &home {
            Some(h) => Some(h.as_str()),
            None => None,
        },
    )
}

/// Directory of installed binaries, for a user whose home directory is `home`; none for a
/// user without one.
pub fn bin_under(home: Option<&str>) -> (path: Option<String>)
    ensures
        crate::events::name_view(path) == under(text_of(home), |h: Seq<char>| spec_bin(h)),
{
    match home {
        Some(home) => Some(bin_in(home)),
        None => None,
    }
}

/// Directory of installed binaries of the current user.
pub fn bin() -> (path: Option<String>)
    ensures
        path matches Some(p) ==> exists|home: Seq<char>| p@ == spec_bin(home),
{
    let home = home_dir();
    bin_under(
        match &home {
            Some(h) => Some(h.as_str()),
            None => None,
        },
    )
}

/// Directory of script API stubs, for a user whose home directory is `home`; none for a
/// user without one.
pub fn api_under(home: Option<&str>) -> (path: Option<String>)
    ensures
        crate::events::name_view(path) == under(text_of(home), |h: Seq<char>| spec_api(h)),
{
    match home {
        Some(home) => Some(api_in(home)),
        None => None,
    }
}

/// Directory of script API stubs of the current user.
pub fn api() -> (path: Option<String>)
    ensures
        path matches Some(p) ==> exists|home: Seq<char>| p@ == spec_api(home),
{
    let home = home_dir();
    api_under(
        match &home {
            Some(h) => Some(h.as_str()),
            None => None,
        },
    )
}

/// Directory of log files, for a user whose home directory is `home`; none for a
/// user without one.
pub fn log_under(home: Option<&str>) -> (path: Option<String>)
    ensures
        crate::events::name_view(path) == under(text_of(home), |h: Seq<char>| spec_log(h)),
{
    match home {
        Some(home) => Some(log_in(home)),
        None => None,
    }
}

/// Directory of log files of the current user.
pub fn log() -> (path: Option<String>)
    ensures
        path matches Some(p) ==> exists|home: Seq<char>| p@ == spec_log(home),
{
    let home = home_dir();
    log_under(
        match &home {
            Some(h) => Some(h.as_str()),
            None => None,
        },
    )
}

} // verus!

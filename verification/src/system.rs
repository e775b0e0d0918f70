//! The calls into the operating system's account of the current user that
//! the shell makes. Each result depends on the environment of the process
//! (its variables, the user database, the host's name), so no contract here
//! says what comes back: the functions that use them take the results as
//! arguments and say exactly what they make of each.
use vstd::prelude::*;

verus! {

/// A file system path as the shell reads it: its text where the path is
/// valid Unicode (what `Path::to_str` yields), `None` where it is not.
pub struct SystemPath {
    pub text: Option<String>,
}

/// Calls `dirs::home_dir`, which reads `$HOME` or else the user database,
/// and converts the path it gives with `Path::to_str`. Nothing is stated of
/// the result: it depends on the environment.
#[verifier::external_body]
pub(crate) fn home_dir() -> (r: Option<SystemPath>) {
    match dirs::home_dir() {
        Some(p) => Some(SystemPath {
            text: match p.to_str() {
                Some(s) => Some(s.to_owned()),
                None => None,
            },
        }),
        None => None,
    }
}

/// Calls `whoami::username`, `None` where it fails. Nothing is stated of
/// the result: it depends on the user database.
#[verifier::external_body]
pub(crate) fn username() -> (r: Option<String>) {
    match whoami::username() {
        Ok(name) => Some(name),
        Err(_) => None,
    }
}

/// Calls `whoami::hostname`, `None` where it fails. Nothing is stated of
/// the result: it depends on the host.
#[verifier::external_body]
pub(crate) fn hostname() -> (r: Option<String>) {
    match whoami::hostname() {
        Ok(name) => Some(name),
        Err(_) => None,
    }
}

} // verus!

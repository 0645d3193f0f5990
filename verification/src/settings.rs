//! What the server's settings file says, and what is read of the game's
//! own version.

use vstd::prelude::*;
use vstd::string::{StrSliceExecFns, StringExecFns};
use crate::text::to_chars;
use crate::version::field_end;

verus! {

/// Whether the server is listed in public.
#[derive(Clone, Copy, Debug, Default, PartialEq, Eq, Structural)]
pub struct Visibility {
    pub public: bool,
}

/// The settings of the server, of which the credentials for the mod
/// catalog are used.
#[derive(Debug)]
pub struct ServerSettings {
    pub token: String,
    pub visibility: Visibility,
    pub game_password: String,
    pub description: String,
    pub name: String,
    pub username: String,
}

/// The configuration of the server, as older settings files hold it.
#[derive(Debug)]
pub struct ServerConfig {
    pub token: String,
    pub visibility: Visibility,
    pub game_password: String,
    pub description: String,
    pub name: String,
    pub username: String,
}

/// Why the game's version could not be made out.
#[derive(Clone, Copy, Debug, PartialEq, Eq, Structural)]
pub enum VersionFormatError {
    /// The version has fewer than two dot-separated parts.
    TooFewComponents,
}

impl ServerSettings {
    /// Whether the settings hold what the catalog asks for before it
    /// hands out a download: a user name and a token, neither empty.
    pub fn has_credentials(&self) -> (r: bool)
        ensures
            r == (self.username@.len() > 0 && self.token@.len() > 0),
    {
        self.username.as_str().unicode_len() > 0 && self.token.as_str().unicode_len() > 0
    }
}

/// The game version that releases are made for, given the full version of
/// the game: its first two parts, `major.minor`.
pub open spec fn platform_version(version: Seq<char>) -> Result<Seq<char>, VersionFormatError> {
    let first = field_end(version, 0);
    if first >= version.len() {
        Err(VersionFormatError::TooFewComponents)
    } else {
        Ok(version.subrange(0, field_end(version, first + 1)))
    }
}

/// Reads the game version that releases are made for off the full
/// version of the game.
pub fn detect_platform_version(version: &str) -> (r: Result<String, VersionFormatError>)
    ensures
        match platform_version(version@) {
            Ok(p) => r matches Ok(text) && text@ == p,
            Err(e) => r == Err::<String, VersionFormatError>(e),
        },
{
    let chars = to_chars(version);
    let n = chars.len();
    let mut first: usize = 0;
    while first < n && chars[first] != '.'
        invariant
            first <= n,
            n == chars.len(),
            field_end(chars@, 0) == field_end(chars@, first as int),
        decreases n - first,
    {
        first = first + 1;
    }
    if first >= n {
        return Err(VersionFormatError::TooFewComponents);
    }
    let mut second: usize = first + 1;
    while second < n && chars[second] != '.'
        invariant
            first < second <= n,
            n == chars.len(),
            field_end(chars@, first + 1) == field_end(chars@, second as int),
        decreases n - second,
    {
        second = second + 1;
    }
    Ok(String::from_str(version.substring_char(0, second)))
}

} // verus!

use vstd::prelude::*;

use crate::socks::io_error_text;
use crate::text::{chars_to_string, push_str};

verus! {

#[verifier::external_type_specification]
#[verifier::external_body]
pub struct ExYamlError(serde_yaml::Error);

/// Name of the settings file in the home directory, same convention as `~/.mynosqlserver`.
pub const SETTINGS_FILE_NAME: &'static str = ".mysocksserver";

/// Settings problem found at startup; the message names the file or the key to fix.
#[derive(Debug)]
pub enum ConfigError {
    HomeNotSet,
    /// The file (shown as `path`) cannot be read.
    Read { path: String, error: std::io::Error },
    /// The file (shown as `path`) is not valid settings YAML.
    Parse { path: String, error: serde_yaml::Error },
    Invalid { key: &'static str, reason: String },
}

/// The message of an invalid setting.
pub open spec fn invalid_setting_text(key: Seq<char>, reason: Seq<char>) -> Seq<char> {
    "invalid setting `"@ + key + "`: "@ + reason
}

/// `text` is the message of `e`: for an unreadable or unparsable file, the file and then some
/// text of the underlying error.
pub open spec fn message_fits(e: &ConfigError, text: Seq<char>) -> bool {
    match e {
        ConfigError::HomeNotSet => text == "HOME is not set, cannot locate ~/"@ + SETTINGS_FILE_NAME@,
        ConfigError::Read { path, .. } => exists|t: Seq<char>|
            text == "cannot read settings file "@ + path@ + ": "@ + t,
        ConfigError::Parse { path, .. } => exists|t: Seq<char>|
            text == "invalid settings file "@ + path@ + ": "@ + t,
        ConfigError::Invalid { key, reason } => text == invalid_setting_text(key@, reason@),
    }
}

/// The text of a `serde_yaml` error (its `Display` form: what is wrong and where). Nothing is
/// claimed of it.
#[verifier::external_body]
fn yaml_error_text(error: &serde_yaml::Error) -> String {
    error.to_string()
}

impl ConfigError {
    /// The error message (its `Display` form). For an unreadable or unparsable file it is the
    /// file, then the underlying error's own text.
    pub fn message(&self) -> (r: String)
        ensures
            message_fits(self, r@),
    {
        let mut out: Vec<char> = Vec::new();
        match self {
            ConfigError::HomeNotSet => {
                push_str(&mut out, "HOME is not set, cannot locate ~/");
                push_str(&mut out, SETTINGS_FILE_NAME);
            },
            ConfigError::Read { path, error } => {
                push_str(&mut out, "cannot read settings file ");
                push_str(&mut out, path.as_str());
                push_str(&mut out, ": ");
                let text = io_error_text(error);
                push_str(&mut out, text.as_str());
                assert(out@ =~= "cannot read settings file "@ + path@ + ": "@ + text@);
            },
            ConfigError::Parse { path, error } => {
                push_str(&mut out, "invalid settings file ");
                push_str(&mut out, path.as_str());
                push_str(&mut out, ": ");
                let text = yaml_error_text(error);
                push_str(&mut out, text.as_str());
                assert(out@ =~= "invalid settings file "@ + path@ + ": "@ + text@);
            },
            ConfigError::Invalid { key, reason } => {
                push_str(&mut out, "invalid setting `");
                push_str(&mut out, key);
                push_str(&mut out, "`: ");
                push_str(&mut out, reason.as_str());
            },
        }
        proof {
            if *self is HomeNotSet {
                assert(out@ =~= "HOME is not set, cannot locate ~/"@ + SETTINGS_FILE_NAME@);
            }
            if let ConfigError::Invalid { key, reason } = self {
                assert(out@ =~= invalid_setting_text(key@, reason@));
            }
        }
        chars_to_string(out.as_slice())
    }
}

} // verus!

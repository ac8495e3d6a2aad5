//! Machine-readable output: the JSON envelope every command emits in JSON
//! mode, and how JSON and plain modes are switched on.

use vstd::prelude::*;
use crate::text::{ascii_lower_seq, ascii_lowercase, eq_str, to_owned_string, trim, trim_str};

verus! {

/// Environment variable that turns JSON output on.
pub const JSON_MODE_ENV: &'static str = "STARFORGE_OUTPUT_JSON";

/// Environment variable set by `--plain`.
pub const PLAIN_MODE_ENV: &'static str = "STARFORGE_PLAIN";

/// Cross-tool convention for turning colors off.
pub const NO_COLOR_ENV: &'static str = "NO_COLOR";

/// Project-namespaced equivalent of `NO_COLOR`.
pub const STARFORGE_NO_COLOR_ENV: &'static str = "STARFORGE_NO_COLOR";

/// The error part of an envelope.
#[derive(Debug, Clone, PartialEq, Eq)]
pub struct JsonErrorEnvelope {
    pub code: String,
    pub message: String,
}

/// The envelope around a command's JSON output: a schema version, whether
/// the command succeeded, and its data or its error.
#[derive(Debug, Clone, PartialEq, Eq)]
pub struct JsonEnvelope<T> {
    pub version: u64,
    pub ok: bool,
    pub data: Option<T>,
    pub error: Option<JsonErrorEnvelope>,
}

impl<T> JsonEnvelope<T> {
    /// The envelope of a successful command.
    pub fn success(data: T) -> (r: Self)
        ensures
            r.version == 1,
            r.ok,
            r.data == Some(data),
            r.error is None,
    {
        JsonEnvelope { version: 1, ok: true, data: Some(data), error: None }
    }

    /// The envelope of a failed command.
    pub fn failure(code: &str, message: &str) -> (r: Self)
        ensures
            r.version == 1,
            !r.ok,
            r.data is None,
            r.error matches Some(e) && e.code@ == code@ && e.message@ == message@,
    {
        JsonEnvelope {
            version: 1,
            ok: false,
            data: None,
            error: Some(JsonErrorEnvelope { code: to_owned_string(code), message: to_owned_string(message) }),
        }
    }
}

/// A truthy flag value: `1`, `true`, `yes` or `on`, after trimming and
/// ASCII lower-casing.
pub open spec fn truthy(value: Seq<char>) -> bool {
    let w = ascii_lower_seq(trim(value));
    w == "1"@ || w == "true"@ || w == "yes"@ || w == "on"@
}

/// Whether an environment value is truthy; an unset variable is not.
pub fn is_truthy(value: Option<&str>) -> (r: bool)
    ensures
        r == match value {
            Some(v) => truthy(v@),
            None => false,
        },
{
    match value {
        Some(v) => {
            let t = trim_str(v);
            let w = ascii_lowercase(&t);
            eq_str(&w, "1") || eq_str(&w, "true") || eq_str(&w, "yes") || eq_str(&w, "on")
        },
        None => false,
    }
}

/// Whether JSON output is on, given the value of `STARFORGE_OUTPUT_JSON`.
pub fn is_json_mode_enabled(json_env: Option<&str>) -> (r: bool)
    ensures
        r == match json_env {
            Some(v) => truthy(v@),
            None => false,
        },
{
    is_truthy(json_env)
}

/// Whether plain output is on, given `STARFORGE_PLAIN`, `NO_COLOR` and
/// `STARFORGE_NO_COLOR`: a truthy `--plain`, any non-empty `NO_COLOR`, or
/// a truthy `STARFORGE_NO_COLOR`.
pub fn plain_mode_from(plain_env: Option<&str>, no_color: Option<&str>, starforge_no_color: Option<&str>) -> (r: bool)
    ensures
        r == ((match plain_env {
            Some(v) => truthy(v@),
            None => false,
        }) || (match no_color {
            Some(v) => v@.len() > 0,
            None => false,
        }) || (match starforge_no_color {
            Some(v) => truthy(v@),
            None => false,
        })),
{
    if is_truthy(plain_env) {
        return true;
    }
    match no_color {
        Some(v) => {
            if v.unicode_len() > 0 {
                return true;
            }
        },
        None => {},
    }
    is_truthy(starforge_no_color)
}

} // verus!

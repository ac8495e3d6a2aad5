//! Command-line surface: the subcommands and their arguments as plain
//! values, and the decisions the commands make on them.

use vstd::prelude::*;
use crate::text::{push_str, str_eq, to_owned_string};

verus! {

/// `sep10 <command>`: SEP-10 web authentication helpers.
#[derive(Debug, Clone, PartialEq, Eq)]
pub enum Sep10Commands {
    /// Authenticate against a SEP-10 server and print the session token.
    Auth(Sep10AuthArgs),
}

/// Arguments of `sep10 auth`.
#[derive(Debug, Clone, PartialEq, Eq)]
pub struct Sep10AuthArgs {
    /// Home domain hosting the server's `stellar.toml`.
    pub domain: String,
    /// Saved wallet whose account authenticates.
    pub wallet: String,
    /// Memo ID the server should echo in the challenge.
    pub memo: Option<u64>,
    /// `client_domain` the server should pin in the challenge.
    pub client_domain: Option<String>,
    /// Show every step of the challenge/response flow.
    pub verbose: bool,
    /// Emit a JSON envelope instead of the bare token.
    pub json: bool,
}

/// `privacy <command>`.
#[derive(Debug, Clone, PartialEq, Eq)]
pub enum PrivacyCommands {
    /// Analyze a JSON payload for privacy risks and PII exposure.
    Assess { payload: String },
    /// Anonymize freeform text.
    Anonymize { text: String },
    /// Minimize a payload to a set of allowed fields.
    Minimize { payload: String, fields: Vec<String> },
    /// Generate a privacy report for the current assessment.
    Report { payload: String },
    /// Turn strict privacy mode on or off, or show its status
    /// (`on`, `off` or `status`).
    Mode { action: String },
}

/// What `privacy mode` does.
#[derive(Debug, Clone, Copy, PartialEq, Eq, Structural)]
pub enum PrivacyModeAction {
    /// Persist privacy mode as on.
    Enable,
    /// Persist privacy mode as off.
    Disable,
    /// Only show the status.
    Status,
}

/// The action a `privacy mode` argument asks for: `on`, `off`, and
/// anything else shows the status.
pub open spec fn privacy_mode_action_spec(action: Seq<char>) -> PrivacyModeAction {
    if action == "on"@ {
        PrivacyModeAction::Enable
    } else if action == "off"@ {
        PrivacyModeAction::Disable
    } else {
        PrivacyModeAction::Status
    }
}

/// The action a `privacy mode` argument asks for.
pub fn privacy_mode_action(action: &str) -> (r: PrivacyModeAction)
    ensures
        r == privacy_mode_action_spec(action@),
{
    if str_eq(action, "on") {
        PrivacyModeAction::Enable
    } else if str_eq(action, "off") {
        PrivacyModeAction::Disable
    } else {
        PrivacyModeAction::Status
    }
}

/// Arguments of `bug-report`.
#[derive(Debug, Clone, PartialEq, Eq)]
pub struct BugReportArgs {
    /// `markdown` (the default) or `url`.
    pub output: String,
    /// Skip the preview and confirmation prompt.
    pub no_confirm: bool,
}

/// How a bug report is emitted.
#[derive(Debug, Clone, Copy, PartialEq, Eq, Structural)]
pub enum BugReportOutput {
    /// Print the Markdown report.
    Markdown,
    /// A prefilled issue URL was asked for; it is not available yet, so the
    /// Markdown report is printed with a note.
    UrlFallback,
}

/// The output a `--output` value selects, if it is one of the known ones.
pub open spec fn bug_report_output_spec(output: Seq<char>) -> Option<BugReportOutput> {
    if output == "markdown"@ {
        Some(BugReportOutput::Markdown)
    } else if output == "url"@ {
        Some(BugReportOutput::UrlFallback)
    } else {
        None
    }
}

/// The output a `--output` value selects; `None` for an unknown format.
pub fn bug_report_output(output: &str) -> (r: Option<BugReportOutput>)
    ensures
        r == bug_report_output_spec(output@),
{
    if str_eq(output, "markdown") {
        Some(BugReportOutput::Markdown)
    } else if str_eq(output, "url") {
        Some(BugReportOutput::UrlFallback)
    } else {
        None
    }
}

/// The bug report body for the given environment facts.
pub open spec fn bug_report_spec(
    version: Seq<char>,
    os: Seq<char>,
    arch: Seq<char>,
    shell: Seq<char>,
    term: Seq<char>,
    term_program: Seq<char>,
) -> Seq<char> {
    "## StarForge Bug Report\n\n### Environment\n\n| Field          | Value |\n|----------------|-------|\n| starforge      | "@
        + version + " |\n| OS             | "@ + os + " ("@ + arch + ") |\n| Shell          | "@ + shell
        + " |\n| Terminal       | "@ + term_program + " ("@ + term
        + ") |\n\n### Steps to Reproduce\n\n<!-- Please describe what you did before encountering the issue -->\n\n1. \n2. \n\n### Expected Behaviour\n\n<!-- What did you expect to happen? -->\n\n### Actual Behaviour\n\n<!-- What actually happened? Paste any error output below -->\n\n```\n\n```\n"@
}

/// The Markdown bug report: an environment table (tool version, OS and
/// architecture, shell, terminal) followed by the sections a reporter
/// fills in.
pub fn bug_report_markdown(
    version: &str,
    os: &str,
    arch: &str,
    shell: &str,
    term: &str,
    term_program: &str,
) -> (r: String)
    ensures
        r@ == bug_report_spec(version@, os@, arch@, shell@, term@, term_program@),
{
    let mut s = to_owned_string(
        "## StarForge Bug Report\n\n### Environment\n\n| Field          | Value |\n|----------------|-------|\n| starforge      | ",
    );
    push_str(&mut s, version);
    push_str(&mut s, " |\n| OS             | ");
    push_str(&mut s, os);
    push_str(&mut s, " (");
    push_str(&mut s, arch);
    push_str(&mut s, ") |\n| Shell          | ");
    push_str(&mut s, shell);
    push_str(&mut s, " |\n| Terminal       | ");
    push_str(&mut s, term_program);
    push_str(&mut s, " (");
    push_str(&mut s, term);
    push_str(
        &mut s,
        ") |\n\n### Steps to Reproduce\n\n<!-- Please describe what you did before encountering the issue -->\n\n1. \n2. \n\n### Expected Behaviour\n\n<!-- What did you expect to happen? -->\n\n### Actual Behaviour\n\n<!-- What actually happened? Paste any error output below -->\n\n```\n\n```\n",
    );
    s
}

/// `ai doc <command>`: documentation question answering.
#[derive(Debug, Clone, PartialEq, Eq)]
pub enum AiDocQaCommands {
    /// Build (or rebuild) the documentation index.
    Index { dir: Vec<String>, no_builtin: bool },
    /// Ask a documentation question.
    Ask {
        question: Vec<String>,
        session: Option<String>,
        language: Option<String>,
        json: bool,
        citations_only: bool,
        citation_mode: bool,
    },
    /// Start an interactive chat session.
    Chat { session: Option<String>, language: Option<String> },
    /// List sessions.
    Sessions,
    /// Show a session's conversation.
    SessionShow { session: String },
    /// Delete a session.
    SessionDelete { session: String },
    /// Show index statistics.
    Stats,
    /// List the supported answer languages.
    Languages,
    /// Run a self-check against sample questions.
    Verify { language: Option<String> },
}

} // verus!

//! The daemon's configuration, read from environment variables.

use std::time::Duration;

use regex::Regex;
use vstd::prelude::*;

use crate::text;
use crate::text::{parse_u64, same_text, split_list, to_ascii_lower, trim};

verus! {

// ---------------------------------------------------------------------------
// What is had from outside
// ---------------------------------------------------------------------------

/// `regex::Regex`: a compiled pattern.
#[verifier::external_type_specification]
#[verifier::external_body]
pub struct ExRegex(regex::Regex);

/// `regex::Error`: why a pattern does not compile.
#[verifier::external_type_specification]
#[verifier::external_body]
pub struct ExRegexError(regex::Error);

/// What `regex::Regex::new` makes of a pattern.
pub uninterp spec fn compiled_regex(pattern: Seq<char>) -> Result<Regex, regex::Error>;

/// What displaying a `regex::Error` gives.
pub uninterp spec fn regex_error_text(error: regex::Error) -> Seq<char>;

/// What `str::parse` says of a text that is no `u64`.
pub uninterp spec fn number_fault(text: Seq<char>) -> Seq<char>;

/// What `regex::Regex::is_match` says of a text.
pub uninterp spec fn regex_matches(regex: Regex, text: Seq<char>) -> bool;

/// What `std::time::Duration::from_millis` makes of a number.
pub uninterp spec fn millis_duration(millis: u64) -> Duration;

/// What `std::time::Duration::as_millis` says of a duration.
pub uninterp spec fn whole_millis(duration: Duration) -> u128;

/// What formatting a text with `{:?}` gives.
pub uninterp spec fn debug_text(text: Seq<char>) -> Seq<char>;

/// `regex::Regex::new`: compiles the pattern, or refuses it; which of the two,
/// what is compiled and why it is refused is fixed by the pattern.
#[verifier::external_body]
fn compile_regex(pattern: &str) -> (compiled: Result<Regex, regex::Error>)
    ensures
        compiled == compiled_regex(pattern@),
{
    Regex::new(pattern)
}

/// `to_string` of a `regex::Error`: why the pattern does not compile; the text
/// is fixed by the error.
#[verifier::external_body]
fn describe_regex_error(error: &regex::Error) -> (text: String)
    ensures
        text@ == regex_error_text(*error),
{
    error.to_string()
}

/// `str::parse` for `u64`: what it says of a text that it refuses, which is
/// fixed by the text. It takes one or more decimal digits, after an optional
/// plus sign, whose value fits, and refuses all else.
#[verifier::external_body]
fn find_number_fault(text: &str) -> (fault: Option<String>)
    ensures
        fault is Some <==> text::decimal_u64(text@) is None,
        fault matches Some(f) ==> f@ == number_fault(text@),
{
    match text.parse::<u64>() {
        Ok(_) => None,
        Err(e) => Some(e.to_string()),
    }
}

/// `regex::Regex::is_match`: whether the pattern matches anywhere in the text,
/// which is fixed by the two.
#[verifier::external_body]
pub(crate) fn is_match(regex: &Regex, text: &str) -> (matches: bool)
    ensures
        matches == regex_matches(*regex, text@),
{
    regex.is_match(text)
}

/// `std::time::Duration::from_millis`: the duration of so many milliseconds,
/// which is what `as_millis` says of it.
pub assume_specification[ Duration::from_millis ](millis: u64) -> (duration: Duration)
    ensures
        duration == millis_duration(millis),
        whole_millis(duration) == millis,
;

/// `std::time::Duration::as_millis`: how many whole milliseconds a duration
/// has, which is fixed by the duration.
pub assume_specification[ Duration::as_millis ](duration: &Duration) -> (millis: u128)
    ensures
        millis == whole_millis(*duration),
;

/// Whether a character stands for itself inside quotes: printable ASCII other
/// than a quote or a backslash.
pub open spec fn is_plain(c: char) -> bool {
    ' ' <= c <= '~' && c != '"' && c != '\'' && c != '\\'
}

/// Whether all characters of a text stand for themselves inside quotes.
pub open spec fn is_plain_text(text: Seq<char>) -> bool {
    forall|i: int| 0 <= i < text.len() ==> is_plain(#[trigger] text[i])
}

/// A text between quotes.
pub open spec fn in_quotes(text: Seq<char>) -> Seq<char> {
    seq!['"'] + text + seq!['"']
}

/// `std::format!` with `{:?}` of a text: the text in quotes, escaped, which is
/// fixed by the text; where there is nothing to escape, just the text in
/// quotes.
#[verifier::external_body]
fn quote(text: &str) -> (quoted: String)
    ensures
        quoted@ == debug_text(text@),
        is_plain_text(text@) ==> quoted@ == in_quotes(text@),
{
    format!("{:?}", text)
}

// ---------------------------------------------------------------------------
// Types
// ---------------------------------------------------------------------------

/// Where a new window goes.
#[derive(Debug, Clone, Copy, PartialEq, Eq, Structural)]
pub enum WorkspaceMode {
    /// On the first empty workspace.
    NextFree,
    /// On a workspace made for it.
    NewEach,
    /// Where it is.
    Same,
}

#[derive(Debug, Clone)]
pub struct Config {
    pub workspace_mode: WorkspaceMode,
    pub maximize: bool,
    pub switch_to_workspace: bool,
    /// How long a switch may stay unconfirmed; `None` turns the check off.
    pub switch_verify_timeout: Option<Duration>,
    /// Applications whose windows are left alone; compared case-sensitively.
    pub excluded_app_ids: Vec<String>,
    /// Windows whose title matches are left alone.
    pub excluded_title_regex: Option<Regex>,
    /// The output whose workspace group takes every window.
    pub workspace_output: Option<String>,
    /// Whether to go to the most recent workspace of the group when the active
    /// one empties.
    pub jump_on_empty: bool,
}

/// The model of a [`Config`].
#[verifier::ext_equal]
pub ghost struct ConfigView {
    pub workspace_mode: WorkspaceMode,
    pub maximize: bool,
    pub switch_to_workspace: bool,
    pub switch_verify_timeout: Option<Duration>,
    pub excluded_app_ids: Seq<Seq<char>>,
    pub excluded_title_regex: Option<Regex>,
    pub workspace_output: Option<Seq<char>>,
    pub jump_on_empty: bool,
}

/// The characters of each text.
pub open spec fn texts(v: Seq<String>) -> Seq<Seq<char>> {
    v.map_values(|s: String| s@)
}

/// The characters of an optional text.
pub open spec fn optional_text(s: Option<String>) -> Option<Seq<char>> {
    match s {
        Some(t) => Some(t@),
        None => None,
    }
}

impl View for Config {
    type V = ConfigView;

    open spec fn view(&self) -> ConfigView {
        ConfigView {
            workspace_mode: self.workspace_mode,
            maximize: self.maximize,
            switch_to_workspace: self.switch_to_workspace,
            switch_verify_timeout: self.switch_verify_timeout,
            excluded_app_ids: texts(self.excluded_app_ids@),
            excluded_title_regex: self.excluded_title_regex,
            workspace_output: optional_text(self.workspace_output),
            jump_on_empty: self.jump_on_empty,
        }
    }
}

/// Why a configuration is refused. The value is as it was given.
#[derive(Debug, Clone, PartialEq, Eq)]
pub enum ConfigError {
    /// `WORKSPACE_MODE` names no mode.
    WorkspaceMode { value: String },
    /// A switch is neither on nor off.
    Switch { variable: String, value: String },
    /// `SWITCH_VERIFY_TIMEOUT_MS` is no 64-bit number, and why.
    VerifyTimeout { value: String, cause: String },
    /// `EXCLUDED_TITLE_REGEX` does not compile, and why.
    TitleRegex { value: String, cause: String },
}

/// The model of a [`ConfigError`].
pub ghost enum ConfigErrorView {
    WorkspaceMode { value: Seq<char> },
    Switch { variable: Seq<char>, value: Seq<char> },
    VerifyTimeout { value: Seq<char>, cause: Seq<char> },
    TitleRegex { value: Seq<char>, cause: Seq<char> },
}

impl View for ConfigError {
    type V = ConfigErrorView;

    open spec fn view(&self) -> ConfigErrorView {
        match *self {
            ConfigError::WorkspaceMode { value } => ConfigErrorView::WorkspaceMode {
                value: value@,
            },
            ConfigError::Switch { variable, value } => ConfigErrorView::Switch {
                variable: variable@,
                value: value@,
            },
            ConfigError::VerifyTimeout { value, cause } => ConfigErrorView::VerifyTimeout {
                value: value@,
                cause: cause@,
            },
            ConfigError::TitleRegex { value, cause } => ConfigErrorView::TitleRegex {
                value: value@,
                cause: cause@,
            },
        }
    }
}

impl ConfigErrorView {
    /// The variable at fault.
    pub open spec fn variable(self) -> Seq<char> {
        match self {
            ConfigErrorView::WorkspaceMode { .. } => "WORKSPACE_MODE"@,
            ConfigErrorView::Switch { variable, .. } => variable,
            ConfigErrorView::VerifyTimeout { .. } => "SWITCH_VERIFY_TIMEOUT_MS"@,
            ConfigErrorView::TitleRegex { .. } => "EXCLUDED_TITLE_REGEX"@,
        }
    }

    /// The value at fault.
    pub open spec fn value(self) -> Seq<char> {
        match self {
            ConfigErrorView::WorkspaceMode { value } => value,
            ConfigErrorView::Switch { value, .. } => value,
            ConfigErrorView::VerifyTimeout { value, .. } => value,
            ConfigErrorView::TitleRegex { value, .. } => value,
        }
    }

    /// What is behind the refusal, where there is more to say than the
    /// message does.
    pub open spec fn cause(self) -> Option<Seq<char>> {
        match self {
            ConfigErrorView::VerifyTimeout { cause, .. } => Some(cause),
            ConfigErrorView::TitleRegex { cause, .. } => Some(cause),
            _ => None,
        }
    }

    /// What stands between the variable and the value.
    pub open spec fn before_value(self) -> Seq<char> {
        match self {
            ConfigErrorView::WorkspaceMode { .. } => ": unrecognized value "@,
            ConfigErrorView::Switch { .. } => ": unrecognized value "@,
            ConfigErrorView::VerifyTimeout { .. } => ": "@,
            ConfigErrorView::TitleRegex { .. } => ": "@,
        }
    }

    /// What stands after the value.
    pub open spec fn after_value(self) -> Seq<char> {
        match self {
            ConfigErrorView::WorkspaceMode {
                ..
            } => "; expected one of: next-free, new-each, same"@,
            ConfigErrorView::Switch {
                ..
            } => "; expected one of 0/1, true/false, yes/no, on/off (case-insensitive)"@,
            ConfigErrorView::VerifyTimeout { .. } => " is not a valid u64"@,
            ConfigErrorView::TitleRegex { .. } => " is not a valid regex"@,
        }
    }

    /// The message, given the value in quotes.
    pub open spec fn message(self, quoted: Seq<char>) -> Seq<char> {
        self.variable() + self.before_value() + quoted + self.after_value()
    }
}

impl ConfigError {
    /// The message for the operator: the variable, its value and what was
    /// expected.
    pub fn message(&self) -> (text: String)
        ensures
            text@ == self@.message(debug_text(self@.value())),
            is_plain_text(self@.value()) ==> text@ == self@.message(in_quotes(self@.value())),
    {
        let quoted: String = match self {
            ConfigError::WorkspaceMode { value } => quote(value.as_str()),
            ConfigError::Switch { value, .. } => quote(value.as_str()),
            ConfigError::VerifyTimeout { value, .. } => quote(value.as_str()),
            ConfigError::TitleRegex { value, .. } => quote(value.as_str()),
        };
        self.message_with(quoted.as_str())
    }

    /// The message, given the value in quotes.
    pub fn message_with(&self, quoted: &str) -> (text: String)
        ensures
            text@ == self@.message(quoted@),
    {
        let mut text: String = String::new();
        match self {
            ConfigError::WorkspaceMode { .. } => {
                text.append("WORKSPACE_MODE");
                text.append(": unrecognized value ");
                text.append(quoted);
                text.append("; expected one of: next-free, new-each, same");
            },
            ConfigError::Switch { variable, .. } => {
                text.append(variable.as_str());
                text.append(": unrecognized value ");
                text.append(quoted);
                text.append(
                    "; expected one of 0/1, true/false, yes/no, on/off (case-insensitive)",
                );
            },
            ConfigError::VerifyTimeout { .. } => {
                text.append("SWITCH_VERIFY_TIMEOUT_MS");
                text.append(": ");
                text.append(quoted);
                text.append(" is not a valid u64");
            },
            ConfigError::TitleRegex { .. } => {
                text.append("EXCLUDED_TITLE_REGEX");
                text.append(": ");
                text.append(quoted);
                text.append(" is not a valid regex");
            },
        }
        proof {
            assert(text@ =~= self@.message(quoted@));
        }
        text
    }

    /// What is behind the refusal, where there is more to say than the
    /// message does.
    pub fn cause(&self) -> (cause: Option<&str>)
        ensures
            optional_str(cause) == self@.cause(),
    {
        match self {
            ConfigError::VerifyTimeout { cause, .. } => Some(cause.as_str()),
            ConfigError::TitleRegex { cause, .. } => Some(cause.as_str()),
            _ => None,
        }
    }
}

/// The values of the variables, as found.
#[derive(Debug, Clone)]
pub struct RawConfig {
    pub workspace_mode: Option<String>,
    pub maximize: Option<String>,
    pub switch_to_workspace: Option<String>,
    pub switch_verify_timeout_ms: Option<String>,
    pub excluded_app_ids: Option<String>,
    pub excluded_title_regex: Option<String>,
    pub workspace_output: Option<String>,
    pub jump_on_empty: Option<String>,
}

// ---------------------------------------------------------------------------
// What each variable means
// ---------------------------------------------------------------------------

pub open spec fn workspace_mode_of(value: Option<Seq<char>>) -> Result<
    WorkspaceMode,
    ConfigErrorView,
> {
    match value {
        None => Ok(WorkspaceMode::NextFree),
        Some(v) => if v == "next-free"@ {
            Ok(WorkspaceMode::NextFree)
        } else if v == "new-each"@ {
            Ok(WorkspaceMode::NewEach)
        } else if v == "same"@ {
            Ok(WorkspaceMode::Same)
        } else {
            Err(ConfigErrorView::WorkspaceMode { value: v })
        },
    }
}

/// The words that turn a switch on or off.
pub open spec fn switch_word(word: Seq<char>) -> Option<bool> {
    if word == "0"@ || word == "false"@ || word == "no"@ || word == "off"@ {
        Some(false)
    } else if word == "1"@ || word == "true"@ || word == "yes"@ || word == "on"@ {
        Some(true)
    } else {
        None
    }
}

/// A switch's value as it is compared: trimmed and in lower case.
pub open spec fn switch_text(value: Seq<char>) -> Seq<char> {
    text::ascii_lower(text::trimmed(value))
}

pub open spec fn switch_of(variable: Seq<char>, value: Option<Seq<char>>) -> Result<
    bool,
    ConfigErrorView,
> {
    match value {
        None => Ok(false),
        Some(v) => match switch_word(switch_text(v)) {
            Some(b) => Ok(b),
            None => Err(ConfigErrorView::Switch { variable, value: v }),
        },
    }
}

pub open spec fn verify_timeout_of(value: Option<Seq<char>>) -> Result<
    Option<Duration>,
    ConfigErrorView,
> {
    match value {
        None => Ok(Some(millis_duration(250))),
        Some(v) => if v == "0"@ {
            Ok(None)
        } else {
            match text::decimal_u64(v) {
                Some(ms) => Ok(Some(millis_duration(ms))),
                None => Err(ConfigErrorView::VerifyTimeout { value: v, cause: number_fault(v) }),
            }
        },
    }
}

/// How many milliseconds a switch may stay unconfirmed, where the value is
/// understood; `None` where the check is off.
pub open spec fn verify_millis_of(value: Option<Seq<char>>) -> Option<u64> {
    match value {
        None => Some(250),
        Some(v) => if v == "0"@ {
            None
        } else {
            text::decimal_u64(v)
        },
    }
}

/// Whether a timeout lasts so many milliseconds; `None` is none.
pub open spec fn lasts(timeout: Option<Duration>, millis: Option<u64>) -> bool {
    match (timeout, millis) {
        (Some(t), Some(m)) => whole_millis(t) == m,
        (None, None) => true,
        _ => false,
    }
}

pub open spec fn excluded_app_ids_of(value: Option<Seq<char>>) -> Seq<Seq<char>> {
    match value {
        None => Seq::empty(),
        Some(v) => text::list_entries(v),
    }
}

pub open spec fn title_regex_of(value: Option<Seq<char>>) -> Result<
    Option<Regex>,
    ConfigErrorView,
> {
    match value {
        None => Ok(None),
        Some(v) => if v.len() == 0 {
            Ok(None)
        } else {
            match compiled_regex(v) {
                Ok(re) => Ok(Some(re)),
                Err(e) => Err(ConfigErrorView::TitleRegex { value: v, cause: regex_error_text(e) }),
            }
        },
    }
}

pub open spec fn workspace_output_of(value: Option<Seq<char>>) -> Option<Seq<char>> {
    match value {
        Some(v) if v.len() > 0 => Some(v),
        _ => None,
    }
}

/// The configuration that the values stand for, or the first fault in the
/// order in which the variables are read.
pub open spec fn config_of(raw: RawConfig) -> Result<ConfigView, ConfigErrorView> {
    let mode = workspace_mode_of(optional_text(raw.workspace_mode));
    let maximize = switch_of("MAXIMIZE"@, optional_text(raw.maximize));
    let switch = switch_of("SWITCH_TO_WORKSPACE"@, optional_text(raw.switch_to_workspace));
    let timeout = verify_timeout_of(optional_text(raw.switch_verify_timeout_ms));
    let regex = title_regex_of(optional_text(raw.excluded_title_regex));
    let jump = switch_of("JUMP_ON_EMPTY"@, optional_text(raw.jump_on_empty));
    if mode is Err {
        Err(mode->Err_0)
    } else if maximize is Err {
        Err(maximize->Err_0)
    } else if switch is Err {
        Err(switch->Err_0)
    } else if timeout is Err {
        Err(timeout->Err_0)
    } else if regex is Err {
        Err(regex->Err_0)
    } else if jump is Err {
        Err(jump->Err_0)
    } else {
        Ok(
            ConfigView {
                workspace_mode: mode->Ok_0,
                maximize: maximize->Ok_0,
                switch_to_workspace: switch->Ok_0,
                switch_verify_timeout: timeout->Ok_0,
                excluded_app_ids: excluded_app_ids_of(optional_text(raw.excluded_app_ids)),
                excluded_title_regex: regex->Ok_0,
                workspace_output: workspace_output_of(optional_text(raw.workspace_output)),
                jump_on_empty: jump->Ok_0,
            },
        )
    }
}

/// The model of what parsing returns.
pub open spec fn outcome_view(outcome: Result<Config, ConfigError>) -> Result<
    ConfigView,
    ConfigErrorView,
> {
    match outcome {
        Ok(config) => Ok(config@),
        Err(error) => Err(error@),
    }
}

/// Whether `raw` holds what the source answers for each variable.
pub open spec fn source_gives<F: Fn(&str) -> Option<String>>(get: F, raw: RawConfig) -> bool {
    &&& call_ensures(get, ("WORKSPACE_MODE",), raw.workspace_mode)
    &&& call_ensures(get, ("MAXIMIZE",), raw.maximize)
    &&& call_ensures(get, ("SWITCH_TO_WORKSPACE",), raw.switch_to_workspace)
    &&& call_ensures(get, ("SWITCH_VERIFY_TIMEOUT_MS",), raw.switch_verify_timeout_ms)
    &&& call_ensures(get, ("EXCLUDED_APP_IDS",), raw.excluded_app_ids)
    &&& call_ensures(get, ("EXCLUDED_TITLE_REGEX",), raw.excluded_title_regex)
    &&& call_ensures(get, ("WORKSPACE_OUTPUT",), raw.workspace_output)
    &&& call_ensures(get, ("JUMP_ON_EMPTY",), raw.jump_on_empty)
}

// ---------------------------------------------------------------------------
// Parsing
// ---------------------------------------------------------------------------

/// Reads the configuration from any source of variables.
pub fn from_env_source<F: Fn(&str) -> Option<String>>(get: F) -> (outcome: Result<
    Config,
    ConfigError,
>)
    requires
        forall|key: &str| call_requires(get, (key,)),
    ensures
        exists|raw: RawConfig| #[trigger]
            source_gives(get, raw) && outcome_view(outcome) == config_of(raw) && (
            outcome matches Ok(config) ==> lasts(
                config.switch_verify_timeout,
                verify_millis_of(optional_text(raw.switch_verify_timeout_ms)),
            )),
{
    let raw: RawConfig = RawConfig {
        workspace_mode: get("WORKSPACE_MODE"),
        maximize: get("MAXIMIZE"),
        switch_to_workspace: get("SWITCH_TO_WORKSPACE"),
        switch_verify_timeout_ms: get("SWITCH_VERIFY_TIMEOUT_MS"),
        excluded_app_ids: get("EXCLUDED_APP_IDS"),
        excluded_title_regex: get("EXCLUDED_TITLE_REGEX"),
        workspace_output: get("WORKSPACE_OUTPUT"),
        jump_on_empty: get("JUMP_ON_EMPTY"),
    };
    let outcome: Result<Config, ConfigError> = parse(&raw);
    proof {
        assert(source_gives(get, raw));
    }
    outcome
}

/// Reads the configuration from the variables' values.
pub fn parse(raw: &RawConfig) -> (outcome: Result<Config, ConfigError>)
    ensures
        outcome_view(outcome) == config_of(*raw),
        outcome matches Ok(config) ==> lasts(
            config.switch_verify_timeout,
            verify_millis_of(optional_text(raw.switch_verify_timeout_ms)),
        ),
{
    let workspace_mode: WorkspaceMode = match parse_workspace_mode(as_text(&raw.workspace_mode)) {
        Ok(mode) => mode,
        Err(e) => return Err(e),
    };
    let maximize: bool = match parse_bool("MAXIMIZE", as_text(&raw.maximize)) {
        Ok(b) => b,
        Err(e) => return Err(e),
    };
    let switch_to_workspace: bool = match parse_bool(
        "SWITCH_TO_WORKSPACE",
        as_text(&raw.switch_to_workspace),
    ) {
        Ok(b) => b,
        Err(e) => return Err(e),
    };
    let switch_verify_timeout: Option<Duration> = match parse_verify_timeout(
        as_text(&raw.switch_verify_timeout_ms),
    ) {
        Ok(t) => t,
        Err(e) => return Err(e),
    };
    let excluded_app_ids: Vec<String> = parse_excluded_app_ids(as_text(&raw.excluded_app_ids));
    let excluded_title_regex: Option<Regex> = match parse_excluded_title_regex(
        as_text(&raw.excluded_title_regex),
    ) {
        Ok(r) => r,
        Err(e) => return Err(e),
    };
    let workspace_output: Option<String> = parse_workspace_output(as_text(&raw.workspace_output));
    let jump_on_empty: bool = match parse_bool("JUMP_ON_EMPTY", as_text(&raw.jump_on_empty)) {
        Ok(b) => b,
        Err(e) => return Err(e),
    };
    Ok(
        Config {
            workspace_mode,
            maximize,
            switch_to_workspace,
            switch_verify_timeout,
            excluded_app_ids,
            excluded_title_regex,
            workspace_output,
            jump_on_empty,
        },
    )
}

/// The characters of an optional borrowed text.
pub open spec fn optional_str(s: Option<&str>) -> Option<Seq<char>> {
    match s {
        Some(t) => Some(t@),
        None => None,
    }
}

fn as_text(value: &Option<String>) -> (text: Option<&str>)
    ensures
        optional_str(text) == optional_text(*value),
{
    match value {
        Some(s) => Some(s.as_str()),
        None => None,
    }
}

fn parse_workspace_mode(val: Option<&str>) -> (mode: Result<WorkspaceMode, ConfigError>)
    ensures
        match mode {
            Ok(m) => workspace_mode_of(optional_str(val)) == Ok::<_, ConfigErrorView>(m),
            Err(e) => workspace_mode_of(optional_str(val)) == Err::<WorkspaceMode, _>(e@),
        },
{
    match val {
        None => Ok(WorkspaceMode::NextFree),
        Some(v) => if same_text(v, "next-free") {
            Ok(WorkspaceMode::NextFree)
        } else if same_text(v, "new-each") {
            Ok(WorkspaceMode::NewEach)
        } else if same_text(v, "same") {
            Ok(WorkspaceMode::Same)
        } else {
            Err(ConfigError::WorkspaceMode { value: v.to_owned() })
        },
    }
}

fn parse_bool(var_name: &str, val: Option<&str>) -> (switch: Result<bool, ConfigError>)
    ensures
        match switch {
            Ok(b) => switch_of(var_name@, optional_str(val)) == Ok::<_, ConfigErrorView>(b),
            Err(e) => switch_of(var_name@, optional_str(val)) == Err::<bool, _>(e@),
        },
{
    match val {
        None => Ok(false),
        Some(raw) => {
            let trimmed_value: String = trim(raw);
            let word: String = to_ascii_lower(trimmed_value.as_str());
            let w: &str = word.as_str();
            if same_text(w, "0") || same_text(w, "false") || same_text(w, "no") || same_text(
                w,
                "off",
            ) {
                Ok(false)
            } else if same_text(w, "1") || same_text(w, "true") || same_text(w, "yes") || same_text(
                w,
                "on",
            ) {
                Ok(true)
            } else {
                Err(ConfigError::Switch { variable: var_name.to_owned(), value: raw.to_owned() })
            }
        },
    }
}

fn parse_verify_timeout(val: Option<&str>) -> (timeout: Result<Option<Duration>, ConfigError>)
    ensures
        match timeout {
            Ok(t) => verify_timeout_of(optional_str(val)) == Ok::<_, ConfigErrorView>(t) && lasts(
                t,
                verify_millis_of(optional_str(val)),
            ),
            Err(e) => verify_timeout_of(optional_str(val)) == Err::<Option<Duration>, _>(e@),
        },
{
    match val {
        None => Ok(Some(Duration::from_millis(250))),
        Some(s) => if same_text(s, "0") {
            Ok(None)
        } else {
            match parse_u64(s) {
                Some(ms) => Ok(Some(Duration::from_millis(ms))),
                None => match find_number_fault(s) {
                    Some(cause) => Err(ConfigError::VerifyTimeout { value: s.to_owned(), cause }),
                    None => vstd::pervasive::unreached(),
                },
            }
        },
    }
}

fn parse_excluded_app_ids(val: Option<&str>) -> (ids: Vec<String>)
    ensures
        texts(ids@) == excluded_app_ids_of(optional_str(val)),
{
    match val {
        None => {
            let ids: Vec<String> = Vec::new();
            proof {
                assert(texts(ids@) =~= Seq::empty());
            }
            ids
        },
        Some(s) => split_list(s),
    }
}

fn parse_excluded_title_regex(val: Option<&str>) -> (regex: Result<Option<Regex>, ConfigError>)
    ensures
        match regex {
            Ok(r) => title_regex_of(optional_str(val)) == Ok::<_, ConfigErrorView>(r),
            Err(e) => title_regex_of(optional_str(val)) == Err::<Option<Regex>, _>(e@),
        },
{
    match val {
        None => Ok(None),
        Some(s) => if s.is_empty() {
            Ok(None)
        } else {
            accept_title_regex(s, compile_regex(s))
        },
    }
}

/// Takes the compiled pattern, or refuses the value that did not compile.
pub fn accept_title_regex(value: &str, compiled: Result<Regex, regex::Error>) -> (regex: Result<
    Option<Regex>,
    ConfigError,
>)
    ensures
        match compiled {
            Ok(r) => regex == Ok::<_, ConfigError>(Some(r)),
            Err(e) => regex is Err && regex->Err_0@ == (ConfigErrorView::TitleRegex {
                value: value@,
                cause: regex_error_text(e),
            }),
        },
{
    match compiled {
        Ok(r) => Ok(Some(r)),
        Err(e) => Err(
            ConfigError::TitleRegex { value: value.to_owned(), cause: describe_regex_error(&e) },
        ),
    }
}

fn parse_workspace_output(val: Option<&str>) -> (output: Option<String>)
    ensures
        optional_text(output) == workspace_output_of(optional_str(val)),
{
    match val {
        None => None,
        Some(s) => if s.is_empty() {
            None
        } else {
            Some(s.to_owned())
        },
    }
}

// ---------------------------------------------------------------------------
// Laws
// ---------------------------------------------------------------------------

/// The message of a refused configuration starts with the variable at fault
/// and holds the value at fault in quotes.
pub proof fn law_message_names_variable_and_value(error: ConfigErrorView, quoted: Seq<char>)
    ensures
        error.variable().is_prefix_of(error.message(quoted)),
        ({
            let at = (error.variable() + error.before_value()).len() as int;
            error.message(quoted).subrange(at, at + quoted.len()) == quoted
        }),
{
    let at = (error.variable() + error.before_value()).len() as int;
    assert(error.message(quoted).subrange(at, at + quoted.len()) =~= quoted);
    assert(error.message(quoted).take(error.variable().len() as int) =~= error.variable());
}

/// A refusal names a variable that is set, and the value just as it was given.
pub proof fn law_refusal_names_the_value_as_given(raw: RawConfig)
    ensures
        config_of(raw) matches Err(e) ==> {
            ||| e.variable() == "WORKSPACE_MODE"@ && optional_text(raw.workspace_mode) == Some(
                e.value(),
            )
            ||| e.variable() == "MAXIMIZE"@ && optional_text(raw.maximize) == Some(e.value())
            ||| e.variable() == "SWITCH_TO_WORKSPACE"@ && optional_text(raw.switch_to_workspace)
                == Some(e.value())
            ||| e.variable() == "SWITCH_VERIFY_TIMEOUT_MS"@ && optional_text(
                raw.switch_verify_timeout_ms,
            ) == Some(e.value())
            ||| e.variable() == "EXCLUDED_TITLE_REGEX"@ && optional_text(raw.excluded_title_regex)
                == Some(e.value())
            ||| e.variable() == "JUMP_ON_EMPTY"@ && optional_text(raw.jump_on_empty) == Some(
                e.value(),
            )
        },
{
}

/// Whether two values of a switch mean the same: both turn it on, both turn it
/// off, or both are refused.
pub open spec fn same_switch(variable: Seq<char>, a: Seq<char>, b: Seq<char>) -> bool {
    match (switch_of(variable, Some(a)), switch_of(variable, Some(b))) {
        (Ok(x), Ok(y)) => x == y,
        (Err(_), Err(_)) => true,
        _ => false,
    }
}

/// Letter case does not matter in the value of a switch.
pub proof fn law_switch_ignores_case(variable: Seq<char>, value: Seq<char>)
    ensures
        same_switch(variable, text::ascii_lower(value), value),
{
    text::lemma_trimmed_of_lower(value);
    assert(text::ascii_lower(text::ascii_lower(text::trimmed(value))) =~= text::ascii_lower(
        text::trimmed(value),
    ));
}

/// White space around the value of a switch does not matter.
pub proof fn law_switch_ignores_padding(
    variable: Seq<char>,
    before: Seq<char>,
    value: Seq<char>,
    after: Seq<char>,
)
    requires
        text::is_blank(before),
        text::is_blank(after),
    ensures
        same_switch(variable, before + value + after, value),
{
    text::lemma_trimmed_of_padded(before, value, after);
}

/// An excluded application is never the empty text, holds no comma and has no
/// white space at either end.
pub proof fn law_excluded_app_ids_are_clean(value: Option<Seq<char>>, i: int)
    requires
        0 <= i < excluded_app_ids_of(value).len(),
    ensures
        excluded_app_ids_of(value)[i].len() > 0,
        !excluded_app_ids_of(value)[i].contains(','),
        text::trimmed(excluded_app_ids_of(value)[i]) == excluded_app_ids_of(value)[i],
{
    text::lemma_list_entries_clean(value->Some_0, i);
}

} // verus!

//! What the command line asks for, once its arguments are read.

use crate::model::{ContextProfile, ContextProfileView, OutputFormat, Password, QueriesSortBy};
use crate::timestamp::{
    parse_date, parse_rfc3339, parsed_julian_day, rfc3339_instant, TimeSpan, Timestamp,
};
use vstd::prelude::*;
use vstd::string::StringExecFns;

verus! {

/// Everything the command line holds.
#[derive(Clone, PartialEq, Eq)]
pub struct CliArgs {
    pub command: Command,
    /// The path of the file of profiles, where it is not the usual one.
    pub config: Option<String>,
    /// The profile to use in place of the stored default.
    pub context: Option<String>,
    pub out: OutputFormat,
}

/// What is to be done.
#[derive(Clone, PartialEq, Eq)]
pub enum Command {
    /// Show the heaviest grouped queries.
    Queries { conn: ConnectArgs, sort_by: QueriesSortBy, filter: QueriesFilterArgs, limit: usize },
    /// Show the totals over all matching queries.
    Total { conn: ConnectArgs, filter: QueriesFilterArgs },
    /// Show the most frequent errors.
    Errors { conn: ConnectArgs, filter: ErrorFilterArgs, limit: usize },
    /// Manage the stored profiles.
    Context { command: ContextCommand },
}

/// How to reach the cluster, as far as the command line says.
#[derive(Clone, PartialEq, Eq)]
pub struct ConnectArgs {
    pub urls: Vec<String>,
    pub user: Option<String>,
    pub password: Option<Password>,
    pub interactive_password: bool,
    pub accept_invalid_certificate: Option<bool>,
}

/// The window, the names and the thresholds that select rows of the query
/// log.
#[derive(Clone, Debug, PartialEq, Eq)]
pub struct QueriesFilterArgs {
    pub from: Option<Timestamp>,
    pub to: Option<Timestamp>,
    pub last: Option<TimeSpan>,
    pub query_user: Vec<String>,
    pub database: Vec<String>,
    pub table: Vec<String>,
    pub min_query_duration: Option<TimeSpan>,
    pub min_read_rows: Option<u64>,
    /// In bytes.
    pub min_read_data: Option<u64>,
}

/// The window, the threshold and the codes that select error counters.
#[derive(Clone, Debug, PartialEq, Eq)]
pub struct ErrorFilterArgs {
    pub last: Option<TimeSpan>,
    pub min_count: Option<usize>,
    pub code: Vec<i32>,
}

/// What is to be done with the stored profiles.
#[derive(Clone, PartialEq, Eq)]
pub enum ContextCommand {
    ConfigPath,
    List,
    Current,
    Show { name: String, show_secrets: bool },
    /// Store a profile, or the name of the default profile.
    Store { command: ContextSetCommand },
    Delete { name: String },
}

/// What is to be stored.
#[derive(Clone, PartialEq, Eq)]
pub enum ContextSetCommand {
    Profile(SetProfileArgs),
    Current { name: String },
}

/// A profile to store under a name.
#[derive(Clone, PartialEq, Eq)]
pub struct SetProfileArgs {
    pub name: String,
    pub urls: Vec<String>,
    pub user: String,
    pub password: Option<Password>,
    pub interactive_password: bool,
    pub accept_invalid_certificate: bool,
}

/// The instant that a text names: the instant itself where the text is in the
/// format of RFC 3339, midnight UTC at the start of the day where it is a date
/// as `YYYY-MM-DD`, and none otherwise.
pub open spec fn datetime_of(text: Seq<char>) -> Option<Timestamp> {
    match rfc3339_instant(text) {
        Some(unix_nanos) => Some(Timestamp { unix_nanos }),
        None => match parsed_julian_day(text, "[year]-[month]-[day]"@) {
            Some(day) => Some(Timestamp::midnight_of(day)),
            None => None,
        },
    }
}

/// What [`parse_datetime`] answers where a text names no instant.
pub open spec fn invalid_datetime() -> Seq<char> {
    "Invalid datetime format. Use RFC3339 (e.g. 2024-05-01T10:30:00Z) or YYYY-MM-DD."@
}

/// The instant for what was read from a text: the instant that the text
/// names as RFC 3339 where it does, else midnight UTC at the start of the day
/// that it names where it does, else the message that it names neither.
pub fn datetime_from(instant: Option<i128>, day: Option<i32>) -> (parsed: Result<
    Timestamp,
    String,
>)
    ensures
        match instant {
            Some(unix_nanos) => parsed == Ok::<Timestamp, String>(Timestamp { unix_nanos }),
            None => match day {
                Some(day) => parsed == Ok::<Timestamp, String>(Timestamp::midnight_of(day)),
                None => parsed matches Err(message) && message@ == invalid_datetime(),
            },
        },
{
    match instant {
        Some(unix_nanos) => Ok(Timestamp { unix_nanos }),
        None => match day {
            Some(day) => Ok(Timestamp::at_midnight_of(day)),
            None => Err(
                String::from_str(
                    "Invalid datetime format. Use RFC3339 (e.g. 2024-05-01T10:30:00Z) or YYYY-MM-DD.",
                ),
            ),
        },
    }
}

/// Reads an instant from a timestamp in the format of RFC 3339 or from a
/// date as `YYYY-MM-DD`, which stands for midnight UTC at its start.
pub fn parse_datetime(s: &str) -> (parsed: Result<Timestamp, String>)
    ensures
        match datetime_of(s@) {
            Some(at) => parsed == Ok::<Timestamp, String>(at),
            None => parsed matches Err(message) && message@ == invalid_datetime(),
        },
{
    let instant = parse_rfc3339(s);
    let day = match instant {
        Some(_) => None,
        None => parse_date(s, "[year]-[month]-[day]"),
    };
    datetime_from(instant, day)
}

/// What [`resolve_profile`] answers where neither the command line nor a
/// profile names a node.
pub open spec fn missing_url() -> Seq<char> {
    "missing `--url`: supply at least one URL or set a context"@
}

/// What [`resolve_profile`] answers where neither the command line nor a
/// profile names a user.
pub open spec fn missing_user() -> Seq<char> {
    "missing `--user`: supply it or set a context"@
}

/// The profile to connect with. Where a profile is stored, what the command
/// line says replaces what the profile says, field by field. Where none is,
/// the command line has to name the nodes and the user; the password is then
/// empty unless given. A certificate check that the command line mentions at
/// all is switched off.
pub open spec fn resolved(cli: ConnectArgs, stored: Option<ContextProfile>) -> Result<
    ContextProfileView,
    Seq<char>,
> {
    match stored {
        Some(profile) => Ok(
            ContextProfileView {
                urls: if cli.urls.len() > 0 {
                    cli.urls.deep_view()
                } else {
                    profile.urls.deep_view()
                },
                user: match cli.user {
                    Some(user) => user@,
                    None => profile.user@,
                },
                password: match cli.password {
                    Some(password) => password@,
                    None => profile.password@,
                },
                accept_invalid_certificate: cli.accept_invalid_certificate is Some
                    || profile.accept_invalid_certificate,
            },
        ),
        None => if cli.urls.len() == 0 {
            Err(missing_url())
        } else {
            match cli.user {
                None => Err(missing_user()),
                Some(user) => Ok(
                    ContextProfileView {
                        urls: cli.urls.deep_view(),
                        user: user@,
                        password: match cli.password {
                            Some(password) => password@,
                            None => Seq::empty(),
                        },
                        accept_invalid_certificate: cli.accept_invalid_certificate is Some,
                    },
                ),
            }
        },
    }
}

/// The profile to connect with: the stored profile with what the command line
/// says in place of what the profile says, or a profile made of the command
/// line alone.
pub fn resolve_profile(cli: ConnectArgs, stored: Option<ContextProfile>) -> (profile: Result<
    ContextProfile,
    String,
>)
    ensures
        match resolved(cli, stored) {
            Ok(expected) => profile matches Ok(p) && p@ == expected,
            Err(expected) => profile matches Err(message) && message@ == expected,
        },
{
    let overrides_check = cli.accept_invalid_certificate.is_some();
    match stored {
        Some(profile) => {
            let mut profile = profile;
            if cli.urls.len() > 0 {
                profile.urls = cli.urls;
            }
            if let Some(user) = cli.user {
                profile.user = user;
            }
            if let Some(password) = cli.password {
                profile.password = password;
            }
            if overrides_check {
                profile.accept_invalid_certificate = true;
            }
            Ok(profile)
        },
        None => {
            if cli.urls.len() == 0 {
                return Err(
                    String::from_str("missing `--url`: supply at least one URL or set a context"),
                );
            }
            let user = match cli.user {
                Some(user) => user,
                None => {
                    return Err(String::from_str("missing `--user`: supply it or set a context"));
                },
            };
            let password = match cli.password {
                Some(password) => password,
                None => Password::new(String::new()),
            };
            Ok(
                ContextProfile {
                    urls: cli.urls,
                    user,
                    password,
                    accept_invalid_certificate: overrides_check,
                },
            )
        },
    }
}

/// The question that is put to the user for the password of `user`.
pub fn password_prompt(user: &str) -> (prompt: String)
    ensures
        prompt@ == "ClickHouse "@ + user@ + " password: "@,
{
    let mut prompt = String::from_str("ClickHouse ");
    prompt.append(user);
    prompt.append(" password: ");
    prompt
}

} // verus!

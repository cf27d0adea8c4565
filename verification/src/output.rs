//! What the commands write to standard output.
//!
//! Each function here makes the text for the format `Text`. For the formats
//! `Json` and `Yaml` it says so, and the caller writes the same value in that
//! format.

pub mod text;

use crate::model::{Error, OutputFormat, PrintableContextProfile, QueryLog, QueryLogTotal};
use vstd::prelude::*;

verus! {

/// What is to be written.
#[derive(Clone, Debug, PartialEq, Eq)]
pub enum Printout {
    /// This text, as it is.
    Text(String),
    /// The value itself, as JSON.
    Json,
    /// The value itself, as YAML.
    Yaml,
}

/// What [`Printout`] holds, with text as a sequence of characters.
pub enum PrintoutView {
    Text(Seq<char>),
    Json,
    Yaml,
}

impl View for Printout {
    type V = PrintoutView;

    open spec fn view(&self) -> PrintoutView {
        match self {
            Printout::Text(text) => PrintoutView::Text(text@),
            Printout::Json => PrintoutView::Json,
            Printout::Yaml => PrintoutView::Yaml,
        }
    }
}

/// The printout for `format`, where `text` is what the format `Text` shows.
pub open spec fn printout(format: OutputFormat, text: Seq<char>) -> PrintoutView {
    match format {
        OutputFormat::Text => PrintoutView::Text(text),
        OutputFormat::Json => PrintoutView::Json,
        OutputFormat::Yaml => PrintoutView::Yaml,
    }
}

/// The heaviest grouped queries.
pub fn print_top_queries(queries: &[QueryLog], format: OutputFormat) -> (out: Printout)
    ensures
        out@ == printout(format, text::weighted_queries_table(queries.deep_view())),
{
    match format {
        OutputFormat::Text => Printout::Text(text::print_weighted_queries_table(queries)),
        OutputFormat::Json => Printout::Json,
        OutputFormat::Yaml => Printout::Yaml,
    }
}

/// The most frequent errors. In the table each error has the time at which
/// it was last seen in the format of RFC 3339, or `-` where that time cannot
/// be written.
pub fn print_top_errors(errors: &[Error], format: OutputFormat) -> (out: Printout)
    ensures
        out@ == printout(format, text::errors_table(errors.deep_view())),
{
    match format {
        OutputFormat::Text => Printout::Text(text::print_errors_table(errors)),
        OutputFormat::Json => Printout::Json,
        OutputFormat::Yaml => Printout::Yaml,
    }
}

/// The totals of all matching queries.
pub fn print_total_queries(queries: &QueryLogTotal, format: OutputFormat) -> (out: Printout)
    ensures
        out@ == printout(format, text::total_queries_table(*queries)),
{
    match format {
        OutputFormat::Text => Printout::Text(text::print_total_queries_table(queries)),
        OutputFormat::Json => Printout::Json,
        OutputFormat::Yaml => Printout::Yaml,
    }
}

/// The names of the stored profiles.
pub fn print_context_list(names: &[String], format: OutputFormat) -> (out: Printout)
    ensures
        out@ == printout(format, text::context_names_table(names.deep_view())),
{
    match format {
        OutputFormat::Text => Printout::Text(text::print_context_names_table(names)),
        OutputFormat::Json => Printout::Json,
        OutputFormat::Yaml => Printout::Yaml,
    }
}

/// The name of the profile in use, if there is one.
pub fn print_context_current(active: Option<&str>, format: OutputFormat) -> (out: Printout)
    ensures
        out@ == printout(
            format,
            text::context_current_text(
                match active {
                    Some(name) => Some(name@),
                    None => None,
                },
            ),
        ),
{
    match format {
        OutputFormat::Text => Printout::Text(text::print_context_current(active)),
        OutputFormat::Json => Printout::Json,
        OutputFormat::Yaml => Printout::Yaml,
    }
}

/// The path of the file that holds the profiles.
pub fn print_context_config_path(path: &str, format: OutputFormat) -> (out: Printout)
    ensures
        out@ == printout(format, text::context_config_path_text(path@)),
{
    match format {
        OutputFormat::Text => Printout::Text(text::print_context_config_path(path)),
        OutputFormat::Json => Printout::Json,
        OutputFormat::Yaml => Printout::Yaml,
    }
}

/// One profile.
pub fn print_context_profile(profile: &PrintableContextProfile, format: OutputFormat) -> (out:
    Printout)
    ensures
        out@ == printout(
            format,
            text::context_profile_text(
                profile.urls.deep_view(),
                profile.user@,
                profile.password@,
                profile.accept_invalid_certificate,
            ),
        ),
{
    match format {
        OutputFormat::Text => Printout::Text(text::print_context_profile(profile)),
        OutputFormat::Json => Printout::Json,
        OutputFormat::Yaml => Printout::Yaml,
    }
}

} // verus!

//! Daily notes: dates as day numbers, filenames made from strftime patterns,
//! notebook matching, and relative-date labels.
use std::fmt::Write;
use vstd::prelude::*;
use crate::config::{Notebook, Settings};

verus! {

/// Whether the strftime pattern `format` reads a prefix of `filename`
/// (what follows the prefix, such as an extension, is ignored).
pub uninterp spec fn pattern_reads(format: Seq<char>, filename: Seq<char>) -> bool;

/// The text that the strftime pattern `format` writes for the date with day
/// number `day` (day 1 is Monday, January 1 of year 1).
pub uninterp spec fn date_text(day: int, format: Seq<char>) -> Seq<char>;

/// Whether chrono can write the date with day number `day` under the
/// pattern `format`: the day is within chrono's range and every item of the
/// pattern can be written for a date.
pub uninterp spec fn date_writes(day: int, format: Seq<char>) -> bool;

/// Whether chrono can write the moment `second` seconds after the start of
/// day number `day` under the pattern `format`.
pub uninterp spec fn moment_writes(day: int, second: int, format: Seq<char>) -> bool;

/// The text that the strftime pattern `format` writes for the moment
/// `second` seconds after the start of day number `day`.
pub uninterp spec fn moment_text(day: int, second: int, format: Seq<char>) -> Seq<char>;

/// Relies on chrono's StrftimeItems::parse and format::parse_and_remainder:
/// the pattern is read into items, and the items parse a prefix of
/// `filename`. A pattern that does not read as strftime matches nothing.
#[verifier::external_body]
fn reads_prefix(format: &str, filename: &str) -> (r: bool)
    ensures
        r == pattern_reads(format@, filename@),
{
    match chrono::format::StrftimeItems::new(format).parse() {
        Ok(items) => {
            let mut parsed = chrono::format::Parsed::new();
            chrono::format::parse_and_remainder(&mut parsed, filename, items.iter()).is_ok()
        },
        Err(_) => false,
    }
}

/// Relies on chrono's NaiveDate::from_num_days_from_ce_opt and
/// NaiveDate::format: the date's text under the pattern, or `None` where the
/// day is out of chrono's range or the pattern cannot be written for a date
/// (chrono then reports a formatting error).
#[verifier::external_body]
fn format_day(day: i32, format: &str) -> (r: Option<String>)
    ensures
        r is Some <==> date_writes(day as int, format@),
        r matches Some(t) ==> t@ == date_text(day as int, format@),
{
    let date = chrono::NaiveDate::from_num_days_from_ce_opt(day)?;
    let mut out = String::new();
    write!(out, "{}", date.format(format)).ok()?;
    Some(out)
}

/// Relies on chrono's NaiveDate::from_num_days_from_ce_opt,
/// NaiveTime::from_num_seconds_from_midnight_opt and NaiveDateTime::format:
/// the moment's text under the pattern, or `None` where the moment is out of
/// range or the pattern cannot be written.
#[verifier::external_body]
fn format_moment(day: i32, second: u32, format: &str) -> (r: Option<String>)
    ensures
        r is Some <==> moment_writes(day as int, second as int, format@),
        r matches Some(t) ==> t@ == moment_text(day as int, second as int, format@),
{
    let date = chrono::NaiveDate::from_num_days_from_ce_opt(day)?;
    let time = chrono::NaiveTime::from_num_seconds_from_midnight_opt(second, 0)?;
    let mut out = String::new();
    write!(out, "{}", date.and_time(time).format(format)).ok()?;
    Some(out)
}

/// A local date and time: a day number (day 1 is Monday, January 1 of
/// year 1) and the seconds since that day's midnight.
#[derive(Clone, Copy, Debug, PartialEq, Eq)]
pub struct LocalMoment {
    pub day: i32,
    pub second: u32,
}

/// The filename that the pattern `format` gives the date `day`; `None`
/// exactly where chrono cannot write it.
pub fn date_to_filename(day: i32, format: &str) -> (r: Option<String>)
    ensures
        r is Some <==> date_writes(day as int, format@),
        r matches Some(t) ==> t@ == date_text(day as int, format@),
{
    format_day(day, format)
}

/// The filename that the pattern `format` gives the moment `m`; `None`
/// exactly where chrono cannot write it.
pub fn moment_to_filename(m: LocalMoment, format: &str) -> (r: Option<String>)
    ensures
        r is Some <==> moment_writes(m.day as int, m.second as int, format@),
        r matches Some(t) ==> t@ == moment_text(m.day as int, m.second as int, format@),
{
    format_moment(m.day, m.second, format)
}

impl Notebook {
    /// Whether this notebook's pattern reads a prefix of `filename`.
    pub fn match_filename(&self, filename: &str) -> (r: bool)
        ensures
            r == pattern_reads(self.note_format@, filename@),
    {
        reads_prefix(self.note_format.as_str(), filename)
    }
}

/// Notebook `i` is the first of `nbs` whose pattern reads `filename`.
pub open spec fn first_match(nbs: Seq<Notebook>, filename: Seq<char>, i: int) -> bool {
    &&& 0 <= i < nbs.len()
    &&& pattern_reads(nbs[i].note_format@, filename)
    &&& forall|j: int| 0 <= j < i ==> !pattern_reads(#[trigger] nbs[j].note_format@, filename)
}

/// The first configured notebook whose pattern reads `filename`, or `None`
/// where no notebook's does.
pub fn match_notebook<'a>(context: &'a Settings, filename: &str) -> (r: Option<&'a Notebook>)
    ensures
        r is None <==> forall|j: int|
            0 <= j < context.notebooks@.len() ==> !pattern_reads(
                #[trigger] context.notebooks@[j].note_format@,
                filename@,
            ),
        r matches Some(n) ==> exists|i: int|
            first_match(context.notebooks@, filename@, i) && *n == #[trigger] context.notebooks@[i],
{
    let mut i: usize = 0;
    while i < context.notebooks.len()
        invariant
            0 <= i <= context.notebooks@.len(),
            forall|j: int| 0 <= j < i ==> !pattern_reads(
                #[trigger] context.notebooks@[j].note_format@,
                filename@,
            ),
        decreases context.notebooks@.len() - i,
    {
        let notebook = &context.notebooks[i];
        if notebook.match_filename(filename) {
            assert(first_match(context.notebooks@, filename@, i as int));
            return Some(notebook);
        }
        i = i + 1;
    }
    None
}

/// A notebook whose pattern reads the filename, with no earlier notebook's
/// pattern reading it, is the one that matching picks.
pub proof fn lemma_match_picks_first(nbs: Seq<Notebook>, filename: Seq<char>, i: int, k: int)
    requires
        first_match(nbs, filename, i),
        first_match(nbs, filename, k),
    ensures
        i == k,
{
    if i < k {
        assert(!pattern_reads(nbs[i].note_format@, filename));
    } else if k < i {
        assert(!pattern_reads(nbs[k].note_format@, filename));
    }
}

} // verus!

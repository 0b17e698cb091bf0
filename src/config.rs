//! Settings: the daily-note pattern, the configured notebooks, feature flags,
//! and the conversion of moment.js date patterns to strftime patterns.
use vstd::prelude::*;

verus! {

/// A named folder whose notes are named by a strftime-like pattern.
#[derive(Clone, Debug, PartialEq, Eq)]
pub struct Notebook {
    pub name: String,
    pub folder: String,
    pub note_format: String,
}

/// The library's settings. `notebooks` maps names to notebooks (no two
/// share a name, see `notebook_names_unique`) and keeps the configured
/// order, which decides ties: the first notebook that matches wins.
#[derive(Clone, Debug, PartialEq, Eq)]
pub struct Settings {
    /// Format of daily notes
    pub dailynote: String,
    pub heading_completions: bool,
    pub title_headings: bool,
    pub unresolved_diagnostics: bool,
    pub semantic_tokens: bool,
    pub tags_in_codeblocks: bool,
    pub references_in_codeblocks: bool,
    pub notebooks: Vec<Notebook>,
}

/// No two notebooks share a name: `notebooks` maps names to notebooks.
pub open spec fn notebook_names_unique(nbs: Seq<Notebook>) -> bool {
    forall|i: int, j: int| 0 <= i < j < nbs.len() ==> #[trigger] nbs[i].name@ != #[trigger] nbs[j].name@
}

impl Settings {
    /// Whether no two notebooks share a name.
    pub fn has_unique_notebook_names(&self) -> (r: bool)
        ensures
            r == notebook_names_unique(self.notebooks@),
    {
        let n = self.notebooks.len();
        let mut i: usize = 0;
        while i < n
            invariant
                n == self.notebooks@.len(),
                0 <= i <= n,
                forall|a: int, b: int| 0 <= a < b < n && a < i ==> #[trigger] self.notebooks@[a].name@ != #[trigger] self.notebooks@[b].name@,
            decreases n - i,
        {
            let mut j: usize = i + 1;
            while j < n
                invariant
                    n == self.notebooks@.len(),
                    0 <= i < n,
                    i + 1 <= j <= n,
                    forall|a: int, b: int| 0 <= a < b < n && a < i ==> #[trigger] self.notebooks@[a].name@ != #[trigger] self.notebooks@[b].name@,
                    forall|b: int| i < b < j ==> self.notebooks@[i as int].name@ != #[trigger] self.notebooks@[b].name@,
                decreases n - j,
            {
                if self.notebooks[i].name == self.notebooks[j].name {
                    return false;
                }
                j = j + 1;
            }
            i = i + 1;
        }
        true
    }
}

/// `s` with every occurrence of the non-empty `from` replaced by `to`,
/// scanning left to right without overlaps.
pub open spec fn replace_all(s: Seq<char>, from: Seq<char>, to: Seq<char>) -> Seq<char>
    recommends
        from.len() > 0,
    decreases s.len(),
{
    if from.len() == 0 || s.len() < from.len() {
        s
    } else if s.take(from.len() as int) == from {
        to + replace_all(s.skip(from.len() as int), from, to)
    } else {
        seq![s[0]] + replace_all(s.drop_first(), from, to)
    }
}

/// Relies on str::replace: every non-overlapping occurrence of `from`,
/// left to right, becomes `to`.
#[verifier::external_body]
fn replace_str(s: &str, from: &str, to: &str) -> (r: String)
    requires
        from@.len() > 0,
    ensures
        r@ == replace_all(s@, from@, to@),
{
    s.replace(from, to)
}

/// The moment.js tokens and their strftime equivalents, in the order in
/// which they are substituted: longer tokens first within each field.
pub open spec fn moment_tokens() -> Seq<(Seq<char>, Seq<char>)> {
    seq![
        ("YYYY"@, "%Y"@),
        ("YY"@, "%y"@),
        ("MMMM"@, "%B"@),
        ("MMM"@, "%b"@),
        ("MM"@, "%m"@),
        ("M"@, "%-m"@),
        ("DD"@, "%d"@),
        ("D"@, "%-d"@),
        ("dddd"@, "%A"@),
        ("ddd"@, "%a"@),
    ]
}

/// `s` after substituting the first `n` token pairs of `table`, in order.
pub open spec fn substitute_tokens(s: Seq<char>, table: Seq<(Seq<char>, Seq<char>)>, n: int) -> Seq<char>
    decreases n,
{
    if n <= 0 {
        s
    } else {
        replace_all(substitute_tokens(s, table, n - 1), table[n - 1].0, table[n - 1].1)
    }
}

fn momentjs_to_chrono_format_map() -> (r: Vec<(&'static str, &'static str)>)
    ensures
        r@.len() == moment_tokens().len(),
        forall|i: int| 0 <= i < r@.len() ==> (#[trigger] r@[i]).0@ == moment_tokens()[i].0
            && r@[i].1@ == moment_tokens()[i].1 && r@[i].0@.len() > 0,
{
    proof {
        reveal_strlit("YYYY");
        reveal_strlit("YY");
        reveal_strlit("MMMM");
        reveal_strlit("MMM");
        reveal_strlit("MM");
        reveal_strlit("M");
        reveal_strlit("DD");
        reveal_strlit("D");
        reveal_strlit("dddd");
        reveal_strlit("ddd");
    }
    let r = vec![
        ("YYYY", "%Y"),
        ("YY", "%y"),
        ("MMMM", "%B"),
        ("MMM", "%b"),
        ("MM", "%m"),
        ("M", "%-m"),
        ("DD", "%d"),
        ("D", "%-d"),
        ("dddd", "%A"),
        ("ddd", "%a"),
    ];
    r
}

/// Converts a moment.js date pattern (as Obsidian stores it) to a strftime
/// pattern by substituting each token of `moment_tokens` in turn.
pub fn convert_momentjs_to_chrono_format(moment_format: &str) -> (r: String)
    ensures
        r@ == substitute_tokens(moment_format@, moment_tokens(), moment_tokens().len() as int),
{
    let format_map = momentjs_to_chrono_format_map();
    let mut chrono_format = moment_format.to_owned();
    let mut i: usize = 0;
    while i < format_map.len()
        invariant
            format_map@.len() == moment_tokens().len(),
            forall|j: int| 0 <= j < format_map@.len() ==> (#[trigger] format_map@[j]).0@ == moment_tokens()[j].0
                && format_map@[j].1@ == moment_tokens()[j].1 && format_map@[j].0@.len() > 0,
            0 <= i <= format_map@.len(),
            chrono_format@ == substitute_tokens(moment_format@, moment_tokens(), i as int),
        decreases format_map@.len() - i,
    {
        let (moment_token, chrono_token) = format_map[i];
        chrono_format = replace_str(chrono_format.as_str(), moment_token, chrono_token);
        i = i + 1;
    }
    chrono_format
}

/// Settings as read from the settings files: a field the files leave out
/// is `None`.
#[derive(Clone, Debug, PartialEq, Eq, Default)]
pub struct SettingsFile {
    pub dailynote: Option<String>,
    pub heading_completions: Option<bool>,
    pub title_headings: Option<bool>,
    pub unresolved_diagnostics: Option<bool>,
    pub semantic_tokens: Option<bool>,
    pub tags_in_codeblocks: Option<bool>,
    pub references_in_codeblocks: Option<bool>,
    pub notebooks: Option<Vec<Notebook>>,
}

/// The daily-note pattern used when neither the files nor Obsidian give one.
pub open spec fn default_dailynote() -> Seq<char> {
    "%Y-%m-%d"@
}

/// A flag as the files give it, `true` where they leave it out.
pub open spec fn flag_or_default(v: Option<bool>) -> bool {
    match v {
        Some(b) => b,
        None => true,
    }
}

fn flag(v: Option<bool>) -> (r: bool)
    ensures
        r == flag_or_default(v),
{
    match v {
        Some(b) => b,
        None => true,
    }
}

impl Settings {
    /// Settings from what the settings files give, falling back to
    /// Obsidian's daily-note pattern (already converted to strftime) or
    /// `default_dailynote` for the pattern, to `true` for every flag, and to
    /// no notebooks. Semantic tokens are switched off, whatever the files
    /// say, when the client declared its document capabilities without them.
    pub fn new(file: SettingsFile, obsidian_dailynote: Option<String>, client_lacks_semantic_tokens: bool) -> (r: Settings)
        ensures
            r.dailynote@ == match file.dailynote {
                Some(d) => d@,
                None => match obsidian_dailynote {
                    Some(d) => d@,
                    None => default_dailynote(),
                },
            },
            r.heading_completions == flag_or_default(file.heading_completions),
            r.title_headings == flag_or_default(file.title_headings),
            r.unresolved_diagnostics == flag_or_default(file.unresolved_diagnostics),
            r.semantic_tokens == (!client_lacks_semantic_tokens && flag_or_default(file.semantic_tokens)),
            r.tags_in_codeblocks == flag_or_default(file.tags_in_codeblocks),
            r.references_in_codeblocks == flag_or_default(file.references_in_codeblocks),
            r.notebooks@ == match file.notebooks {
                Some(v) => v@,
                None => Seq::<Notebook>::empty(),
            },
    {
        let dailynote = match file.dailynote {
            Some(d) => d,
            None => match obsidian_dailynote {
                Some(d) => d,
                None => "%Y-%m-%d".to_owned(),
            },
        };
        let semantic_tokens = if client_lacks_semantic_tokens {
            false
        } else {
            flag(file.semantic_tokens)
        };
        let notebooks = match file.notebooks {
            Some(v) => v,
            None => Vec::new(),
        };
        Settings {
            dailynote,
            heading_completions: flag(file.heading_completions),
            title_headings: flag(file.title_headings),
            unresolved_diagnostics: flag(file.unresolved_diagnostics),
            semantic_tokens,
            tags_in_codeblocks: flag(file.tags_in_codeblocks),
            references_in_codeblocks: flag(file.references_in_codeblocks),
            notebooks,
        }
    }
}

} // verus!

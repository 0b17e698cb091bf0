//! Workspace symbols: one per indexed target, then one per day of the
//! fortnight around today, labelled relative to today.
use vstd::prelude::*;
use vstd::string::StringExecFns;
use crate::config::Settings;
use crate::daily::{date_text, date_to_filename, date_writes};
use crate::outline::{Position, Range};

verus! {

/// The kinds of target that the indexer reports.
#[derive(Clone, Copy, Debug, PartialEq, Eq, Structural)]
pub enum ReferenceableKind {
    File,
    Heading,
    IndexedBlock,
    Tag,
    Footnote,
    LinkRefDef,
    UnresolvedFile,
    UnresolvedHeading,
    UnresolvedIndexedBlock,
}

/// A target as the indexer reports it: its kind, file, span (if it has one)
/// and its name relative to the vault root (if it can be written).
#[derive(Clone, Debug, PartialEq, Eq)]
pub struct ReferenceableNode {
    pub kind: ReferenceableKind,
    pub path: String,
    pub range: Option<Range>,
    pub refname: Option<String>,
}

/// The kinds of symbol reported.
#[derive(Clone, Copy, Debug, PartialEq, Eq, Structural)]
pub enum SymbolKind {
    File,
    Constant,
    Key,
}

/// One entry of the workspace symbol list.
#[derive(Clone, Debug, PartialEq, Eq)]
pub struct SymbolInformation {
    pub name: String,
    pub kind: SymbolKind,
    pub path: String,
    pub range: Range,
}

/// The span given to a whole file: empty, at the start of the document.
pub open spec fn file_start_range() -> Range {
    Range { start: Position { line: 0, character: 0 }, end: Position { line: 0, character: 0 } }
}

fn start_range() -> (r: Range)
    ensures
        r == file_start_range(),
{
    Range { start: Position { line: 0, character: 0 }, end: Position { line: 0, character: 0 } }
}

/// The symbol kind of a target: files and tags have their own, the rest
/// share one.
pub open spec fn symbol_kind_of(k: ReferenceableKind) -> SymbolKind {
    match k {
        ReferenceableKind::File => SymbolKind::File,
        ReferenceableKind::Tag => SymbolKind::Constant,
        _ => SymbolKind::Key,
    }
}

/// The span reported for a target: a file's start, else its own span.
pub open spec fn symbol_range(n: ReferenceableNode) -> Option<Range> {
    if n.kind == ReferenceableKind::File {
        Some(file_start_range())
    } else {
        n.range
    }
}

/// A target gets a symbol where it has a name and a span.
pub open spec fn has_symbol(n: ReferenceableNode) -> bool {
    n.refname is Some && symbol_range(n) is Some
}

/// `s` is the symbol of the target `n`.
pub open spec fn is_symbol_of(s: SymbolInformation, n: ReferenceableNode) -> bool {
    &&& n.refname matches Some(name) && s.name@ == name@
    &&& s.kind == symbol_kind_of(n.kind)
    &&& s.path@ == n.path@
    &&& symbol_range(n) == Some(s.range)
}

/// The positions, in order, of the first `n` targets that get a symbol.
pub open spec fn symbol_positions(nodes: Seq<ReferenceableNode>, n: int) -> Seq<int>
    decreases n,
{
    if n <= 0 {
        Seq::empty()
    } else if has_symbol(nodes[n - 1]) {
        symbol_positions(nodes, n - 1).push(n - 1)
    } else {
        symbol_positions(nodes, n - 1)
    }
}

/// The symbols of the indexed targets, in order; a target without a name
/// or a span is left out.
pub fn referenceable_symbols(nodes: &Vec<ReferenceableNode>) -> (r: Vec<SymbolInformation>)
    ensures
        r@.len() == symbol_positions(nodes@, nodes@.len() as int).len(),
        forall|a: int|
            0 <= a < r@.len() ==> 0 <= #[trigger] symbol_positions(nodes@, nodes@.len() as int)[a]
                < nodes@.len(),
        forall|a: int|
            0 <= a < r@.len() ==> is_symbol_of(
                #[trigger] r@[a],
                nodes@[symbol_positions(nodes@, nodes@.len() as int)[a]],
            ),
{
    let mut r: Vec<SymbolInformation> = Vec::new();
    let mut i: usize = 0;
    while i < nodes.len()
        invariant
            0 <= i <= nodes@.len(),
            r@.len() == symbol_positions(nodes@, i as int).len(),
            forall|a: int|
                0 <= a < r@.len() ==> 0 <= #[trigger] symbol_positions(nodes@, i as int)[a] < i,
            forall|a: int|
                0 <= a < r@.len() ==> is_symbol_of(
                    #[trigger] r@[a],
                    nodes@[symbol_positions(nodes@, i as int)[a]],
                ),
        decreases nodes@.len() - i,
    {
        let node = &nodes[i];
        let range = if node.kind == ReferenceableKind::File {
            Some(start_range())
        } else {
            node.range
        };
        let kind = match node.kind {
            ReferenceableKind::File => SymbolKind::File,
            ReferenceableKind::Tag => SymbolKind::Constant,
            _ => SymbolKind::Key,
        };
        match (&node.refname, range) {
            (Some(name), Some(range)) => {
                r.push(SymbolInformation { name: name.clone(), kind, path: node.path.clone(), range });
            },
            _ => {},
        }
        i = i + 1;
    }
    r
}

/// The day of the week of day number `day`: 0 is Monday, 6 is Sunday
/// (day 1, January 1 of year 1, was a Monday).
pub open spec fn weekday_of(day: int) -> int {
    (day - 1) % 7
}

/// The English name of weekday `w` (0 is Monday).
pub open spec fn weekday_name(w: int) -> Seq<char> {
    if w == 0 { "Monday"@ } else if w == 1 { "Tuesday"@ } else if w == 2 { "Wednesday"@ }
    else if w == 3 { "Thursday"@ } else if w == 4 { "Friday"@ } else if w == 5 { "Saturday"@ }
    else { "Sunday"@ }
}

/// The phrase for the date `day`, `day - today` days from today: defined
/// within a week either way.
pub open spec fn relative_label(today: int, day: int) -> Option<Seq<char>> {
    let offset = day - today;
    if offset == 0 {
        Some("today"@)
    } else if offset == 1 {
        Some("tomorrow"@)
    } else if offset == -1 {
        Some("yesterday"@)
    } else if 2 <= offset <= 7 {
        Some("next "@ + weekday_name(weekday_of(day)))
    } else if -7 <= offset <= -2 {
        Some("last "@ + weekday_name(weekday_of(day)))
    } else {
        None
    }
}

fn weekday_string(day: i32) -> (r: String)
    ensures
        r@ == weekday_name(weekday_of(day as int)),
{
    let w: i64 = ((day as i64 - 1) % 7 + 7) % 7;
    assert(w == weekday_of(day as int));
    if w == 0 {
        "Monday".to_owned()
    } else if w == 1 {
        "Tuesday".to_owned()
    } else if w == 2 {
        "Wednesday".to_owned()
    } else if w == 3 {
        "Thursday".to_owned()
    } else if w == 4 {
        "Friday".to_owned()
    } else if w == 5 {
        "Saturday".to_owned()
    } else {
        "Sunday".to_owned()
    }
}

/// The phrase for the date `day` as seen from `today`, where there is one.
pub fn relative_date_string(today: i32, day: i32) -> (r: Option<String>)
    ensures
        r matches Some(s) ==> relative_label(today as int, day as int) == Some(s@),
        r is None ==> relative_label(today as int, day as int) is None,
{
    let offset: i64 = day as i64 - today as i64;
    if offset == 0 {
        Some("today".to_owned())
    } else if offset == 1 {
        Some("tomorrow".to_owned())
    } else if offset == -1 {
        Some("yesterday".to_owned())
    } else if 2 <= offset && offset <= 7 {
        let mut s = "next ".to_owned();
        let name = weekday_string(day);
        s.append(name.as_str());
        Some(s)
    } else if -7 <= offset && offset <= -2 {
        let mut s = "last ".to_owned();
        let name = weekday_string(day);
        s.append(name.as_str());
        Some(s)
    } else {
        None
    }
}

/// `s` is the symbol for the date `day`, whose daily note is `filename`,
/// seen from `today`.
pub open spec fn is_day_symbol(s: SymbolInformation, today: int, day: int, filename: Seq<char>) -> bool {
    &&& relative_label(today, day) matches Some(label) && s.name@ == label + ": "@ + filename
    &&& s.kind == SymbolKind::File
    &&& s.path@ == filename
    &&& s.range == file_start_range()
}

/// The positions, in order, of the first `n` filenames that are present.
pub open spec fn day_positions(filenames: Seq<Option<String>>, n: int) -> Seq<int>
    decreases n,
{
    if n <= 0 {
        Seq::empty()
    } else if filenames[n - 1] is Some {
        day_positions(filenames, n - 1).push(n - 1)
    } else {
        day_positions(filenames, n - 1)
    }
}

proof fn lemma_day_positions(filenames: Seq<Option<String>>, n: int)
    requires
        0 <= n <= filenames.len(),
    ensures
        day_positions(filenames, n).len() <= n,
        forall|a: int|
            0 <= a < day_positions(filenames, n).len() ==> 0 <= #[trigger] day_positions(filenames, n)[a] < n
                && filenames[day_positions(filenames, n)[a]] is Some,
    decreases n,
{
    if n > 0 {
        lemma_day_positions(filenames, n - 1);
    }
}

/// The symbols of the dates from a week before `today` to a week after it,
/// in date order: `filenames[k]` is the daily-note filename of the date
/// `k - 7` days from today, and a date without one is left out.
pub fn day_symbols(today: i32, filenames: &Vec<Option<String>>) -> (r: Vec<SymbolInformation>)
    requires
        filenames@.len() == 15,
        i32::MIN + 7 <= today <= i32::MAX - 7,
    ensures
        r@.len() == day_positions(filenames@, 15).len(),
        forall|a: int| 0 <= a < r@.len() ==> 0 <= #[trigger] day_positions(filenames@, 15)[a] < 15,
        forall|a: int|
            0 <= a < r@.len() ==> is_day_symbol(
                #[trigger] r@[a],
                today as int,
                today + day_positions(filenames@, 15)[a] - 7,
                filenames@[day_positions(filenames@, 15)[a]].unwrap()@,
            ),
{
    let mut r: Vec<SymbolInformation> = Vec::new();
    let mut k: usize = 0;
    while k < 15
        invariant
            filenames@.len() == 15,
            i32::MIN + 7 <= today <= i32::MAX - 7,
            0 <= k <= 15,
            r@.len() == day_positions(filenames@, k as int).len(),
            forall|a: int| 0 <= a < r@.len() ==> 0 <= #[trigger] day_positions(filenames@, k as int)[a] < k,
            forall|a: int|
                0 <= a < r@.len() ==> is_day_symbol(
                    #[trigger] r@[a],
                    today as int,
                    today + day_positions(filenames@, k as int)[a] - 7,
                    filenames@[day_positions(filenames@, k as int)[a]].unwrap()@,
                ),
        decreases 15 - k,
    {
        let day: i32 = (today - 7) + (k as i32);
        let label = relative_date_string(today, day);
        match (&filenames[k], label) {
            (Some(filename), Some(label)) => {
                let mut name = label;
                name.append(": ");
                name.append(filename.as_str());
                r.push(SymbolInformation {
                    name,
                    kind: SymbolKind::File,
                    path: filename.clone(),
                    range: start_range(),
                });
            },
            _ => {},
        }
        k = k + 1;
    }
    r
}

/// The offsets `k - 7`, for `k` in `0..n` in order, of the days around
/// `today` whose daily-note filename chrono can write under `format`; each
/// is given as `k`.
pub open spec fn written_days(today: int, format: Seq<char>, n: int) -> Seq<int>
    decreases n,
{
    if n <= 0 {
        Seq::empty()
    } else if date_writes(today + (n - 1) - 7, format) {
        written_days(today, format, n - 1).push(n - 1)
    } else {
        written_days(today, format, n - 1)
    }
}

proof fn lemma_written_days(filenames: Seq<Option<String>>, today: int, format: Seq<char>, n: int)
    requires
        0 <= n <= filenames.len(),
        forall|k: int| 0 <= k < filenames.len() ==> (#[trigger] filenames[k] is Some <==> date_writes(today + k - 7, format)),
    ensures
        day_positions(filenames, n) == written_days(today, format, n),
    decreases n,
{
    if n > 0 {
        lemma_written_days(filenames, today, format, n - 1);
    }
}

/// The workspace symbol list: the symbols of the indexed targets, in order,
/// then one symbol for each date from a week before `today` to a week after
/// it, in date order, named by its relative phrase and its daily-note
/// filename under `settings.dailynote`. A date whose filename chrono cannot
/// write is left out, and so are all dates when they do not fit an `i32`.
pub fn workspace_symbol(settings: &Settings, nodes: &Vec<ReferenceableNode>, today: i32) -> (r: Vec<SymbolInformation>)
    ensures
        ({
            let p = symbol_positions(nodes@, nodes@.len() as int).len();
            let w = written_days(today as int, settings.dailynote@, 15);
            &&& forall|a: int|
                0 <= a < p ==> 0 <= #[trigger] symbol_positions(nodes@, nodes@.len() as int)[a] < nodes@.len()
            &&& forall|a: int|
                0 <= a < p ==> is_symbol_of(
                    #[trigger] r@[a],
                    nodes@[symbol_positions(nodes@, nodes@.len() as int)[a]],
                )
            &&& if i32::MIN + 7 <= today <= i32::MAX - 7 {
                &&& r@.len() == p + w.len()
                &&& forall|a: int|
                    0 <= a < w.len() ==> is_day_symbol(
                        #[trigger] r@[p + a],
                        today as int,
                        today + w[a] - 7,
                        date_text(today + w[a] - 7, settings.dailynote@),
                    )
            } else {
                r@.len() == p
            }
        }),
{
    let mut r = referenceable_symbols(nodes);
    let ghost p = r@.len();
    if today < i32::MIN + 7 || today > i32::MAX - 7 {
        return r;
    }
    let mut filenames: Vec<Option<String>> = Vec::new();
    let mut k: usize = 0;
    while k < 15
        invariant
            i32::MIN + 7 <= today <= i32::MAX - 7,
            0 <= k <= 15,
            filenames@.len() == k,
            forall|t: int|
                0 <= t < k ==> (#[trigger] filenames@[t] matches Some(f) ==> f@ == date_text(
                    today + t - 7,
                    settings.dailynote@,
                )),
            forall|t: int|
                0 <= t < k ==> (#[trigger] filenames@[t] is Some <==> date_writes(today + t - 7, settings.dailynote@)),
        decreases 15 - k,
    {
        filenames.push(date_to_filename((today - 7) + (k as i32), settings.dailynote.as_str()));
        k = k + 1;
    }
    let mut days = day_symbols(today, &filenames);
    let ghost dv = days@;
    proof {
        lemma_day_positions(filenames@, 15);
        lemma_written_days(filenames@, today as int, settings.dailynote@, 15);
    }
    let ghost before = r@;
    r.append(&mut days);
    assert forall|a: int| 0 <= a < dv.len() implies is_day_symbol(
        #[trigger] r@[p + a],
        today as int,
        today + written_days(today as int, settings.dailynote@, 15)[a] - 7,
        date_text(today + written_days(today as int, settings.dailynote@, 15)[a] - 7, settings.dailynote@),
    ) by {
        assert(r@[p + a] == dv[a]);
        let t = day_positions(filenames@, 15)[a];
        assert(filenames@[t] is Some);
    }
    assert forall|a: int| 0 <= a < p implies r@[a] == before[a] by {}
    r
}

} // verus!

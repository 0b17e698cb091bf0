//! Unresolved references: which references no target matches, the
//! diagnostics for them, and "create file" quick-fixes.
//!
//! Whether a target matches a reference is the indexer's business. The
//! functions here take its answers as a table: `hits[i][j]` is whether
//! target `j` matches reference `i`.
use vstd::prelude::*;
use vstd::string::StringExecFns;
use crate::outline::Range;
use crate::text::{contains_char, decimal, write_decimal};

verus! {

/// The syntax a reference was written in.
#[derive(Clone, Copy, Debug, PartialEq, Eq, Structural)]
pub enum ReferenceKind {
    Tag,
    WikiFileLink,
    WikiHeadingLink,
    WikiIndexedBlockLink,
    MDFileLink,
    MDHeadingLink,
    MDIndexedBlockLink,
    Footnote,
    LinkRef,
}

/// One occurrence of link syntax: the file it stands in, its target text
/// (an anchor follows `#`), its kind and its place.
#[derive(Clone, Debug, PartialEq, Eq)]
pub struct Reference {
    pub path: String,
    pub reference_text: String,
    pub kind: ReferenceKind,
    pub range: Range,
}

/// A reference is unresolved when no target matches it.
pub open spec fn is_unresolved(row: Seq<bool>) -> bool {
    forall|j: int| 0 <= j < row.len() ==> !row[j]
}

/// For each reference, whether it is unresolved.
pub open spec fn unresolved_rows(hits: Seq<Vec<bool>>) -> Seq<bool> {
    Seq::new(hits.len(), |i: int| is_unresolved(hits[i]@))
}

/// The positions, in order, of the unresolved references among the first `n`.
pub open spec fn unresolved_positions(hits: Seq<Vec<bool>>, n: int) -> Seq<int>
    decreases n,
{
    if n <= 0 {
        Seq::empty()
    } else if is_unresolved(hits[n - 1]@) {
        unresolved_positions(hits, n - 1).push(n - 1)
    } else {
        unresolved_positions(hits, n - 1)
    }
}

fn row_unresolved(row: &Vec<bool>) -> (r: bool)
    ensures
        r == is_unresolved(row@),
{
    let mut j: usize = 0;
    while j < row.len()
        invariant
            0 <= j <= row@.len(),
            forall|t: int| 0 <= t < j ==> !row@[t],
        decreases row@.len() - j,
    {
        if row[j] {
            return false;
        }
        j = j + 1;
    }
    true
}

/// The positions of the unresolved references, in order: a reference that
/// some target matches is never among them, and one that none matches
/// always is.
pub fn unresolved_references(hits: &Vec<Vec<bool>>) -> (r: Vec<usize>)
    ensures
        r@.map_values(|x: usize| x as int) == unresolved_positions(hits@, hits@.len() as int),
        forall|a: int, b: int| 0 <= a < b < r@.len() ==> r@[a] < r@[b],
        forall|a: int| 0 <= a < r@.len() ==> (r@[a] as int) < hits@.len(),
        forall|i: int|
            0 <= i < hits@.len() ==> (r@.contains(i as usize) <==> is_unresolved(
                #[trigger] hits@[i]@,
            )),
{
    let mut r: Vec<usize> = Vec::new();
    let mut i: usize = 0;
    while i < hits.len()
        invariant
            0 <= i <= hits@.len(),
            r@.map_values(|x: usize| x as int) == unresolved_positions(hits@, i as int),
            forall|a: int, b: int| 0 <= a < b < r@.len() ==> r@[a] < r@[b],
            forall|a: int| 0 <= a < r@.len() ==> r@[a] < i,
            forall|t: int|
                0 <= t < i ==> (r@.contains(t as usize) <==> is_unresolved(#[trigger] hits@[t]@)),
        decreases hits@.len() - i,
    {
        let ghost before = r@;
        let u = row_unresolved(&hits[i]);
        if u {
            r.push(i);
            assert(r@[r@.len() - 1] == i);
            assert(r@.map_values(|x: usize| x as int) =~= before.map_values(|x: usize| x as int).push(i as int));
        }
        assert forall|t: int|
            0 <= t <= i implies (r@.contains(t as usize) <==> is_unresolved(#[trigger] hits@[t]@)) by {
            if r@.contains(t as usize) {
                let a = choose|a: int| 0 <= a < r@.len() && r@[a] == t as usize;
                if a < before.len() {
                    assert(before[a] == r@[a]);
                    assert(before.contains(t as usize));
                }
            }
            if t < i && before.contains(t as usize) {
                let a = choose|a: int| 0 <= a < before.len() && before[a] == t as usize;
                assert(r@[a] == before[a]);
            }
            if t == i && u {
                assert(r@[r@.len() - 1] == i);
            }
        }
        i = i + 1;
    }
    r
}

/// `other` is counted with `r`: same kind and same target text, and for a
/// footnote (which is local to its file) the same file.
pub open spec fn counted_with(r: Reference, other: Reference) -> bool {
    &&& other.kind == r.kind
    &&& other.reference_text@ == r.reference_text@
    &&& (r.kind == ReferenceKind::Footnote ==> other.path@ == r.path@)
}

/// How many of the first `n` references of `all` are unresolved and
/// counted with `r`.
pub open spec fn duplicate_count(all: Seq<Reference>, unresolved: Seq<bool>, r: Reference, n: int) -> nat
    decreases n,
{
    if n <= 0 {
        0
    } else {
        duplicate_count(all, unresolved, r, n - 1) + if unresolved[n - 1] && counted_with(r, all[n - 1]) {
            1nat
        } else {
            0nat
        }
    }
}

/// The diagnostic message for an unresolved reference used `count` times
/// across the vault.
pub open spec fn unresolved_message(count: nat) -> Seq<char> {
    if count > 1 {
        "Unresolved Reference used "@ + decimal(count) + " times"@
    } else {
        "Unresolved Reference"@
    }
}

/// How serious a diagnostic is.
#[derive(Clone, Copy, Debug, PartialEq, Eq, Structural)]
pub enum DiagnosticSeverity {
    Error,
    Warning,
    Information,
    Hint,
}

/// A message attached to a span of a document.
#[derive(Clone, Debug, PartialEq, Eq)]
pub struct Diagnostic {
    pub range: Range,
    pub message: String,
    pub source: String,
    pub severity: DiagnosticSeverity,
}

/// The label that marks this library's diagnostics.
pub open spec fn diagnostic_source() -> Seq<char> {
    "Obsidian LS"@
}

/// What the diagnostic for reference `r` says, given the vault's references
/// and which of them are unresolved.
pub open spec fn diagnostic_for(d: Diagnostic, r: Reference, all: Seq<Reference>, unresolved: Seq<bool>) -> bool {
    &&& d.range == r.range
    &&& d.message@ == unresolved_message(duplicate_count(all, unresolved, r, all.len() as int))
    &&& d.source@ == diagnostic_source()
    &&& d.severity == DiagnosticSeverity::Information
}

fn strings_equal(a: &String, b: &String) -> (r: bool)
    ensures
        r == (a@ == b@),
{
    *a == *b
}

fn is_counted_with(r: &Reference, other: &Reference) -> (b: bool)
    ensures
        b == counted_with(*r, *other),
{
    other.kind == r.kind && strings_equal(&other.reference_text, &r.reference_text) && (r.kind
        != ReferenceKind::Footnote || strings_equal(&other.path, &r.path))
}

fn count_duplicates(all: &Vec<Reference>, unresolved: &Vec<bool>, r: &Reference) -> (c: usize)
    requires
        unresolved@.len() == all@.len(),
    ensures
        c == duplicate_count(all@, unresolved@, *r, all@.len() as int),
{
    let mut c: usize = 0;
    let mut i: usize = 0;
    while i < all.len()
        invariant
            unresolved@.len() == all@.len(),
            0 <= i <= all@.len(),
            c == duplicate_count(all@, unresolved@, *r, i as int),
            c <= i,
        decreases all@.len() - i,
    {
        if unresolved[i] && is_counted_with(r, &all[i]) {
            c = c + 1;
        }
        i = i + 1;
    }
    c
}

fn message_for(count: usize) -> (m: String)
    ensures
        m@ == unresolved_message(count as nat),
{
    if count > 1 {
        let mut m = "Unresolved Reference used ".to_owned();
        write_decimal(&mut m, count);
        m.append(" times");
        m
    } else {
        "Unresolved Reference".to_owned()
    }
}

/// The diagnostics of one file: one per unresolved reference of the file,
/// in order, each saying how often its target text is used unresolved
/// across the vault. `file_hits` and `all_hits` hold the indexer's answers
/// for the file's references and for all of the vault's.
pub fn diagnostics(
    file_refs: &Vec<Reference>,
    file_hits: &Vec<Vec<bool>>,
    all_refs: &Vec<Reference>,
    all_hits: &Vec<Vec<bool>>,
) -> (r: Vec<Diagnostic>)
    requires
        file_hits@.len() == file_refs@.len(),
        all_hits@.len() == all_refs@.len(),
    ensures
        r@.len() == unresolved_positions(file_hits@, file_hits@.len() as int).len(),
        forall|a: int|
            0 <= a < r@.len() ==> 0 <= #[trigger] unresolved_positions(file_hits@, file_hits@.len() as int)[a]
                < file_refs@.len(),
        forall|a: int|
            0 <= a < r@.len() ==> diagnostic_for(
                #[trigger] r@[a],
                file_refs@[unresolved_positions(file_hits@, file_hits@.len() as int)[a]],
                all_refs@,
                unresolved_rows(all_hits@),
            ),
{
    let mut vault_unresolved: Vec<bool> = Vec::new();
    let mut i: usize = 0;
    while i < all_hits.len()
        invariant
            0 <= i <= all_hits@.len(),
            vault_unresolved@ == unresolved_rows(all_hits@).take(i as int),
        decreases all_hits@.len() - i,
    {
        let u = row_unresolved(&all_hits[i]);
        vault_unresolved.push(u);
        assert(vault_unresolved@ =~= unresolved_rows(all_hits@).take(i + 1));
        i = i + 1;
    }
    assert(vault_unresolved@ =~= unresolved_rows(all_hits@));
    let idx = unresolved_references(file_hits);
    assert forall|a: int| 0 <= a < idx@.len() implies 0 <= #[trigger] unresolved_positions(
        file_hits@,
        file_hits@.len() as int,
    )[a] < file_refs@.len() by {
        assert(idx@.map_values(|x: usize| x as int)[a] == idx@[a] as int);
    }
    let mut r: Vec<Diagnostic> = Vec::new();
    let mut k: usize = 0;
    while k < idx.len()
        invariant
            vault_unresolved@ == unresolved_rows(all_hits@),
            all_hits@.len() == all_refs@.len(),
            0 <= k <= idx@.len(),
            r@.len() == k,
            idx@.map_values(|x: usize| x as int) == unresolved_positions(file_hits@, file_hits@.len() as int),
            forall|a: int| 0 <= a < idx@.len() ==> (idx@[a] as int) < file_hits@.len(),
            file_hits@.len() == file_refs@.len(),
            forall|a: int|
                0 <= a < k ==> diagnostic_for(
                    #[trigger] r@[a],
                    file_refs@[unresolved_positions(file_hits@, file_hits@.len() as int)[a]],
                    all_refs@,
                    unresolved_rows(all_hits@),
                ),
        decreases idx@.len() - k,
    {
        proof {
            assert(idx@.map_values(|x: usize| x as int)[k as int] == idx@[k as int] as int);
        }
        let reference = &file_refs[idx[k]];
        let count = count_duplicates(all_refs, &vault_unresolved, reference);
        let d = Diagnostic {
            range: reference.range,
            message: message_for(count),
            source: "Obsidian LS".to_owned(),
            severity: DiagnosticSeverity::Information,
        };
        r.push(d);
        k = k + 1;
    }
    r
}

/// Where the extension of the last path component of `t[..i]` starts: the
/// last `.` of that component that is not its first character, or
/// `t.len()` where there is none.
pub open spec fn extension_start(t: Seq<char>, i: int) -> int
    decreases i,
{
    if i <= 0 || i > t.len() {
        t.len() as int
    } else if t[i - 1] == '/' {
        t.len() as int
    } else if t[i - 1] == '.' && i - 1 > 0 && t[i - 2] != '/' {
        i - 1
    } else {
        extension_start(t, i - 1)
    }
}

/// The length of `t[..i]` without its trailing `/` characters.
pub open spec fn trimmed_len(t: Seq<char>, i: int) -> int
    decreases i,
{
    if 0 < i <= t.len() && t[i - 1] == '/' {
        trimmed_len(t, i - 1)
    } else {
        i
    }
}

/// Where the last path component of `t[..i]` starts.
pub open spec fn component_start(t: Seq<char>, i: int) -> int
    decreases i,
{
    if 0 < i <= t.len() && t[i - 1] != '/' {
        component_start(t, i - 1)
    } else {
        i
    }
}

/// `t` naming a file: trailing `/` characters dropped, then its extension,
/// if any, replaced by `.md`. A path whose last component is empty, `.` or
/// `..` names no file and stays as it is.
pub open spec fn with_md_extension(t: Seq<char>) -> Seq<char> {
    let e = trimmed_len(t, t.len() as int);
    let u = t.take(e);
    let c = u.skip(component_start(u, e));
    if c.len() == 0 || c == "."@ || c == ".."@ {
        t
    } else {
        u.take(extension_start(u, e)) + ".md"@
    }
}

/// A reference can be offered as a new file: no target matches it, it has
/// no anchor, and it covers the requested span, starting on its line.
pub open spec fn is_candidate(r: Reference, row: Seq<bool>, request: Range) -> bool {
    &&& is_unresolved(row)
    &&& !r.reference_text@.contains('#')
    &&& r.range.start.line == request.start.line
    &&& r.range.start.character <= request.start.character
    &&& r.range.end.character >= request.end.character
}

/// The positions, in order, of the candidates among the first `n` references.
pub open spec fn candidate_positions(refs: Seq<Reference>, hits: Seq<Vec<bool>>, request: Range, n: int) -> Seq<int>
    decreases n,
{
    if n <= 0 {
        Seq::empty()
    } else if is_candidate(refs[n - 1], hits[n - 1]@, request) {
        candidate_positions(refs, hits, request, n - 1).push(n - 1)
    } else {
        candidate_positions(refs, hits, request, n - 1)
    }
}

/// A quick-fix that creates an empty file, failing if it exists.
#[derive(Clone, Debug, PartialEq, Eq)]
pub struct CreateFileAction {
    pub title: String,
    pub path: String,
}

/// The action that creates the file a reference with target text `text`
/// names, under the vault root `root`.
pub open spec fn action_for(a: CreateFileAction, root: Seq<char>, text: Seq<char>) -> bool {
    &&& a.path@ == root + "/"@ + with_md_extension(text)
    &&& a.title@ == "Create File: \""@ + with_md_extension(text) + "\""@
}

pub(crate) fn md_file_name(t: &str) -> (r: String)
    ensures
        r@ == with_md_extension(t@),
{
    proof {
        reveal_strlit(".");
        reveal_strlit("..");
    }
    let len = t.unicode_len();
    let mut e: usize = len;
    while e > 0 && t.get_char(e - 1) == '/'
        invariant
            len == t@.len(),
            0 <= e <= len,
            trimmed_len(t@, len as int) == trimmed_len(t@, e as int),
        decreases e,
    {
        e = e - 1;
    }
    assert(trimmed_len(t@, e as int) == e);
    let u = t.substring_char(0, e);
    assert(u@ =~= t@.take(e as int));
    let mut cs: usize = e;
    while cs > 0 && u.get_char(cs - 1) != '/'
        invariant
            u@.len() == e,
            0 <= cs <= e,
            component_start(u@, e as int) == component_start(u@, cs as int),
        decreases cs,
    {
        cs = cs - 1;
    }
    assert(component_start(u@, cs as int) == cs);
    let ghost c = u@.skip(cs as int);
    let is_dot = e - cs == 1 && u.get_char(cs) == '.';
    let is_dot_dot = e - cs == 2 && u.get_char(cs) == '.' && u.get_char(cs + 1) == '.';
    if e == cs || is_dot || is_dot_dot {
        proof {
            if is_dot {
                assert(c =~= "."@);
            }
            if is_dot_dot {
                assert(c =~= ".."@);
            }
        }
        return t.to_owned();
    }
    proof {
        assert(c.len() == e - cs);
        if c == "."@ {
            assert("."@.len() == 1 && "."@[0] == '.');
            assert(c[0] == u@[cs as int]);
            assert(false);
        }
        if c == ".."@ {
            assert(".."@.len() == 2 && ".."@[0] == '.' && ".."@[1] == '.');
            assert(c[0] == u@[cs as int]);
            assert(c[1] == u@[cs + 1]);
            assert(false);
        }
    }
    let n = e;
    let mut i: usize = n;
    let mut cut: usize = n;
    let mut done = false;
    while i > 0 && !done
        invariant
            n == u@.len(),
            0 <= i <= n,
            cut <= n,
            done ==> extension_start(u@, n as int) == cut,
            !done ==> cut == n && extension_start(u@, n as int) == extension_start(u@, i as int),
        decreases i + if done { 0int } else { 1int },
    {
        let ch = u.get_char(i - 1);
        if ch == '/' {
            done = true;
        } else if ch == '.' && i - 1 > 0 && u.get_char(i - 2) != '/' {
            cut = i - 1;
            done = true;
        } else {
            i = i - 1;
        }
    }
    if !done {
        assert(extension_start(u@, 0) == n);
    }
    let mut r = u.substring_char(0, cut).to_owned();
    r.append(".md");
    assert(c.len() != 0 && c != "."@ && c != ".."@);
    assert(r@ == u@.take(extension_start(u@, e as int)) + ".md"@);
    r
}

/// The "create file" quick-fixes for a request over the span `request` of
/// one file: one per candidate reference, in order, even where two are
/// alike. `strict_hits` holds the indexer's strict answers for the file's
/// references.
pub fn code_actions(
    root: &str,
    file_refs: &Vec<Reference>,
    strict_hits: &Vec<Vec<bool>>,
    request: Range,
) -> (r: Vec<CreateFileAction>)
    requires
        strict_hits@.len() == file_refs@.len(),
    ensures
        r@.len() == candidate_positions(file_refs@, strict_hits@, request, file_refs@.len() as int).len(),
        forall|a: int|
            0 <= a < r@.len() ==> 0 <= #[trigger] candidate_positions(
                file_refs@,
                strict_hits@,
                request,
                file_refs@.len() as int,
            )[a] < file_refs@.len(),
        forall|a: int|
            0 <= a < r@.len() ==> action_for(
                #[trigger] r@[a],
                root@,
                file_refs@[candidate_positions(
                    file_refs@,
                    strict_hits@,
                    request,
                    file_refs@.len() as int,
                )[a]].reference_text@,
            ),
{
    let mut r: Vec<CreateFileAction> = Vec::new();
    let mut i: usize = 0;
    while i < file_refs.len()
        invariant
            strict_hits@.len() == file_refs@.len(),
            0 <= i <= file_refs@.len(),
            r@.len() == candidate_positions(file_refs@, strict_hits@, request, i as int).len(),
            forall|a: int|
                0 <= a < r@.len() ==> action_for(
                    #[trigger] r@[a],
                    root@,
                    file_refs@[candidate_positions(file_refs@, strict_hits@, request, i as int)[a]].reference_text@,
                ),
            forall|a: int|
                0 <= a < candidate_positions(file_refs@, strict_hits@, request, i as int).len()
                    ==> 0 <= #[trigger] candidate_positions(file_refs@, strict_hits@, request, i as int)[a] < i,
        decreases file_refs@.len() - i,
    {
        let reference = &file_refs[i];
        let text = reference.reference_text.as_str();
        let candidate = row_unresolved(&strict_hits[i]) && !contains_char(text, '#')
            && reference.range.start.line == request.start.line
            && reference.range.start.character <= request.start.character
            && reference.range.end.character >= request.end.character;
        if candidate {
            let name = md_file_name(text);
            let mut path = root.to_owned();
            path.append("/");
            path.append(name.as_str());
            let mut title = "Create File: \"".to_owned();
            title.append(name.as_str());
            title.append("\"");
            r.push(CreateFileAction { title, path });
        }
        i = i + 1;
    }
    r
}

proof fn lemma_candidate_positions(refs: Seq<Reference>, hits: Seq<Vec<bool>>, request: Range, n: int)
    requires
        0 <= n <= refs.len(),
        n <= hits.len(),
    ensures
        forall|a: int|
            0 <= a < candidate_positions(refs, hits, request, n).len() ==> {
                let i = #[trigger] candidate_positions(refs, hits, request, n)[a];
                0 <= i < n && is_candidate(refs[i], hits[i]@, request)
            },
        forall|i: int|
            0 <= i < n && is_candidate(#[trigger] refs[i], hits[i]@, request) ==> candidate_positions(
                refs,
                hits,
                request,
                n,
            ).contains(i),
    decreases n,
{
    if n > 0 {
        lemma_candidate_positions(refs, hits, request, n - 1);
        let prev = candidate_positions(refs, hits, request, n - 1);
        if is_candidate(refs[n - 1], hits[n - 1]@, request) {
            let cur = prev.push(n - 1);
            assert(cur[cur.len() - 1] == n - 1);
            assert forall|i: int|
                0 <= i < n && is_candidate(#[trigger] refs[i], hits[i]@, request) implies cur.contains(i) by {
                if i < n - 1 {
                    let a = choose|a: int| 0 <= a < prev.len() && prev[a] == i;
                    assert(cur[a] == i);
                }
            }
        }
    }
}

/// Quick-fixes are offered exactly for the candidates: a reference whose
/// target text holds `#` (an anchor) is never offered one, whatever the
/// requested span, and every unresolved, anchor-free reference that covers
/// the requested span is.
pub proof fn lemma_offered_exactly_candidates(refs: Seq<Reference>, hits: Seq<Vec<bool>>, request: Range)
    requires
        hits.len() == refs.len(),
    ensures
        forall|a: int|
            0 <= a < candidate_positions(refs, hits, request, refs.len() as int).len() ==> !refs[
                #[trigger] candidate_positions(refs, hits, request, refs.len() as int)[a]
            ].reference_text@.contains('#'),
        forall|i: int|
            0 <= i < refs.len() && is_candidate(#[trigger] refs[i], hits[i]@, request)
                ==> candidate_positions(refs, hits, request, refs.len() as int).contains(i),
{
    lemma_candidate_positions(refs, hits, request, refs.len() as int);
}

/// How many of the first `n` references of `all` stand in the file `path`.
pub open spec fn references_in_file(all: Seq<Reference>, path: Seq<char>, n: int) -> nat
    decreases n,
{
    if n <= 0 {
        0
    } else {
        references_in_file(all, path, n - 1) + if all[n - 1].path@ == path { 1nat } else { 0nat }
    }
}

/// Footnotes are local to their file: the count for a footnote never
/// includes a footnote of another file, so it is at most the number of
/// references in its own file.
pub proof fn lemma_footnote_count_stays_in_file(all: Seq<Reference>, unresolved: Seq<bool>, r: Reference, n: int)
    requires
        r.kind == ReferenceKind::Footnote,
        0 <= n <= all.len(),
        n <= unresolved.len(),
    ensures
        duplicate_count(all, unresolved, r, n) <= references_in_file(all, r.path@, n),
    decreases n,
{
    if n > 0 {
        lemma_footnote_count_stays_in_file(all, unresolved, r, n - 1);
    }
}

/// `all[j]` is an unresolved reference counted with `r`.
pub open spec fn counts_for(all: Seq<Reference>, unresolved: Seq<bool>, r: Reference, j: int) -> bool {
    unresolved[j] && counted_with(r, all[j])
}

proof fn lemma_count_of_three(
    all: Seq<Reference>,
    unresolved: Seq<bool>,
    r: Reference,
    i1: int,
    i2: int,
    i3: int,
    n: int,
)
    requires
        0 <= n <= all.len(),
        unresolved.len() == all.len(),
        forall|j: int|
            0 <= j < all.len() ==> (#[trigger] counts_for(all, unresolved, r, j) <==> (j == i1 || j == i2 || j == i3)),
        0 <= i1 < i2 < i3,
    ensures
        duplicate_count(all, unresolved, r, n) == (if i1 < n { 1int } else { 0int }) + (if i2 < n { 1int } else { 0int })
            + (if i3 < n { 1int } else { 0int }),
    decreases n,
{
    if n > 0 {
        lemma_count_of_three(all, unresolved, r, i1, i2, i3, n - 1);
        assert(counts_for(all, unresolved, r, n - 1) == (n - 1 == i1 || n - 1 == i2 || n - 1 == i3));
    }
}

/// Three unresolved references of one kind and one target text (not
/// footnotes, or footnotes of one file), and no other, are counted three
/// times: each of their diagnostics says "used 3 times".
pub proof fn lemma_three_unresolved_uses(all: Seq<Reference>, unresolved: Seq<bool>, r: Reference, i1: int, i2: int, i3: int)
    requires
        unresolved.len() == all.len(),
        0 <= i1 < i2 < i3 < all.len(),
        forall|j: int|
            0 <= j < all.len() ==> (#[trigger] counts_for(all, unresolved, r, j) <==> (j == i1 || j == i2 || j == i3)),
    ensures
        duplicate_count(all, unresolved, r, all.len() as int) == 3,
        unresolved_message(duplicate_count(all, unresolved, r, all.len() as int))
            == "Unresolved Reference used 3 times"@,
{
    lemma_count_of_three(all, unresolved, r, i1, i2, i3, all.len() as int);
    reveal_strlit("Unresolved Reference used ");
    reveal_strlit(" times");
    reveal_strlit("Unresolved Reference used 3 times");
    assert(decimal(3) =~= seq!['3']);
    assert(unresolved_message(3) =~= "Unresolved Reference used 3 times"@);
}

proof fn lemma_count_of_one(all: Seq<Reference>, unresolved: Seq<bool>, r: Reference, i: int, n: int)
    requires
        0 <= n <= all.len(),
        unresolved.len() == all.len(),
        forall|j: int| 0 <= j < all.len() && j != i ==> !#[trigger] counts_for(all, unresolved, r, j),
    ensures
        duplicate_count(all, unresolved, r, n) <= if i < n { 1int } else { 0int },
    decreases n,
{
    if n > 0 {
        lemma_count_of_one(all, unresolved, r, i, n - 1);
        assert(n - 1 != i ==> !counts_for(all, unresolved, r, n - 1));
    }
}

/// A reference that no other unresolved reference is counted with gets the
/// plain message. In particular a footnote is never counted with a footnote
/// of another file, so a footnote alone in its file is counted once, however
/// many files hold a footnote of the same text.
pub proof fn lemma_lone_unresolved(all: Seq<Reference>, unresolved: Seq<bool>, r: Reference, i: int)
    requires
        unresolved.len() == all.len(),
        0 <= i < all.len(),
        forall|j: int| 0 <= j < all.len() && j != i ==> !#[trigger] counts_for(all, unresolved, r, j),
    ensures
        duplicate_count(all, unresolved, r, all.len() as int) <= 1,
        unresolved_message(duplicate_count(all, unresolved, r, all.len() as int)) == "Unresolved Reference"@,
        forall|j: int|
            0 <= j < all.len() && r.kind == ReferenceKind::Footnote && all[j].path@ != r.path@
                ==> !counted_with(r, #[trigger] all[j]),
{
    lemma_count_of_one(all, unresolved, r, i, all.len() as int);
}

} // verus!

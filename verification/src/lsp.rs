//! Editor-facing computations of the language server: LSP ranges, lint
//! diagnostics, date completions, quick fixes, inlay hints and semantic
//! tokens, over the parsed-document data the server holds.

use crate::domain::{ActionState, Timestamp, instant_in_range};
use crate::text::{decimal, decimal_string};
use crate::vocab::{uuid_string, uuid_text};
use chrono::{Offset, TimeZone};
use vstd::prelude::*;

verus! {

/// A position in a document: zero-based line and character.
#[derive(Clone, Copy, Debug, PartialEq, Eq)]
pub struct Position {
    pub line: u32,
    pub character: u32,
}

/// A range of a document.
#[derive(Clone, Copy, Debug, PartialEq, Eq)]
pub struct Range {
    pub start: Position,
    pub end: Position,
}

/// A source span as the parser records it: zero-based rows and columns.
#[derive(Clone, Copy, Debug, PartialEq, Eq)]
pub struct SourceRange {
    pub start_row: usize,
    pub start_col: usize,
    pub end_row: usize,
    pub end_col: usize,
}

/// The LSP range of a source span; each coordinate is cut to 32 bits as a
/// numeric cast does.
pub open spec fn lsp_range(src: SourceRange) -> Range {
    Range {
        start: Position { line: src.start_row as u32, character: src.start_col as u32 },
        end: Position { line: src.end_row as u32, character: src.end_col as u32 },
    }
}

/// The LSP range of a source span.
pub fn source_range_to_lsp_range(src: SourceRange) -> (r: Range)
    ensures
        r == lsp_range(src),
{
    Range {
        start: Position {
            line: #[verifier::truncate] (src.start_row as u32),
            character: #[verifier::truncate] (src.start_col as u32),
        },
        end: Position {
            line: #[verifier::truncate] (src.end_row as u32),
            character: #[verifier::truncate] (src.end_col as u32),
        },
    }
}

/// Severity of a lint finding.
#[derive(Clone, Copy, Debug, PartialEq, Eq)]
pub enum LintSeverity {
    Error,
    Warning,
    Info,
}

/// Severity of an LSP diagnostic.
#[derive(Clone, Copy, Debug, PartialEq, Eq)]
pub enum DiagnosticSeverity {
    Error,
    Warning,
    Information,
    Hint,
}

/// A lint finding of a document.
#[derive(Clone, Debug)]
pub struct LintDiagnostic {
    pub range: SourceRange,
    pub severity: LintSeverity,
    pub code: String,
    pub message: String,
}

/// An LSP diagnostic.
#[derive(Clone, Debug)]
pub struct Diagnostic {
    pub range: Range,
    pub severity: Option<DiagnosticSeverity>,
    pub code: Option<String>,
    pub source: Option<String>,
    pub message: String,
}

/// The LSP severity of a lint severity.
pub open spec fn severity_of(s: LintSeverity) -> DiagnosticSeverity {
    match s {
        LintSeverity::Error => DiagnosticSeverity::Error,
        LintSeverity::Warning => DiagnosticSeverity::Warning,
        LintSeverity::Info => DiagnosticSeverity::Information,
    }
}

fn lint_severity_to_lsp(s: LintSeverity) -> (r: DiagnosticSeverity)
    ensures
        r == severity_of(s),
{
    match s {
        LintSeverity::Error => DiagnosticSeverity::Error,
        LintSeverity::Warning => DiagnosticSeverity::Warning,
        LintSeverity::Info => DiagnosticSeverity::Information,
    }
}

/// Whether `d` is the diagnostic of the lint finding `l`: same range (as LSP
/// range), mapped severity, the lint code, source `clearhead-lsp`, and the
/// lint message.
pub open spec fn diagnostic_of(l: LintDiagnostic, d: Diagnostic) -> bool {
    &&& d.range == lsp_range(l.range)
    &&& d.severity == Some(severity_of(l.severity))
    &&& d.code matches Some(c) && c@ == l.code@
    &&& d.source matches Some(s) && s@ == "clearhead-lsp"@
    &&& d.message@ == l.message@
}

/// The LSP diagnostic of a lint finding.
pub fn lint_diagnostic_to_lsp(l: LintDiagnostic) -> (d: Diagnostic)
    ensures
        diagnostic_of(l, d),
{
    let ghost lv = l;
    Diagnostic {
        range: source_range_to_lsp_range(l.range),
        severity: Some(lint_severity_to_lsp(l.severity)),
        code: Some(l.code),
        source: Some(String::from_str("clearhead-lsp")),
        message: l.message,
    }
}

/// The LSP diagnostics of a document's lint findings, one per finding, in
/// order.
pub fn compute_diagnostics(lints: Vec<LintDiagnostic>) -> (r: Vec<Diagnostic>)
    ensures
        r@.len() == lints@.len(),
        forall|i: int| 0 <= i < lints@.len() ==> diagnostic_of(lints@[i], #[trigger] r@[i]),
{
    let ghost orig = lints@;
    let n = lints.len();
    let mut rest = lints;
    let mut out: Vec<Diagnostic> = Vec::new();
    while rest.len() > 0
        invariant
            out@.len() + rest@.len() == n,
            orig.len() == n,
            rest@ == orig.subrange(out@.len() as int, n as int),
            forall|i: int| 0 <= i < out@.len() ==> diagnostic_of(orig[i], #[trigger] out@[i]),
        decreases rest@.len(),
    {
        let ghost k = out@.len();
        let l = rest.remove(0);
        assert(l == orig[k as int]);
        let d = lint_diagnostic_to_lsp(l);
        out.push(d);
        assert(rest@ =~= orig.subrange(out@.len() as int, n as int));
    }
    out
}

/// Which text a completion date pattern writes.
#[derive(Clone, Copy, Debug, PartialEq, Eq)]
pub enum DatePattern {
    /// `%Y-%m-%dT%H:%M`
    Minute,
    /// `%Y-%m-%d`
    Day,
}

/// The text chrono's `format` writes for the instant `secs`/`nanos` shown at
/// UTC offset `offset` seconds with the pattern, or `None` where chrono
/// cannot represent that instant or offset.
pub uninterp spec fn formatted_text(secs: i64, nanos: u32, offset: i32, pattern: DatePattern) -> Option<Seq<char>>;

/// Calls `DateTime::from_timestamp`, `FixedOffset::east_opt`,
/// `DateTime::with_timezone` and `DateTime::format` with the pattern. With
/// less than a second of nanoseconds it succeeds exactly when the instant is
/// within chrono's range and the offset is less than a day either way.
#[verifier::external_body]
pub fn format_instant(secs: i64, nanos: u32, offset: i32, pattern: DatePattern) -> (r: Option<String>)
    ensures
        r is Some ==> nanos >= 1_000_000_000 || (instant_in_range(secs) && -86400 < offset < 86400),
        r is None ==> nanos >= 1_000_000_000 || !instant_in_range(secs) || !(-86400 < offset < 86400),
        r matches Some(s) ==> formatted_text(secs, nanos, offset, pattern) == Some(s@),
        r is None ==> formatted_text(secs, nanos, offset, pattern) is None,
{
    let p = match pattern {
        DatePattern::Minute => "%Y-%m-%dT%H:%M",
        DatePattern::Day => "%Y-%m-%d",
    };
    chrono::DateTime::from_timestamp(secs, nanos).zip(chrono::FixedOffset::east_opt(offset)).map(
        |(d, o)| d.with_timezone(&o).format(p).to_string(),
    )
}

/// Calls `Local::timestamp_opt` and `Offset::local_minus_utc`: the machine's
/// local UTC offset at the instant `secs`. `timestamp_opt` gives one local
/// time exactly when `DateTime::from_timestamp` accepts the instant, and a
/// fixed offset is less than a day either way; which offset it is depends on
/// the machine's time zone and is not stated here.
#[verifier::external_body]
pub fn local_offset_at(secs: i64) -> (r: Option<i32>)
    ensures
        r is Some <==> instant_in_range(secs),
        r matches Some(o) ==> -86400 < o < 86400,
{
    chrono::Local.timestamp_opt(secs, 0).single().map(|d| d.offset().fix().local_minus_utc())
}

/// The kind of a completion item.
#[derive(Clone, Copy, Debug, PartialEq, Eq)]
pub enum CompletionItemKind {
    Value,
}

/// A completion item.
#[derive(Clone, Debug)]
pub struct CompletionItem {
    pub label: String,
    pub kind: Option<CompletionItemKind>,
    pub detail: Option<String>,
    pub insert_text: Option<String>,
}

/// Whether `item` offers `label` as a value, with detail `detail`.
pub open spec fn offers(item: CompletionItem, label: Seq<char>, detail: Seq<char>) -> bool {
    &&& item.label@ == label
    &&& item.kind == Some(CompletionItemKind::Value)
    &&& item.detail matches Some(d) && d@ == detail
    &&& item.insert_text matches Some(t) && t@ == label
}

fn make_item(label: String, detail: &str) -> (item: CompletionItem)
    ensures
        offers(item, label@, detail@),
{
    CompletionItem {
        label: label.clone(),
        kind: Some(CompletionItemKind::Value),
        detail: Some(String::from_str(detail)),
        insert_text: Some(label),
    }
}

/// The date completions at `now`: the current minute (`Now`), today's date
/// (`Today`) and tomorrow's date (`Tomorrow`, one day later, shown at the
/// machine's local offset for that instant). `None` exactly where the day
/// after `now` lies beyond chrono's range.
pub fn date_completion_items(now: &Timestamp) -> (r: Option<Vec<CompletionItem>>)
    ensures
        r matches Some(items) ==> items@.len() == 3 && exists|off: i32|
            #![trigger formatted_text((now.secs_view() + 86400) as i64, now.nanos_view(), off, DatePattern::Day)]
            {
                &&& formatted_text(now.secs_view(), now.nanos_view(), now.offset_view(), DatePattern::Minute)
                    matches Some(t0) && offers(items@[0], t0, "Now"@)
                &&& formatted_text(now.secs_view(), now.nanos_view(), now.offset_view(), DatePattern::Day)
                    matches Some(t1) && offers(items@[1], t1, "Today"@)
                &&& now.secs_view() + 86400 <= i64::MAX
                &&& formatted_text((now.secs_view() + 86400) as i64, now.nanos_view(), off, DatePattern::Day)
                    matches Some(t2) && offers(items@[2], t2, "Tomorrow"@)
            },
        r is Some <==> now.secs_view() + 86400 <= i64::MAX && instant_in_range(
            (now.secs_view() + 86400) as i64,
        ),
{
    let secs = now.secs();
    let nanos = now.nanos();
    let offset = now.offset();
    let t0 = format_instant(secs, nanos, offset, DatePattern::Minute)?;
    let t1 = format_instant(secs, nanos, offset, DatePattern::Day)?;
    let next = secs.checked_add(86400)?;
    let off = local_offset_at(next)?;
    let t2 = format_instant(next, nanos, off, DatePattern::Day)?;
    let mut items: Vec<CompletionItem> = Vec::new();
    items.push(make_item(t0, "Now"));
    items.push(make_item(t1, "Today"));
    items.push(make_item(t2, "Tomorrow"));
    assert(formatted_text((now.secs_view() + 86400) as i64, now.nanos_view(), off, DatePattern::Day) == Some(items@[2].label@));
    Some(items)
}

/// Where the parser found an action: its whole span, its first line, whether
/// its UUID was generated (absent from the text), and the spans of its do
/// date and completion date.
#[derive(Clone, Copy, Debug)]
pub struct SourceMeta {
    pub root: SourceRange,
    pub line_range: SourceRange,
    pub is_id_generated: bool,
    pub do_date: Option<SourceRange>,
    pub completed_date: Option<SourceRange>,
}

/// What the editor features read of a parsed action: its state, its do and
/// completion dates, and where it was found (when the parser recorded it).
#[derive(Clone, Copy, Debug)]
pub struct DocumentAction {
    pub state: ActionState,
    pub scheduled_at: Option<Timestamp>,
    pub completed_at: Option<Timestamp>,
    pub source: Option<SourceMeta>,
}

/// A parsed document's actions, in document order.
#[derive(Clone, Debug)]
pub struct ParsedDocument {
    pub actions: Vec<DocumentAction>,
}

/// A text edit.
#[derive(Clone, Debug)]
pub struct TextEdit {
    pub range: Range,
    pub new_text: String,
}

/// The kind of a code action.
#[derive(Clone, Copy, Debug, PartialEq, Eq)]
pub enum CodeActionKind {
    QuickFix,
}

/// A code action with its workspace edit: for each document, its edits.
#[derive(Clone, Debug)]
pub struct CodeAction {
    pub title: String,
    pub kind: Option<CodeActionKind>,
    pub changes: Vec<(String, Vec<TextEdit>)>,
}

/// The quick fixes the server offers.
#[derive(Clone, Copy, Debug, PartialEq, Eq)]
pub enum Fix {
    /// Add a fresh UUID to an action whose UUID was generated.
    Hydrate,
    /// Add the current time as completion date to a completed action.
    CompletionDate,
}

/// Whether the request range and the action's span share a line.
pub open spec fn overlaps(range: Range, span: SourceRange) -> bool {
    range.start.line <= lsp_range(span).end.line && range.end.line >= lsp_range(span).start.line
}

/// The fixes offered for one action, with the position they insert at (the
/// end of the action's first line).
pub open spec fn action_fixes(a: DocumentAction, range: Range) -> Seq<(Fix, Position)> {
    match a.source {
        Some(meta) => if overlaps(range, meta.root) {
            let pos = lsp_range(meta.line_range).end;
            (if meta.is_id_generated { seq![(Fix::Hydrate, pos)] } else { Seq::empty() }) + (if a.state
                == ActionState::Completed && a.completed_at is None {
                seq![(Fix::CompletionDate, pos)]
            } else {
                Seq::empty()
            })
        } else {
            Seq::empty()
        },
        None => Seq::empty(),
    }
}

/// The fixes offered for the actions, in document order.
pub open spec fn planned_fixes(acts: Seq<DocumentAction>, range: Range) -> Seq<(Fix, Position)>
    decreases acts.len(),
{
    if acts.len() == 0 {
        Seq::empty()
    } else {
        planned_fixes(acts.drop_last(), range) + action_fixes(acts.last(), range)
    }
}

/// The title of a fix.
pub open spec fn fix_title(f: Fix) -> Seq<char> {
    match f {
        Fix::Hydrate => "Hydrate Action (Add UUID)"@,
        Fix::CompletionDate => "Set Completion Date (Today)"@,
    }
}

/// Whether `secs`/`nanos`/`offset` can be a reading of the local clock: less
/// than a second of nanoseconds, an instant within chrono's range, and a UTC
/// offset of less than a day either way.
pub open spec fn clock_reading(secs: i64, nanos: u32, offset: i32) -> bool {
    nanos < 1_000_000_000 && instant_in_range(secs) && -86400 < offset < 86400
}

/// Whether `text` is what the fix inserts: ` #` and a UUID, or ` %` and a
/// clock reading written as `%Y-%m-%dT%H:%M` in local time.
pub open spec fn fix_text(f: Fix, text: Seq<char>) -> bool {
    match f {
        Fix::Hydrate => exists|id: u128| text == " #"@ + uuid_text(id),
        Fix::CompletionDate => exists|secs: i64, nanos: u32, offset: i32|
            clock_reading(secs, nanos, offset) && (#[trigger] formatted_text(secs, nanos, offset, DatePattern::Minute)
                matches Some(t) && text == " %"@ + t),
    }
}

/// Whether `c` is the quick fix `f` inserting at `pos` in document `uri`.
pub open spec fn is_quick_fix(c: CodeAction, f: Fix, pos: Position, uri: Seq<char>) -> bool {
    &&& c.title@ == fix_title(f)
    &&& c.kind == Some(CodeActionKind::QuickFix)
    &&& c.changes@.len() == 1
    &&& c.changes@[0].0@ == uri
    &&& c.changes@[0].1@.len() == 1
    &&& c.changes@[0].1@[0].range == (Range { start: pos, end: pos })
    &&& fix_text(f, c.changes@[0].1@[0].new_text@)
}

/// The fixes offered for a document's actions that share a line with
/// `range`, in document order.
pub fn plan_code_actions(doc: &ParsedDocument, range: Range) -> (r: Vec<(Fix, Position)>)
    ensures
        r@ == planned_fixes(doc.actions@, range),
{
    let acts = &doc.actions;
    let mut out: Vec<(Fix, Position)> = Vec::new();
    let mut i: usize = 0;
    while i < acts.len()
        invariant
            acts == &doc.actions,
            i <= acts@.len(),
            out@ == planned_fixes(acts@.subrange(0, i as int), range),
        decreases acts@.len() - i,
    {
        assert(acts@.subrange(0, i + 1).drop_last() =~= acts@.subrange(0, i as int));
        assert(acts@.subrange(0, i + 1).last() == acts@[i as int]);
        let a = acts[i];
        let ghost before = out@;
        match a.source {
            Some(meta) => {
                let ar = source_range_to_lsp_range(meta.root);
                if range.start.line <= ar.end.line && range.end.line >= ar.start.line {
                    let pos = source_range_to_lsp_range(meta.line_range).end;
                    if meta.is_id_generated {
                        out.push((Fix::Hydrate, pos));
                    }
                    let completed = match a.state {
                        ActionState::Completed => true,
                        _ => false,
                    };
                    if completed && a.completed_at.is_none() {
                        out.push((Fix::CompletionDate, pos));
                    }
                }
            },
            None => {},
        }
        assert(out@ =~= before + action_fixes(a, range));
        i = i + 1;
    }
    assert(acts@.subrange(0, acts@.len() as int) =~= acts@);
    out
}

/// Calls `Uuid::now_v7`: a fresh time-ordered UUID; which one is not stated.
#[verifier::external_body]
pub fn uuid_now_v7() -> (r: u128) {
    uuid::Uuid::now_v7().as_u128()
}

fn create_quick_fix(uri: &str, f: Fix, pos: Position) -> (c: CodeAction)
    ensures
        is_quick_fix(c, f, pos, uri@),
{
    let (text, title) = match f {
        Fix::Hydrate => {
            let id = uuid_now_v7();
            let mut t = String::from_str(" #");
            let u = uuid_string(id);
            t.append(u.as_str());
            assert(t@ == " #"@ + uuid_text(id));
            (t, "Hydrate Action (Add UUID)")
        },
        Fix::CompletionDate => {
            let (secs, nanos, offset) = local_now();
            let stamp = match format_instant(secs, nanos, offset, DatePattern::Minute) {
                Some(x) => x,
                None => String::new(),
            };
            let mut t = String::from_str(" %");
            t.append(stamp.as_str());
            assert(formatted_text(secs, nanos, offset, DatePattern::Minute) == Some(stamp@));
            (t, "Set Completion Date (Today)")
        },
    };
    assert(fix_text(f, text@));
    let mut edits: Vec<TextEdit> = Vec::new();
    edits.push(TextEdit { range: Range { start: pos, end: pos }, new_text: text });
    let mut changes: Vec<(String, Vec<TextEdit>)> = Vec::new();
    changes.push((String::from_str(uri), edits));
    CodeAction { title: String::from_str(title), kind: Some(CodeActionKind::QuickFix), changes }
}

/// The quick fixes for the actions of the document that share a line with
/// `range`, in document order: adding a UUID to an action whose UUID was
/// generated, and adding the current time as completion date to a completed
/// action without one; each inserts at the end of the action's first line.
pub fn compute_code_actions(doc: &ParsedDocument, uri: &str, range: Range) -> (r: Vec<CodeAction>)
    ensures
        r@.len() == planned_fixes(doc.actions@, range).len(),
        forall|i: int|
            0 <= i < r@.len() ==> is_quick_fix(
                #[trigger] r@[i],
                planned_fixes(doc.actions@, range)[i].0,
                planned_fixes(doc.actions@, range)[i].1,
                uri@,
            ),
{
    let plan = plan_code_actions(doc, range);
    let mut out: Vec<CodeAction> = Vec::new();
    let mut i: usize = 0;
    while i < plan.len()
        invariant
            plan@ == planned_fixes(doc.actions@, range),
            i <= plan@.len(),
            out@.len() == i,
            forall|k: int| 0 <= k < i ==> is_quick_fix(#[trigger] out@[k], plan@[k].0, plan@[k].1, uri@),
        decreases plan@.len() - i,
    {
        let (f, pos) = plan[i];
        let c = create_quick_fix(uri, f, pos);
        out.push(c);
        i = i + 1;
    }
    out
}

/// The kind of an inlay hint.
#[derive(Clone, Copy, Debug, PartialEq, Eq)]
pub enum InlayHintKind {
    Type,
    Parameter,
}

/// An inlay hint.
#[derive(Clone, Debug)]
pub struct InlayHint {
    pub position: Position,
    pub label: String,
    pub kind: Option<InlayHintKind>,
    pub padding_left: Option<bool>,
    pub padding_right: Option<bool>,
}

/// Nanoseconds from `b` to `a`.
pub open spec fn nanos_between(a: Timestamp, b: Timestamp) -> int {
    (a.secs_view() - b.secs_view()) * 1_000_000_000 + (a.nanos_view() - b.nanos_view())
}

/// Whole days in `d` nanoseconds, rounded toward zero (whole seconds first,
/// as chrono's `TimeDelta::num_days` counts them).
pub open spec fn whole_days(d: int) -> int {
    if d >= 0 {
        d / 1_000_000_000 / 86400
    } else {
        -((-d) / 1_000_000_000 / 86400)
    }
}

/// The decimal text of an integer, with `-` before a negative one.
pub open spec fn signed_decimal(n: int) -> Seq<char> {
    if n < 0 {
        "-"@ + decimal((-n) as nat)
    } else {
        decimal(n as nat)
    }
}

/// The label of a do-date hint `n` whole days away.
pub open spec fn due_label(n: int) -> Seq<char> {
    if n > 0 {
        " (due in "@ + decimal(n as nat) + "d)"@
    } else if n < 0 {
        " ("@ + decimal((-n) as nat) + "d ago)"@
    } else {
        " (due today)"@
    }
}

/// The label of a completion-date hint `n` whole days ago.
pub open spec fn done_label(n: int) -> Seq<char> {
    " (done "@ + signed_decimal(n) + "d ago)"@
}

/// The hints of one action at time `now`: its do date (days until it),
/// then its completion date (days since), where the action has both the date
/// and its source span.
pub open spec fn action_hints(a: DocumentAction, now: Timestamp) -> Seq<(Position, Seq<char>)> {
    match a.source {
        Some(meta) => (match (a.scheduled_at, meta.do_date) {
            (Some(dt), Some(rg)) => seq![(lsp_range(rg).end, due_label(whole_days(nanos_between(dt, now))))],
            _ => Seq::empty(),
        }) + (match (a.completed_at, meta.completed_date) {
            (Some(dt), Some(rg)) => seq![(lsp_range(rg).end, done_label(whole_days(nanos_between(now, dt))))],
            _ => Seq::empty(),
        }),
        None => Seq::empty(),
    }
}

/// The hints of the actions at time `now`, in document order.
pub open spec fn document_hints(acts: Seq<DocumentAction>, now: Timestamp) -> Seq<(Position, Seq<char>)>
    decreases acts.len(),
{
    if acts.len() == 0 {
        Seq::empty()
    } else {
        document_hints(acts.drop_last(), now) + action_hints(acts.last(), now)
    }
}

/// Whether `h` is a parameter hint with padding on its left only, at `pos`
/// with label `label`.
pub open spec fn is_hint(h: InlayHint, pos: Position, label: Seq<char>) -> bool {
    &&& h.position == pos
    &&& h.label@ == label
    &&& h.kind == Some(InlayHintKind::Parameter)
    &&& h.padding_left == Some(true)
    &&& h.padding_right == Some(false)
}

fn days_from(a: &Timestamp, b: &Timestamp) -> (r: (bool, u64))
    ensures
        whole_days(nanos_between(*a, *b)) == if r.0 { -(r.1 as int) } else { r.1 as int },
        r.0 ==> r.1 > 0,
{
    let sa = a.secs();
    let sb = b.secs();
    let na = a.nanos();
    let nb = b.nanos();
    let d: i128 = (sa as i128 - sb as i128) * 1_000_000_000 + (na as i128 - nb as i128);
    assert(d == nanos_between(*a, *b));
    if d >= 0 {
        let m = d as u128;
        let days = m / 1_000_000_000 / 86400;
        assert(days <= u64::MAX) by (nonlinear_arith)
            requires
                days == m / 1_000_000_000 / 86400,
                m < 0x1_0000_0000_0000_0000_0000_0000,
        ;
        (false, days as u64)
    } else {
        let m = (-d) as u128;
        let days = m / 1_000_000_000 / 86400;
        assert(days <= u64::MAX) by (nonlinear_arith)
            requires
                days == m / 1_000_000_000 / 86400,
                m < 0x1_0000_0000_0000_0000_0000_0000,
        ;
        (days > 0, days as u64)
    }
}

fn label_text(parts: (&str, String, &str)) -> (r: String)
    ensures
        r@ == parts.0@ + parts.1@ + parts.2@,
{
    let mut s = String::from_str(parts.0);
    s.append(parts.1.as_str());
    s.append(parts.2);
    s
}

fn due_label_text(a: &Timestamp, now: &Timestamp) -> (r: String)
    ensures
        r@ == due_label(whole_days(nanos_between(*a, *now))),
{
    let (neg, n) = days_from(a, now);
    if neg {
        label_text((" (", decimal_string(n), "d ago)"))
    } else if n > 0 {
        label_text((" (due in ", decimal_string(n), "d)"))
    } else {
        String::from_str(" (due today)")
    }
}

fn done_label_text(now: &Timestamp, dt: &Timestamp) -> (r: String)
    ensures
        r@ == done_label(whole_days(nanos_between(*now, *dt))),
{
    let (neg, n) = days_from(now, dt);
    let num = if neg {
        let mut s = String::from_str("-");
        let d = decimal_string(n);
        s.append(d.as_str());
        s
    } else {
        decimal_string(n)
    };
    assert(num@ == signed_decimal(whole_days(nanos_between(*now, *dt))));
    label_text((" (done ", num, "d ago)"))
}

fn hint(pos: Position, label: String) -> (h: InlayHint)
    ensures
        is_hint(h, pos, label@),
{
    InlayHint {
        position: pos,
        label,
        kind: Some(InlayHintKind::Parameter),
        padding_left: Some(true),
        padding_right: Some(false),
    }
}

/// The inlay hints of the document at time `now`: for each action with a do
/// date, the whole days until it (`due in`, `ago`, or `due today`); for each
/// with a completion date, the whole days since (`done ... ago`); each at the
/// end of the date's span.
pub fn inlay_hints_at(doc: &ParsedDocument, now: &Timestamp) -> (r: Vec<InlayHint>)
    ensures
        r@.len() == document_hints(doc.actions@, *now).len(),
        forall|i: int|
            0 <= i < r@.len() ==> is_hint(
                #[trigger] r@[i],
                document_hints(doc.actions@, *now)[i].0,
                document_hints(doc.actions@, *now)[i].1,
            ),
{
    let acts = &doc.actions;
    let mut out: Vec<InlayHint> = Vec::new();
    let ghost mut want: Seq<(Position, Seq<char>)> = Seq::empty();
    let mut i: usize = 0;
    while i < acts.len()
        invariant
            acts == &doc.actions,
            i <= acts@.len(),
            want == document_hints(acts@.subrange(0, i as int), *now),
            out@.len() == want.len(),
            forall|k: int| 0 <= k < out@.len() ==> is_hint(#[trigger] out@[k], want[k].0, want[k].1),
        decreases acts@.len() - i,
    {
        assert(acts@.subrange(0, i + 1).drop_last() =~= acts@.subrange(0, i as int));
        assert(acts@.subrange(0, i + 1).last() == acts@[i as int]);
        let a = acts[i];
        let ghost before = want;
        match a.source {
            Some(meta) => {
                match (a.scheduled_at, meta.do_date) {
                    (Some(dt), Some(rg)) => {
                        let label = due_label_text(&dt, now);
                        out.push(hint(source_range_to_lsp_range(rg).end, label));
                        proof {
                            want = want.push((lsp_range(rg).end, due_label(whole_days(nanos_between(dt, *now)))));
                        }
                    },
                    _ => {},
                }
                match (a.completed_at, meta.completed_date) {
                    (Some(dt), Some(rg)) => {
                        let label = done_label_text(now, &dt);
                        out.push(hint(source_range_to_lsp_range(rg).end, label));
                        proof {
                            want = want.push((lsp_range(rg).end, done_label(whole_days(nanos_between(*now, dt)))));
                        }
                    },
                    _ => {},
                }
            },
            None => {},
        }
        assert(want =~= before + action_hints(a, *now));
        assert(want == document_hints(acts@.subrange(0, i + 1), *now));
        i = i + 1;
    }
    assert(acts@.subrange(0, acts@.len() as int) =~= acts@);
    out
}

/// Calls `Local::now`: the current instant as seconds, nanoseconds and the
/// local UTC offset. `Utc::now` builds the instant with
/// `DateTime::from_timestamp` from the system time (less than a second of
/// nanoseconds, and it panics outside chrono's range), and a fixed offset is
/// less than a day either way; which instant it is depends on the clock.
#[verifier::external_body]
pub fn local_now() -> (r: (i64, u32, i32))
    ensures
        clock_reading(r.0, r.1, r.2),
{
    let now = chrono::Local::now();
    (now.timestamp(), now.timestamp_subsec_nanos(), now.offset().fix().local_minus_utc())
}

/// The inlay hints of the document at `base_time`, or at the current local
/// time when none is given.
pub fn compute_inlay_hints(doc: &ParsedDocument, base_time: Option<Timestamp>) -> (r: Vec<InlayHint>)
    ensures
        base_time matches Some(now) ==> r@.len() == document_hints(doc.actions@, now).len() && forall|i: int|
            0 <= i < r@.len() ==> is_hint(
                #[trigger] r@[i],
                document_hints(doc.actions@, now)[i].0,
                document_hints(doc.actions@, now)[i].1,
            ),
        base_time is None ==> exists|now: Timestamp|
            r@.len() == document_hints(doc.actions@, now).len() && forall|i: int|
                0 <= i < r@.len() ==> is_hint(
                    #[trigger] r@[i],
                    document_hints(doc.actions@, now)[i].0,
                    document_hints(doc.actions@, now)[i].1,
                ),
{
    match base_time {
        Some(now) => inlay_hints_at(doc, &now),
        None => {
            let (secs, nanos, offset) = local_now();
            match Timestamp::new(secs, nanos, offset) {
                Some(now) => inlay_hints_at(doc, &now),
                None => Vec::new(),
            }
        },
    }
}

/// A semantic token (LSP relative encoding).
#[derive(Clone, Copy, Debug, PartialEq, Eq)]
pub struct SemanticToken {
    pub delta_line: u32,
    pub delta_start: u32,
    pub length: u32,
    pub token_type: u32,
    pub token_modifiers_bitset: u32,
}

#[verifier::external_type_specification]
#[verifier::external_body]
pub struct ExTree(tree_sitter::Tree);

/// Semantic tokens are deliberately empty: the tree-sitter grammar owns
/// syntax highlighting, and tokens are reserved for meaning the grammar
/// cannot compute.
pub fn compute_semantic_tokens(tree: &tree_sitter::Tree) -> (r: Vec<SemanticToken>)
    ensures
        r@.len() == 0,
{
    Vec::new()
}

#[verifier::external_type_specification]
#[verifier::external_body]
pub struct ExNode<'tree>(tree_sitter::Node<'tree>);

/// Calls `Node::named_descendant_for_point_range` on the tree's root with the
/// point of the position as both ends: the smallest named node spanning it.
#[verifier::external_body]
pub fn get_node_at_position(tree: &tree_sitter::Tree, position: Position) -> (r: Option<tree_sitter::Node<'_>>) {
    let point = tree_sitter::Point::new(position.line as usize, position.character as usize);
    tree.root_node().named_descendant_for_point_range(point, point)
}

} // verus!

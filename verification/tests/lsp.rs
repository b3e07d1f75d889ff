use chrono::{DateTime, Offset, TimeZone};
use clearhead::domain::{ActionState, Timestamp};
use clearhead::lsp::{
    DiagnosticSeverity, DocumentAction, LintDiagnostic, LintSeverity, ParsedDocument, Position, Range,
    SourceMeta, SourceRange, compute_code_actions, compute_diagnostics, compute_inlay_hints,
    date_completion_items, source_range_to_lsp_range,
};

fn ts(dt: DateTime<chrono::Local>) -> Timestamp {
    Timestamp::new(dt.timestamp(), dt.timestamp_subsec_nanos(), dt.offset().fix().local_minus_utc()).unwrap()
}

fn local_minute(y: i32, mo: u32, d: u32, h: u32, mi: u32) -> Timestamp {
    ts(chrono::Local.with_ymd_and_hms(y, mo, d, h, mi, 0).unwrap())
}

fn rfc3339(s: &str) -> Timestamp {
    ts(DateTime::parse_from_rfc3339(s).unwrap().with_timezone(&chrono::Local))
}

fn span(row: usize, start: usize, end: usize) -> SourceRange {
    SourceRange { start_row: row, start_col: start, end_row: row, end_col: end }
}

fn line_action(text_len: usize, state: ActionState, generated_id: bool) -> DocumentAction {
    DocumentAction {
        state,
        scheduled_at: None,
        completed_at: None,
        source: Some(SourceMeta {
            root: span(0, 0, text_len),
            line_range: span(0, 0, text_len),
            is_id_generated: generated_id,
            do_date: None,
            completed_date: None,
        }),
    }
}

fn titles(doc: &ParsedDocument, range: Range) -> Vec<String> {
    compute_code_actions(doc, "file:///test.actions", range).into_iter().map(|c| c.title).collect()
}

fn origin() -> Range {
    Range { start: Position { line: 0, character: 0 }, end: Position { line: 0, character: 0 } }
}

#[test]
fn test_lsp_adapter_converts_diagnostics() {
    let lints = vec![LintDiagnostic {
        range: span(0, 0, 25),
        severity: LintSeverity::Warning,
        code: "missing-id".to_string(),
        message: "Action has no UUID".to_string(),
    }];
    let diagnostics = compute_diagnostics(lints);
    assert_eq!(diagnostics.len(), 1);
    assert!(diagnostics.iter().all(|d| d.source == Some("clearhead-lsp".to_string())));
    assert!(diagnostics.iter().all(|d| d.code.is_some()));
    assert_eq!(diagnostics[0].severity, Some(DiagnosticSeverity::Warning));
    assert_eq!(diagnostics[0].range.end.character, 25);
}

#[test]
fn test_date_completion_items() {
    let now = local_minute(2026, 1, 15, 10, 30);
    let items = date_completion_items(&now).expect("items");
    let labels: Vec<_> = items.iter().map(|i| i.label.as_str()).collect();
    let details: Vec<_> = items.iter().filter_map(|i| i.detail.as_deref()).collect();
    assert_eq!(labels, vec!["2026-01-15T10:30", "2026-01-15", "2026-01-16"]);
    assert_eq!(details, vec!["Now", "Today", "Tomorrow"]);
}

#[test]
fn test_code_actions_hydrate_uuid() {
    let doc = ParsedDocument { actions: vec![line_action(19, ActionState::NotStarted, true)] };
    let t = titles(&doc, origin());
    assert!(t.contains(&"Hydrate Action (Add UUID)".to_string()), "Expected hydrate action, got: {:?}", t);
}

#[test]
fn test_code_actions_completion_date() {
    let doc = ParsedDocument { actions: vec![line_action(56, ActionState::Completed, false)] };
    let t = titles(&doc, origin());
    assert!(
        t.contains(&"Set Completion Date (Today)".to_string()),
        "Expected completion date action, got: {:?}",
        t
    );
}

#[test]
fn test_code_actions_cursor_outside_action() {
    let doc = ParsedDocument { actions: vec![line_action(18, ActionState::NotStarted, true)] };
    let range = Range { start: Position { line: 5, character: 0 }, end: Position { line: 5, character: 0 } };
    let actions = compute_code_actions(&doc, "file:///test.actions", range);
    assert!(actions.is_empty(), "Expected no actions when cursor is outside, got: {:?}", actions.len());
}

#[test]
fn test_code_actions_completed_with_date_no_suggestion() {
    let mut action = line_action(70, ActionState::Completed, false);
    action.completed_at = Some(local_minute(2026, 1, 15, 10, 0));
    let doc = ParsedDocument { actions: vec![action] };
    let t = titles(&doc, origin());
    assert!(
        !t.contains(&"Set Completion Date (Today)".to_string()),
        "Should not suggest completion date when already present"
    );
}

#[test]
fn hydrate_fix_inserts_a_uuid_at_the_line_end() {
    let doc = ParsedDocument { actions: vec![line_action(19, ActionState::NotStarted, true)] };
    let fixes = compute_code_actions(&doc, "file:///test.actions", origin());
    assert_eq!(fixes.len(), 1);
    let (uri, edits) = &fixes[0].changes[0];
    assert_eq!(uri, "file:///test.actions");
    assert_eq!(edits[0].range.start, Position { line: 0, character: 19 });
    assert!(edits[0].new_text.starts_with(" #"));
    assert!(uuid::Uuid::parse_str(&edits[0].new_text[2..]).is_ok());
}

fn dated(scheduled: Option<Timestamp>, completed: Option<Timestamp>) -> ParsedDocument {
    let mut action = line_action(70, ActionState::NotStarted, false);
    action.scheduled_at = scheduled;
    action.completed_at = completed;
    if let Some(meta) = action.source.as_mut() {
        meta.do_date = scheduled.map(|_| span(0, 17, 33));
        meta.completed_date = completed.map(|_| span(0, 14, 30));
    }
    ParsedDocument { actions: vec![action] }
}

#[test]
fn test_inlay_hints_due_in_future() {
    let doc = dated(Some(local_minute(2026, 1, 20, 10, 0)), None);
    let hints = compute_inlay_hints(&doc, Some(rfc3339("2026-01-15T10:00:00+00:00")));
    assert_eq!(hints.len(), 1);
    assert!(hints[0].label.contains("due in"), "Expected 'due in', got: {}", hints[0].label);
}

#[test]
fn test_inlay_hints_due_in_past() {
    let doc = dated(Some(local_minute(2026, 1, 10, 10, 0)), None);
    let hints = compute_inlay_hints(&doc, Some(rfc3339("2026-01-15T10:00:00+00:00")));
    assert_eq!(hints.len(), 1);
    assert!(hints[0].label.contains("ago"), "Expected 'ago', got: {}", hints[0].label);
}

#[test]
fn test_inlay_hints_due_today() {
    let doc = dated(Some(rfc3339("2026-01-15T10:00:00+00:00")), None);
    let hints = compute_inlay_hints(&doc, Some(rfc3339("2026-01-15T12:00:00+00:00")));
    assert_eq!(hints.len(), 1);
    assert!(hints[0].label.contains("due today"), "Expected 'due today', got: {}", hints[0].label);
}

#[test]
fn test_inlay_hints_completed_date() {
    let mut doc = dated(None, Some(local_minute(2026, 1, 10, 10, 0)));
    doc.actions[0].state = ActionState::Completed;
    let hints = compute_inlay_hints(&doc, Some(rfc3339("2026-01-15T10:00:00+00:00")));
    assert_eq!(hints.len(), 1);
    assert!(
        hints[0].label.contains("done") && hints[0].label.contains("ago"),
        "Expected 'done X ago', got: {}",
        hints[0].label
    );
}

#[test]
fn test_inlay_hints_no_dates_no_hints() {
    let doc = dated(None, None);
    let hints = compute_inlay_hints(&doc, None);
    assert!(hints.is_empty(), "Expected no hints for task without dates");
}

#[test]
fn whole_days_round_toward_zero() {
    let base = rfc3339("2026-01-15T00:00:00+00:00");
    let doc = dated(Some(rfc3339("2026-01-17T23:59:59+00:00")), None);
    let hints = compute_inlay_hints(&doc, Some(base));
    assert_eq!(hints[0].label, " (due in 2d)");
    let doc = dated(Some(rfc3339("2026-01-13T00:00:01+00:00")), None);
    let hints = compute_inlay_hints(&doc, Some(base));
    assert_eq!(hints[0].label, " (1d ago)");
    let doc = dated(None, Some(rfc3339("2026-01-20T00:00:00+00:00")));
    let hints = compute_inlay_hints(&doc, Some(base));
    assert_eq!(hints[0].label, " (done -5d ago)");
    assert_eq!(hints[0].position, Position { line: 0, character: 30 });
}

#[test]
fn lsp_range_cuts_coordinates_to_32_bits() {
    let r = source_range_to_lsp_range(SourceRange { start_row: 1, start_col: 2, end_row: 3, end_col: 4 });
    assert_eq!(r.start, Position { line: 1, character: 2 });
    assert_eq!(r.end, Position { line: 3, character: 4 });
    let wide = source_range_to_lsp_range(SourceRange {
        start_row: (1usize << 32) + 7,
        start_col: 0,
        end_row: 0,
        end_col: 0,
    });
    assert_eq!(wide.start.line, 7);
}

#[test]
fn completion_date_fix_inserts_the_current_local_minute() {
    let doc = ParsedDocument { actions: vec![line_action(56, ActionState::Completed, false)] };
    let before = chrono::Local::now().format("%Y-%m-%dT%H:%M").to_string();
    let fixes = compute_code_actions(&doc, "file:///test.actions", origin());
    let after = chrono::Local::now().format("%Y-%m-%dT%H:%M").to_string();
    let fix = fixes.iter().find(|f| f.title == "Set Completion Date (Today)").expect("fix");
    let text = &fix.changes[0].1[0].new_text;
    assert!(text.starts_with(" %"));
    let stamp = &text[2..];
    assert!(stamp == before || stamp == after, "unexpected stamp {stamp}");
}

#[test]
fn clock_hints_match_hints_at_the_current_time() {
    let doc = dated(Some(local_minute(2026, 1, 15, 10, 0)), None);
    let hints = compute_inlay_hints(&doc, None);
    assert_eq!(hints.len(), 1);
}

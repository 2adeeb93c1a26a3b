//! Tests of the incremental query database and the analyzer pipeline.

use rome_analyze::analyze::{Action, AnalysisHost, AnalyzerSignal};
use rome_analyze::db::FileId;
use rome_analyze::kind::SyntaxKind;
use rome_analyze::text::TextRange;

fn chars(s: &str) -> Vec<char> {
    s.chars().collect()
}

fn string_of(v: &[char]) -> String {
    v.iter().collect()
}

fn range(start: usize, end: usize) -> TextRange {
    TextRange { start, end }
}

/// Applies replacements to a text: each `before` range is replaced by the
/// `after` text, from the back so earlier offsets stay valid.
fn apply_action(text: &str, action: &Action) -> String {
    let mut edits: Vec<(usize, usize, String)> = action
        .replacements
        .iter()
        .map(|r| (r.before.range.start, r.before.range.end, string_of(&r.after.text)))
        .collect();
    edits.sort_by(|a, b| b.0.cmp(&a.0));
    let mut out = text.to_string();
    for (start, end, new_text) in edits {
        out.replace_range(start..end, &new_text);
    }
    out
}

fn signal_summary(signal: &AnalyzerSignal) -> (Vec<(usize, usize, String)>, Vec<String>) {
    let diags = signal
        .diagnostics
        .iter()
        .map(|d| (d.range.start, d.range.end, string_of(&d.message)))
        .collect();
    let actions = signal.actions.iter().map(|a| string_of(&a.title)).collect();
    (diags, actions)
}

#[test]
fn set_and_get_file_text() {
    let mut host = AnalysisHost::new();
    host.set_file_text(FileId(0), chars("let a = 1;"));
    assert_eq!(string_of(&host.get_file_text(FileId(0))), "let a = 1;");
    host.set_file_text(FileId(0), chars("let b = 2;"));
    assert_eq!(string_of(&host.get_file_text(FileId(0))), "let b = 2;");
}

#[test]
fn parse_returns_covering_root() {
    let mut host = AnalysisHost::new();
    host.set_file_text(FileId(0), chars("let a = 1;"));
    let tree = host.parse(FileId(0));
    assert_eq!(tree.nodes[0].kind, SyntaxKind::JsRoot);
    assert_eq!(tree.nodes[0].range.end, 10);
}

#[test]
fn query_nodes_finds_bindings_in_source_order() {
    let mut host = AnalysisHost::new();
    host.set_file_text(FileId(0), chars("let a = 1; let b = 2;"));
    let nodes = host.query_nodes(FileId(0), SyntaxKind::JsIdentifierBinding);
    let ranges: Vec<(usize, usize)> = nodes.iter().map(|n| (n.range.start, n.range.end)).collect();
    assert_eq!(ranges, vec![(4, 5), (15, 16)]);
}

#[test]
fn range_query_is_subset_with_order_kept() {
    let mut host = AnalysisHost::new();
    host.set_file_text(FileId(0), chars("a == b; c == d;"));
    let all = host.query_nodes(FileId(0), SyntaxKind::JsBinaryExpression);
    let within = host.query_nodes_in_range(FileId(0), SyntaxKind::JsBinaryExpression, range(0, 7));
    assert_eq!(all.len(), 2);
    assert_eq!(within.len(), 1);
    // every element of the filtered query is an element of the unfiltered
    // one, inside the query range, in the same order
    let all_indices: Vec<usize> = all.iter().map(|n| n.index).collect();
    let mut last_pos = 0;
    for n in &within {
        assert!(n.range.end <= 7);
        let pos = all_indices.iter().position(|&i| i == n.index).expect("subset");
        assert!(pos >= last_pos);
        last_pos = pos;
    }
}

#[test]
fn incremental_cutoff_on_identical_text() {
    // Re-setting identical text forces a reparse, but the recomputed tree
    // equals the cached one, so queries layered on the node indices are not
    // recomputed.
    let mut host = AnalysisHost::new();
    host.set_file_text(FileId(0), chars("let X = 1;"));
    let first = host.analyze(FileId(0), None);
    let parses_after_first = host.db.parse_count;
    let nodes_after_first = host.db.nodes_count;
    let ranges_after_first = host.db.ranges_count;

    host.set_file_text(FileId(0), chars("let X = 1;"));
    let second = host.analyze(FileId(0), None);
    assert_eq!(host.db.parse_count, parses_after_first + 1);
    assert_eq!(host.db.nodes_count, nodes_after_first);
    assert_eq!(host.db.ranges_count, ranges_after_first);
    assert_eq!(signal_summary(&first), signal_summary(&second));

    // a read without an intervening write recomputes nothing at all
    let third = host.analyze(FileId(0), None);
    assert_eq!(host.db.parse_count, parses_after_first + 1);
    assert_eq!(host.db.nodes_count, nodes_after_first);
    assert_eq!(signal_summary(&second), signal_summary(&third));
}

#[test]
fn edit_changes_results_and_recomputes() {
    let mut host = AnalysisHost::new();
    host.set_file_text(FileId(0), chars("let X = 1;"));
    let first = host.analyze(FileId(0), None);
    assert_eq!(first.diagnostics.len(), 1);

    host.set_file_text(FileId(0), chars("let x = 1;"));
    let second = host.analyze(FileId(0), None);
    assert!(second.diagnostics.is_empty());
}

#[test]
fn analyzer_is_deterministic() {
    let mut host = AnalysisHost::new();
    host.set_file_text(FileId(0), chars("let X = 1; a == b;"));
    let cursor = Some(range(13, 15));
    let first = host.analyze(FileId(0), cursor);
    let second = host.analyze(FileId(0), cursor);
    assert_eq!(signal_summary(&first), signal_summary(&second));
}

#[test]
fn all_caps_yields_one_exact_diagnostic() {
    // `let X = 1;` — one diagnostic, spanning exactly `X`, naming `X`.
    let mut host = AnalysisHost::new();
    host.set_file_text(FileId(0), chars("let X = 1;"));
    let signal = host.analyze(FileId(0), None);
    assert_eq!(signal.diagnostics.len(), 1);
    let d = &signal.diagnostics[0];
    assert_eq!((d.range.start, d.range.end), (4, 5));
    assert_eq!(string_of(&d.message), "rome: the name X is in all caps.");
    assert!(signal.actions.is_empty());
}

#[test]
fn double_eq_diagnostic_and_cursor_action() {
    // `a == b` with the cursor on `==`: one diagnostic on the operator and
    // one action replacing `==` with `===`.
    let mut host = AnalysisHost::new();
    host.set_file_text(FileId(0), chars("a == b"));
    let signal = host.analyze(FileId(0), Some(range(2, 4)));
    assert_eq!(signal.diagnostics.len(), 1);
    let d = &signal.diagnostics[0];
    assert_eq!((d.range.start, d.range.end), (2, 4));
    assert_eq!(string_of(&d.message), "rome: do not use == operator");
    assert_eq!(signal.actions.len(), 1);
    let action = &signal.actions[0];
    assert_eq!(string_of(&action.title), "rome: Change to ===");
    assert_eq!(action.replacements.len(), 1);
    assert_eq!(string_of(&action.replacements[0].before.text), "==");
    assert_eq!(string_of(&action.replacements[0].after.text), "===");
    assert_eq!(action.diagnostics.len(), 1);
    assert_eq!(apply_action("a == b", action), "a === b");
}

#[test]
fn double_eq_without_cursor_keeps_diagnostic_only() {
    let mut host = AnalysisHost::new();
    host.set_file_text(FileId(0), chars("a == b"));
    let absent = host.analyze(FileId(0), None);
    assert_eq!(absent.diagnostics.len(), 1);
    assert!(absent.actions.is_empty());

    let elsewhere = host.analyze(FileId(0), Some(range(0, 1)));
    assert_eq!(elsewhere.diagnostics.len(), 1);
    assert!(elsewhere.actions.is_empty());
}

#[test]
fn swap_action_is_an_involution() {
    // `a < b` with the cursor over the whole expression: one action whose
    // two replacements swap the operands; applying the pair twice restores
    // the original text.
    let text = "a < b";
    let mut host = AnalysisHost::new();
    host.set_file_text(FileId(0), chars(text));
    let signal = host.analyze(FileId(0), Some(range(0, 5)));
    assert!(signal.diagnostics.is_empty());
    assert_eq!(signal.actions.len(), 1);
    let action = &signal.actions[0];
    assert_eq!(string_of(&action.title), "rome: swap BinExp");
    assert_eq!(action.replacements.len(), 2);
    let swapped = apply_action(text, action);
    assert_eq!(swapped, "b < a");
    // the resulting replacement pair — the swap offered on the swapped text —
    // restores the original
    host.set_file_text(FileId(0), chars(&swapped));
    let back = host.analyze(FileId(0), Some(range(0, 5)));
    assert_eq!(back.actions.len(), 1);
    let restored = apply_action(&swapped, &back.actions[0]);
    assert_eq!(restored, text);
}

#[test]
fn swap_contributes_nothing_without_cursor() {
    let mut host = AnalysisHost::new();
    host.set_file_text(FileId(0), chars("a < b"));
    let signal = host.analyze(FileId(0), None);
    assert!(signal.actions.is_empty());
    assert!(signal.diagnostics.is_empty());
}

#[test]
fn aggregation_follows_analyzer_order() {
    // all-caps diagnostics come before double-equals diagnostics, whatever
    // the source order.
    let mut host = AnalysisHost::new();
    host.set_file_text(FileId(0), chars("a == b; let X = 1;"));
    let signal = host.analyze(FileId(0), None);
    assert_eq!(signal.diagnostics.len(), 2);
    assert_eq!(
        string_of(&signal.diagnostics[0].message),
        "rome: the name X is in all caps."
    );
    assert_eq!(
        string_of(&signal.diagnostics[1].message),
        "rome: do not use == operator"
    );
}

#[test]
fn files_are_independent_inputs() {
    let mut host = AnalysisHost::new();
    host.set_file_text(FileId(0), chars("let X = 1;"));
    host.set_file_text(FileId(1), chars("let y = 1;"));
    let first = host.analyze(FileId(0), None);
    let second = host.analyze(FileId(1), None);
    assert_eq!(first.diagnostics.len(), 1);
    assert!(second.diagnostics.is_empty());
}

#[test]
fn kind_queries_are_independent_cache_entries() {
    let mut host = AnalysisHost::new();
    host.set_file_text(FileId(0), chars("let a = 1; a == b;"));
    host.query_nodes(FileId(0), SyntaxKind::JsIdentifierBinding);
    let after_first_kind = host.db.nodes_count;
    host.query_nodes(FileId(0), SyntaxKind::JsBinaryExpression);
    assert!(host.db.nodes_count > after_first_kind);
    let after_second_kind = host.db.nodes_count;
    host.query_nodes(FileId(0), SyntaxKind::JsIdentifierBinding);
    host.query_nodes(FileId(0), SyntaxKind::JsBinaryExpression);
    assert_eq!(host.db.nodes_count, after_second_kind);
}

#[test]
fn parse_diagnostics_are_cached_with_the_tree() {
    let mut host = AnalysisHost::new();
    host.set_file_text(FileId(0), chars("let x, x;"));
    let diags = host.db.parse_diagnostics(FileId(0));
    assert_eq!(diags.len(), 1);
    let before = host.db.parse_count;
    let again = host.db.parse_diagnostics(FileId(0));
    assert_eq!(host.db.parse_count, before);
    assert_eq!(again.len(), 1);
}

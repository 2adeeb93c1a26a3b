//! Tests of the lexer, the resilient parser and the tree it builds.

use rome_analyze::binding::parse_identifier_binding;
use rome_analyze::grammar::parse_text;
use rome_analyze::kind::SyntaxKind;
use rome_analyze::lexer::tokenize;
use rome_analyze::parsed_syntax::ParsedSyntax;
use rome_analyze::parser::Parser;
use rome_analyze::tree::SyntaxTree;

fn chars(s: &str) -> Vec<char> {
    s.chars().collect()
}

fn string_of(v: &[char]) -> String {
    v.iter().collect()
}

/// The token leaves of the arena, in arena order, as ranges.
fn leaf_ranges_of(tree: &SyntaxTree) -> Vec<(usize, usize)> {
    tree.nodes
        .iter()
        .filter(|n| n.is_leaf && n.kind != SyntaxKind::Missing)
        .map(|n| (n.range.start, n.range.end))
        .collect()
}

/// Checks that the leaves split `[0, len)` with nothing dropped.
fn assert_covers(tree: &SyntaxTree, len: usize) {
    assert_eq!(tree.nodes[0].range.start, 0);
    assert_eq!(tree.nodes[0].range.end, len);
    let leaves = leaf_ranges_of(tree);
    if len == 0 {
        assert!(leaves.is_empty());
        return;
    }
    assert_eq!(leaves.first().unwrap().0, 0);
    assert_eq!(leaves.last().unwrap().1, len);
    for w in leaves.windows(2) {
        assert_eq!(w[0].1, w[1].0);
    }
}

#[test]
fn lexer_splits_simple_statement() {
    let tokens = tokenize(&chars("let x = 1;"));
    let kinds: Vec<SyntaxKind> = tokens.iter().map(|t| t.kind).collect();
    assert_eq!(
        kinds,
        vec![
            SyntaxKind::LetKw,
            SyntaxKind::Whitespace,
            SyntaxKind::Ident,
            SyntaxKind::Whitespace,
            SyntaxKind::Eq,
            SyntaxKind::Whitespace,
            SyntaxKind::Number,
            SyntaxKind::Semicolon,
            SyntaxKind::Eof,
        ]
    );
}

#[test]
fn lexer_distinguishes_equals_runs() {
    let tokens = tokenize(&chars("= == ==="));
    let kinds: Vec<SyntaxKind> = tokens
        .iter()
        .filter(|t| t.kind != SyntaxKind::Whitespace && t.kind != SyntaxKind::Eof)
        .map(|t| t.kind)
        .collect();
    assert_eq!(kinds, vec![SyntaxKind::Eq, SyntaxKind::Eq2, SyntaxKind::Eq3]);
}

#[test]
fn tree_covers_well_formed_input() {
    let text = "let x = 1;";
    let parse = parse_text(chars(text));
    assert_covers(&parse.tree, text.len());
    assert_eq!(parse.tree.nodes[0].kind, SyntaxKind::JsRoot);
    assert!(parse.diagnostics.is_empty());
}

#[test]
fn tree_covers_empty_input() {
    let parse = parse_text(chars(""));
    assert_covers(&parse.tree, 0);
    assert_eq!(parse.tree.nodes[0].kind, SyntaxKind::JsRoot);
}

#[test]
fn tree_covers_malformed_input() {
    for text in [
        "}{][ ???",
        "let",
        "let ;",
        "= = =",
        "   ",
        "let [a b = [1, 2];",
        "a == ",
        "...",
    ] {
        let parse = parse_text(chars(text));
        assert_covers(&parse.tree, text.len());
    }
}

#[test]
fn node_ranges_nest() {
    for text in ["let x = 1;", "a == b; let [p, q = 2] = r;", "}{ let {a: b} = c;"] {
        let parse = parse_text(chars(text));
        let nodes = &parse.tree.nodes;
        for (i, n) in nodes.iter().enumerate() {
            if i == 0 || n.is_leaf {
                continue;
            }
            let parent = &nodes[n.parent];
            assert!(parent.range.start <= n.range.start, "{text}: node {i}");
            assert!(n.range.end <= parent.range.end, "{text}: node {i}");
        }
    }
}

#[test]
fn fixed_arity_of_property_patterns() {
    // Well-formed and malformed properties keep their slot counts; missing
    // pieces appear as placeholder slots.
    let parse = parse_text(chars("let {a: b, c} = d;"));
    let tree = &parse.tree;
    let props: Vec<usize> = (0..tree.nodes.len())
        .filter(|&i| tree.nodes[i].kind == SyntaxKind::JsPropertyBinding)
        .collect();
    assert_eq!(props.len(), 1);
    assert_eq!(tree.slot_children(props[0]).len(), 4);
    let shorthands: Vec<usize> = (0..tree.nodes.len())
        .filter(|&i| tree.nodes[i].kind == SyntaxKind::JsShorthandPropertyBinding)
        .collect();
    assert_eq!(shorthands.len(), 1);
    assert_eq!(tree.slot_children(shorthands[0]).len(), 2);

    let broken = parse_text(chars("let {a: } = d;"));
    let tree = &broken.tree;
    let props: Vec<usize> = (0..tree.nodes.len())
        .filter(|&i| tree.nodes[i].kind == SyntaxKind::JsPropertyBinding)
        .collect();
    assert_eq!(props.len(), 1);
    let slots = tree.slot_children(props[0]);
    assert_eq!(slots.len(), 4);
    assert!(slots.iter().any(|s| s.kind == SyntaxKind::Missing));
    assert!(!broken.diagnostics.is_empty());
}

#[test]
fn fixed_arity_of_binding_with_default() {
    let parse = parse_text(chars("let [x = 1] = y;"));
    let tree = &parse.tree;
    let defaults: Vec<usize> = (0..tree.nodes.len())
        .filter(|&i| tree.nodes[i].kind == SyntaxKind::JsBindingWithDefault)
        .collect();
    assert_eq!(defaults.len(), 1);
    assert_eq!(tree.slot_children(defaults[0]).len(), 3);
}

#[test]
fn fixed_arity_of_binary_expressions() {
    let parse = parse_text(chars("a == ;"));
    let tree = &parse.tree;
    let bins: Vec<usize> = (0..tree.nodes.len())
        .filter(|&i| tree.nodes[i].kind == SyntaxKind::JsBinaryExpression)
        .collect();
    assert_eq!(bins.len(), 1);
    let slots = tree.slot_children(bins[0]);
    assert_eq!(slots.len(), 3);
    assert_eq!(slots[2].kind, SyntaxKind::Missing);
}

#[test]
fn recovery_wraps_unexpected_tokens() {
    let text = "@@@ let x;";
    let parse = parse_text(chars(text));
    assert_covers(&parse.tree, text.len());
    assert!(parse
        .tree
        .nodes
        .iter()
        .any(|n| n.kind == SyntaxKind::JsUnknownStatement));
    assert!(parse
        .tree
        .nodes
        .iter()
        .any(|n| n.kind == SyntaxKind::JsVariableDeclaration));
    assert!(!parse.diagnostics.is_empty());
}

#[test]
fn recovery_consumes_to_end_without_safe_point() {
    let text = "]]]]";
    let parse = parse_text(chars(text));
    assert_covers(&parse.tree, text.len());
    assert!(!parse.diagnostics.is_empty());
}

#[test]
fn duplicate_binding_reports_second_declaration() {
    // `let x, x;` — the second `x` is a duplicate; the diagnostic points at
    // it, with a secondary label at the first declaration. Both identifiers
    // stay in the tree as nodes.
    let text = "let x, x;";
    let parse = parse_text(chars(text));
    let dup = parse
        .diagnostics
        .iter()
        .find(|d| {
            string_of(&d.message)
                == "Declarations inside of a `let` or `const` declaration may not have duplicates"
        })
        .expect("duplicate diagnostic");
    assert_eq!((dup.range.start, dup.range.end), (7, 8));
    let secondary = dup.secondary.as_ref().expect("secondary label");
    assert_eq!((secondary.range.start, secondary.range.end), (4, 5));
    assert_eq!(string_of(&secondary.message), "x is first declared here");

    let tree = &parse.tree;
    let first: Vec<_> = tree
        .nodes
        .iter()
        .filter(|n| n.kind == SyntaxKind::JsIdentifierBinding)
        .collect();
    assert_eq!(first.len(), 1);
    assert_eq!((first[0].range.start, first[0].range.end), (4, 5));
    let second: Vec<_> = tree
        .nodes
        .iter()
        .filter(|n| n.kind == SyntaxKind::JsUnknownBinding)
        .collect();
    assert_eq!(second.len(), 1);
    assert_eq!((second[0].range.start, second[0].range.end), (7, 8));
}

#[test]
fn let_cannot_be_declared_in_declarator_list() {
    let parse = parse_text(chars("let let = 1;"));
    assert!(parse.diagnostics.iter().any(|d| {
        string_of(&d.message)
            == "`let` cannot be declared as a variable name inside of a let or const declaration"
    }));
}

#[test]
fn strict_mode_rejects_eval_as_binding() {
    let mut p = Parser::new(chars("eval"));
    p.state.strict_mode = true;
    let _root = p.start();
    let parsed = parse_identifier_binding(&mut p);
    match parsed {
        ParsedSyntax::Present(conditional) => assert!(conditional.is_invalid()),
        ParsedSyntax::Absent => panic!("identifier expected"),
    }
    assert_eq!(p.diagnostics.len(), 1);
    assert_eq!(
        string_of(&p.diagnostics[0].message),
        "Illegal use of `eval` as an identifier in strict mode"
    );
    assert_eq!((p.diagnostics[0].range.start, p.diagnostics[0].range.end), (0, 4));
}

#[test]
fn rest_property_with_identifier_is_clean() {
    let parse = parse_text(chars("let {...rest} = b;"));
    assert!(parse.diagnostics.is_empty());
    assert!(parse
        .tree
        .nodes
        .iter()
        .any(|n| n.kind == SyntaxKind::JsObjectRestBinding));
}

#[test]
fn rest_property_adds_no_duplicate_error() {
    // the inner identifier is already rejected as a duplicate; the rest rule
    // folds the node to an unknown binding without a second diagnostic
    let parse = parse_text(chars("let {a, ...a} = b;"));
    assert_eq!(parse.diagnostics.len(), 1);
    assert_eq!(
        string_of(&parse.diagnostics[0].message),
        "Declarations inside of a `let` or `const` declaration may not have duplicates"
    );
    assert!(parse
        .tree
        .nodes
        .iter()
        .any(|n| n.kind == SyntaxKind::JsUnknownBinding));
}

#[test]
fn rest_property_must_bind_identifier() {
    let parse = parse_text(chars("let {...[a]} = b;"));
    assert!(parse
        .tree
        .nodes
        .iter()
        .any(|n| n.kind == SyntaxKind::JsUnknownBinding));
    assert!(parse.diagnostics.iter().any(|d| {
        string_of(&d.message)
            == "Object rest patterns must bind to an identifier, other patterns are not allowed"
    }));
}

//! Expressions, statements and the root rule, and the `parse_text` entry
//! point that replays the finished event log into a tree.
//!
//! Every grammar rule observes the marker discipline checked by the parser's
//! contracts: a rule returns `Absent` exactly when it consumed nothing, and a
//! produced node always stands at the end of the log, ready to be wrapped or
//! reclassified by its caller.

use vstd::prelude::*;

use crate::binding::{frame_keep, one_slot_added, parse_binding, rule_frame, same_mode};
use crate::diagnostic::ParseDiagnostic;
use crate::kind::SyntaxKind;
use crate::parsed_syntax::ParsedSyntax;
use crate::parser::{CompletedMarker, Parser};
use crate::recovery::ParseRecovery;
use crate::text::chars_of;
use crate::tree::{
    build_tree, lemma_event_leaf_ranges_from_tokens, lemma_token_ranges_partition, leaf_ranges,
    ranges_partition, SyntaxTree,
};

verus! {

/// True when `kind` may begin an expression.
pub open spec fn at_expression_start(kind: SyntaxKind) -> bool {
    kind == SyntaxKind::Ident || kind == SyntaxKind::Number
}

/// True when `kind` is one of the binary operators.
pub open spec fn is_binary_operator(kind: SyntaxKind) -> bool {
    kind == SyntaxKind::Eq2 || kind == SyntaxKind::Eq3 || kind == SyntaxKind::LAngle || kind
        == SyntaxKind::RAngle
}

fn is_binary_operator_exec(kind: SyntaxKind) -> (b: bool)
    ensures
        b == is_binary_operator(kind),
{
    kind == SyntaxKind::Eq2 || kind == SyntaxKind::Eq3 || kind == SyntaxKind::LAngle || kind
        == SyntaxKind::RAngle
}

/// Parses an identifier or number literal expression.
fn parse_primary_expression(p: &mut Parser) -> (r: ParsedSyntax<CompletedMarker>)
    requires
        old(p).wf(),
        old(p).open_markers@.len() > 0,
    ensures
        rule_frame(old(p), final(p)),
        same_mode(old(p), final(p)),
        final(p).diagnostics@ == old(p).diagnostics@,
        final(p).state == old(p).state,
        r is Absent <==> !at_expression_start(old(p).cur_spec().kind),
        r is Absent ==> *final(p) == *old(p),
        r is Present ==> {
            &&& final(p).pos > old(p).pos
            &&& r.get().undoable_in(final(p))
            &&& r.get().range == old(p).cur_spec().range
            &&& one_slot_added(old(p), final(p))
            &&& r.get().kind == (if old(p).cur_spec().kind == SyntaxKind::Ident {
                SyntaxKind::JsIdentifierExpression
            } else {
                SyntaxKind::JsNumberLiteralExpression
            })
            &&& r.get().child_slots@ == 1
        },
{
    let kind = p.cur();
    if kind != SyntaxKind::Ident && kind != SyntaxKind::Number {
        return ParsedSyntax::Absent;
    }
    let ghost markers0 = p.open_markers@;
    let ghost kids0 = p.open_children@;
    let m = p.start();
    let ghost mpos = m.pos;
    p.bump(kind);
    let node_kind = if kind == SyntaxKind::Ident {
        SyntaxKind::JsIdentifierExpression
    } else {
        SyntaxKind::JsNumberLiteralExpression
    };
    let cm = m.complete(p, node_kind);
    proof {
        crate::lexer::lemma_chained_facts(
            old(p).tokens@,
            0,
            old(p).source@.len() as int,
            old(p).pos as int,
        );
        assert(markers0.push(mpos).drop_last() =~= markers0);
        assert(kids0.push(0).update(kids0.len() as int, 1).drop_last() =~= kids0);
        assert(p.open_children@ =~= kids0.update(kids0.len() - 1, kids0.last() + 1));
    }
    ParsedSyntax::Present(cm)
}

/// Parses an expression: a primary expression, possibly extended into
/// left-associated binary expressions. The already-parsed left side is
/// wrapped via `precede` when an operator follows — no re-parsing.
#[verifier::loop_isolation(false)]
pub fn parse_expression(p: &mut Parser) -> (r: ParsedSyntax<CompletedMarker>)
    requires
        old(p).wf(),
        old(p).open_markers@.len() > 0,
    ensures
        rule_frame(old(p), final(p)),
        same_mode(old(p), final(p)),
        final(p).diagnostics@ == old(p).diagnostics@,
        final(p).state == old(p).state,
        r is Absent <==> !at_expression_start(old(p).cur_spec().kind),
        r is Absent ==> *final(p) == *old(p),
        r is Present ==> {
            &&& final(p).pos > old(p).pos
            &&& r.get().undoable_in(final(p))
            &&& r.get().range.start == old(p).cur_spec().range.start
            &&& one_slot_added(old(p), final(p))
            &&& (r.get().kind == SyntaxKind::JsIdentifierExpression || r.get().kind
                == SyntaxKind::JsNumberLiteralExpression || r.get().kind
                == SyntaxKind::JsBinaryExpression)
            &&& (r.get().kind == SyntaxKind::JsBinaryExpression ==> r.get().child_slots@ == 3)
        },
{
    let first = parse_primary_expression(p);
    let mut lhs = match first {
        ParsedSyntax::Absent => {
            return ParsedSyntax::Absent;
        },
        ParsedSyntax::Present(cm) => cm,
    };
    while is_binary_operator_exec(p.cur())
        invariant
            p.wf(),
            rule_frame(old(p), p),
            p.diagnostics@ == old(p).diagnostics@,
            p.state == old(p).state,
            p.pos > old(p).pos,
            lhs.undoable_in(p),
            lhs.range.start == old(p).cur_spec().range.start,
            one_slot_added(old(p), p),
            old(p).open_children@.len() > 0,
            (lhs.kind == SyntaxKind::JsIdentifierExpression || lhs.kind
                == SyntaxKind::JsNumberLiteralExpression || lhs.kind
                == SyntaxKind::JsBinaryExpression),
            (lhs.kind == SyntaxKind::JsBinaryExpression ==> lhs.child_slots@ == 3),
        decreases p.tokens@.len() - p.pos,
    {
        let ghost markers1 = p.open_markers@;
        let ghost kids1 = p.open_children@;
        let m = lhs.precede(p);
        let ghost mpos = m.pos;
        let op = p.cur();
        p.bump(op);
        let rhs = parse_primary_expression(p);
        match rhs {
            ParsedSyntax::Present(_) => {},
            ParsedSyntax::Absent => {
                p.missing();
            },
        }
        lhs = m.complete(p, SyntaxKind::JsBinaryExpression);
        proof {
            assert(markers1.push(mpos).drop_last() =~= markers1);
            let parent_adj = kids1.update(kids1.len() - 1, kids1.last() - 1);
            assert(parent_adj.push(1).update(parent_adj.len() as int, 2).update(
                parent_adj.len() as int,
                3,
            ).drop_last() =~= parent_adj);
            assert(p.open_children@ =~= kids1);
        }
    }
    ParsedSyntax::Present(lhs)
}

/// Parses `= expression` (two slots: the operator and the value).
pub fn parse_equal_value_clause(p: &mut Parser) -> (r: ParsedSyntax<CompletedMarker>)
    requires
        old(p).wf(),
        old(p).open_markers@.len() > 0,
    ensures
        rule_frame(old(p), final(p)),
        same_mode(old(p), final(p)),
        final(p).state == old(p).state,
        r is Absent <==> old(p).cur_spec().kind != SyntaxKind::Eq,
        r is Absent ==> *final(p) == *old(p),
        r is Present ==> {
            &&& final(p).pos > old(p).pos
            &&& r.get().undoable_in(final(p))
            &&& one_slot_added(old(p), final(p))
            &&& r.get().kind == SyntaxKind::JsEqualValueClause
            &&& r.get().child_slots@ == 2
        },
{
    if !p.at(SyntaxKind::Eq) {
        return ParsedSyntax::Absent;
    }
    let ghost markers0 = p.open_markers@;
    let ghost kids0 = p.open_children@;
    let m = p.start();
    let ghost mpos = m.pos;
    p.bump(SyntaxKind::Eq);
    let value = parse_expression(p);
    value.or_missing_with_error(p, chars_of("Expected an expression"));
    let cm = m.complete(p, SyntaxKind::JsEqualValueClause);
    proof {
        assert(markers0.push(mpos).drop_last() =~= markers0);
        assert(kids0.push(0).update(kids0.len() as int, 1).update(kids0.len() as int, 2)
            .drop_last() =~= kids0);
        assert(p.open_children@ =~= kids0.update(kids0.len() - 1, kids0.last() + 1));
    }
    ParsedSyntax::Present(cm)
}

/// Parses an object member name: an identifier or a number literal.
pub fn parse_object_member_name(p: &mut Parser) -> (r: ParsedSyntax<CompletedMarker>)
    requires
        old(p).wf(),
        old(p).open_markers@.len() > 0,
    ensures
        rule_frame(old(p), final(p)),
        same_mode(old(p), final(p)),
        final(p).diagnostics@ == old(p).diagnostics@,
        final(p).state == old(p).state,
        r is Absent <==> !(old(p).cur_spec().kind == SyntaxKind::Ident || old(
            p,
        ).cur_spec().kind == SyntaxKind::LetKw || old(p).cur_spec().kind == SyntaxKind::Number),
        r is Absent ==> *final(p) == *old(p),
        r is Present ==> {
            &&& final(p).pos > old(p).pos
            &&& r.get().undoable_in(final(p))
            &&& one_slot_added(old(p), final(p))
            &&& r.get().kind == SyntaxKind::JsLiteralMemberName
            &&& r.get().child_slots@ == 1
        },
{
    let kind = p.cur();
    if kind != SyntaxKind::Ident && kind != SyntaxKind::LetKw && kind != SyntaxKind::Number {
                return ParsedSyntax::Absent;
    }
    let ghost markers0 = p.open_markers@;
    let ghost kids0 = p.open_children@;
    let m = p.start();
    let ghost mpos = m.pos;
    p.bump(kind);
    let cm = m.complete(p, SyntaxKind::JsLiteralMemberName);
    proof {
        assert(markers0.push(mpos).drop_last() =~= markers0);
        assert(kids0.push(0).update(kids0.len() as int, 1).drop_last() =~= kids0);
        assert(p.open_children@ =~= kids0.update(kids0.len() - 1, kids0.last() + 1));
    }
    ParsedSyntax::Present(cm)
}

/// True when `kind` may begin a statement.
pub open spec fn at_statement_start(kind: SyntaxKind) -> bool {
    kind == SyntaxKind::LetKw || kind == SyntaxKind::ConstKw || at_expression_start(kind)
}

/// Parses one `name (= value)?` declarator of a variable declaration
/// (two slots: the binding and the initializer).
fn parse_declarator(p: &mut Parser) -> (r: ParsedSyntax<CompletedMarker>)
    requires
        old(p).wf(),
        old(p).open_markers@.len() > 0,
    ensures
        rule_frame(old(p), final(p)),
        same_mode(old(p), final(p)),
        r is Present ==> {
            &&& final(p).pos > old(p).pos
            &&& r.get().undoable_in(final(p))
            &&& one_slot_added(old(p), final(p))
            &&& r.get().kind == SyntaxKind::JsVariableDeclarator
            &&& r.get().child_slots@ == 2
        },
        r is Absent ==> *final(p) == *old(p),
        r is Absent <==> !crate::binding::at_binding_start(old(p)),
{
    let at_declarator = p.at(SyntaxKind::Ident) || p.at(SyntaxKind::LetKw) || p.at(
        SyntaxKind::LBrack,
    ) || (p.at(SyntaxKind::LCurly) && p.state.allow_object_expr);
    if !at_declarator {
                return ParsedSyntax::Absent;
    }
    let ghost markers0 = p.open_markers@;
    let ghost kids0 = p.open_children@;
    let m = p.start();
    let ghost mpos = m.pos;
    let binding = parse_binding(p);
    binding.or_missing_with_error(
        p,
        chars_of("Expected an identifier, an array pattern or an object pattern"),
    );
    let init = parse_equal_value_clause(p);
    init.or_missing(p);
    let cm = m.complete(p, SyntaxKind::JsVariableDeclarator);
    proof {
        assert(markers0.push(mpos).drop_last() =~= markers0);
        assert(kids0.push(0).update(kids0.len() as int, 1).update(kids0.len() as int, 2)
            .drop_last() =~= kids0);
        assert(p.open_children@ =~= kids0.update(kids0.len() - 1, kids0.last() + 1));
    }
    ParsedSyntax::Present(cm)
}

/// Parses a `let`/`const` declaration. Duplicate-name recording is switched
/// on for the declarator list and reset at its end: the list is the scope of
/// the duplicate check.
#[verifier::loop_isolation(false)]
pub fn parse_variable_declaration(p: &mut Parser) -> (r: ParsedSyntax<CompletedMarker>)
    requires
        old(p).wf(),
        old(p).open_markers@.len() > 0,
    ensures
        rule_frame(old(p), final(p)),
        same_mode(old(p), final(p)),
        r is Absent <==> !(old(p).cur_spec().kind == SyntaxKind::LetKw || old(
            p,
        ).cur_spec().kind == SyntaxKind::ConstKw),
        r is Absent ==> *final(p) == *old(p),
        r is Present ==> {
            &&& final(p).pos > old(p).pos
            &&& r.get().undoable_in(final(p))
            &&& one_slot_added(old(p), final(p))
            &&& r.get().kind == SyntaxKind::JsVariableDeclaration
        },
{
    let kw = p.cur();
    if kw != SyntaxKind::LetKw && kw != SyntaxKind::ConstKw {
                return ParsedSyntax::Absent;
    }
    let ghost markers0 = p.open_markers@;
    let ghost kids0 = p.open_children@;
    let old_record = p.state.should_record_names;
    let m = p.start();
    let ghost mpos = m.pos;
    p.bump(kw);
    p.state.should_record_names = true;
    p.state.name_map = Vec::new();
    let first = parse_declarator(p);
    first.or_missing_with_error(p, chars_of("Expected a variable declarator"));
    proof {
        assert(p.open_children@.drop_last() =~= old(p).open_children@);
    }
    while p.at(SyntaxKind::Comma)
        invariant
            p.wf(),
            frame_keep(old(p), p),
            p.state.strict_mode == old(p).state.strict_mode,
            p.state.allow_object_expr == old(p).state.allow_object_expr,
            p.state.should_record_names,
            p.pos > old(p).pos,
            m.is_top_of(p),
            p.open_markers@ == old(p).open_markers@.push(mpos),
            p.open_children@.len() == old(p).open_children@.len() + 1,
            p.open_children@.drop_last() == old(p).open_children@,
            m.text_start <= p.source@.len(),
        decreases p.tokens@.len() - p.pos,
    {
        p.bump(SyntaxKind::Comma);
        let next = parse_declarator(p);
        next.or_missing_with_error(p, chars_of("Expected a variable declarator"));
        proof {
            assert(p.open_children@.drop_last() =~= old(p).open_children@);
        }
    }
    p.state.should_record_names = old_record;
    p.state.name_map = Vec::new();
    p.expect_required(SyntaxKind::Semicolon, ParseDiagnostic::new(
        p.cur_tok().range,
        chars_of("Expected a semicolon"),
    ));
    let cm = m.complete(p, SyntaxKind::JsVariableDeclaration);
    proof {
        assert(markers0.push(mpos).drop_last() =~= markers0);
        assert(p.open_children@ =~= kids0.update(kids0.len() - 1, kids0.last() + 1));
    }
    ParsedSyntax::Present(cm)
}

/// Parses one statement: a variable declaration or an expression statement.
pub fn parse_statement(p: &mut Parser) -> (r: ParsedSyntax<CompletedMarker>)
    requires
        old(p).wf(),
        old(p).open_markers@.len() > 0,
    ensures
        rule_frame(old(p), final(p)),
        same_mode(old(p), final(p)),
        r is Absent <==> !at_statement_start(old(p).cur_spec().kind),
        r is Absent ==> *final(p) == *old(p),
        r is Present ==> {
            &&& final(p).pos > old(p).pos
            &&& r.get().undoable_in(final(p))
            &&& one_slot_added(old(p), final(p))
        },
{
    let kind = p.cur();
    if kind == SyntaxKind::LetKw || kind == SyntaxKind::ConstKw {
        parse_variable_declaration(p)
    } else if kind == SyntaxKind::Ident || kind == SyntaxKind::Number {
        let ghost markers0 = p.open_markers@;
        let ghost kids0 = p.open_children@;
        let m = p.start();
        let ghost mpos = m.pos;
        let expr = parse_expression(p);
        expr.or_missing_with_error(p, chars_of("Expected an expression"));
        if p.at(SyntaxKind::Semicolon) {
            p.bump(SyntaxKind::Semicolon);
        } else {
            p.missing();
        }
        let cm = m.complete(p, SyntaxKind::JsExpressionStatement);
        proof {
            assert(markers0.push(mpos).drop_last() =~= markers0);
            assert(kids0.push(0).update(kids0.len() as int, 1).update(kids0.len() as int, 2)
                .drop_last() =~= kids0);
            assert(p.open_children@ =~= kids0.update(kids0.len() - 1, kids0.last() + 1));
        }
        ParsedSyntax::Present(cm)
    } else {
                ParsedSyntax::Absent
    }
}

/// Result of parsing a text: the tree and the diagnostics collected on the
/// way.
pub struct Parse {
    pub tree: SyntaxTree,
    pub diagnostics: Vec<ParseDiagnostic>,
}

/// Parses a whole text into a tree.
///
/// For every input, well-formed or arbitrarily malformed, parsing terminates
/// and produces a tree whose root spans the whole text and whose token leaves
/// split it with nothing dropped: the marker protocol guarantees every
/// opened node is closed exactly once, in nesting order, and error recovery
/// wraps whatever fits no rule into unknown nodes.
#[verifier::loop_isolation(false)]
pub fn parse_text(text: Vec<char>) -> (r: Parse)
    ensures
        r.tree.wf(),
        r.tree.source@ == text@,
        r.tree.nodes@[0].kind == SyntaxKind::JsRoot,
        r.tree.nodes@[0].range == (crate::text::TextRange { start: 0, end: text@.len() as usize }),
        ranges_partition(leaf_ranges(r.tree.nodes@), text@.len() as int),
{
    let ghost tview = text@;
    let mut p = Parser::new(text);
    let m = p.start();
    let ghost mpos = m.pos;
    let mut safe: Vec<SyntaxKind> = Vec::new();
    safe.push(SyntaxKind::LetKw);
    safe.push(SyntaxKind::ConstKw);
    let recovery = ParseRecovery::new(safe, SyntaxKind::JsUnknownStatement);
    let mut done: usize = 0;
    while done == 0 && !p.at(SyntaxKind::Eof)
        invariant
            p.wf(),
            p.source@ == tview,
            p.open_markers@ =~= seq![mpos],
            done <= 1,
            done == 1 ==> p.cur_spec().kind == SyntaxKind::Eof,
        decreases p.tokens@.len() - p.pos + 1 - done,
    {
        let res = parse_statement(&mut p).or_recover(
            &mut p,
            &recovery,
            chars_of("Expected a statement"),
        );
        match res {
            Ok(_) => {},
            Err(_) => {
                if p.at(SyntaxKind::Eof) {
                    done = 1;
                } else {
                    let ghost markers1 = p.open_markers@;
                    let m2 = p.start();
                    let ghost m2pos = m2.pos;
                    let k = p.cur();
                    p.bump(k);
                    let cm2 = m2.complete(&mut p, SyntaxKind::JsUnknownStatement);
                    proof {
                        assert(markers1.push(m2pos).drop_last() =~= markers1);
                    }
                }
            },
        }
    }
    proof {
        crate::lexer::lemma_chained_facts(p.tokens@, 0, p.source@.len() as int, p.pos as int);
        assert(p.pos == p.tokens@.len() - 1);
        assert(p.source.len() == p.source@.len());
    }
    let ghost pos_g = p.pos as int;
    let ghost lead_g = p.leading as int;
    let ghost toks_g = p.tokens@;
    let ghost events_before = p.events@;
    let cm = m.complete(&mut p, SyntaxKind::JsRoot);
    proof {
        assert(seq![mpos].drop_last() =~= Seq::<usize>::empty());
        assert(mpos == 0);
        assert(p.events@[0] matches crate::parser::Event::Start {
            kind: SyntaxKind::JsRoot,
            forward_parent: None,
            ..
        });
    }
    let ghost n_g = p.source@.len() as int;
    let Parser { source, tokens, leading, events, diagnostics, .. } = p;
    let tree = build_tree(source, &tokens, leading, &events);
    proof {
        lemma_event_leaf_ranges_from_tokens(events@, tokens@, lead_g, pos_g);
        assert(leaf_ranges(tree.nodes@) =~= Seq::new(
            (toks_g.len() - 1) as nat,
            |k: int| toks_g[k].range,
        ));
        lemma_token_ranges_partition(toks_g, n_g);
    }
    Parse { tree, diagnostics }
}

} // verus!

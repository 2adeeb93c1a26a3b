//! Binding patterns: identifier bindings with context-sensitive validation,
//! array and object patterns, and rest elements.
//!
//! An identifier binding is parsed and *then* validated: `eval`/`arguments`
//! under strict mode, `let` inside a `let`/`const` declaration, and duplicate
//! names within one declarator list are all rejected as invalid syntax — the
//! token stays in the tree as a node, flagged unusable as a binding.

use vstd::prelude::*;

use crate::diagnostic::ParseDiagnostic;
use crate::kind::SyntaxKind;
use crate::parsed_syntax::{ConditionalSyntax, InvalidParsedSyntax, ParsedSyntax};
use crate::parser::{CompletedMarker, Marker, Parser, ParserState};
use crate::recovery::ParseRecovery;
use crate::text::{chars_eq, chars_of, push_chars, TextRange};

verus! {

/// What every parse rule keeps of the parser while it may still hold an
/// open marker of its own: the inputs, and diagnostics that only grow.
pub open spec fn frame_keep(a: &Parser, b: &Parser) -> bool {
    &&& b.wf()
    &&& b.source@ == a.source@
    &&& b.tokens@ == a.tokens@
    &&& b.leading == a.leading
    &&& b.diagnostics@.len() >= a.diagnostics@.len()
    &&& b.pos >= a.pos
}

/// Everything a finished parse rule leaves untouched: [`frame_keep`], with
/// every marker it opened closed again.
pub open spec fn rule_frame(a: &Parser, b: &Parser) -> bool {
    &&& frame_keep(a, b)
    &&& b.open_markers@ == a.open_markers@
}

/// The grammar-mode flags are unchanged.
pub open spec fn same_mode(a: &Parser, b: &Parser) -> bool {
    &&& b.state.strict_mode == a.state.strict_mode
    &&& b.state.should_record_names == a.state.should_record_names
    &&& b.state.allow_object_expr == a.state.allow_object_expr
}

/// A rule that produced a node added exactly one slot to the enclosing node.
pub open spec fn one_slot_added(a: &Parser, b: &Parser) -> bool {
    b.open_children@ == a.open_children@.update(
        a.open_children@.len() - 1,
        a.open_children@.last() + 1,
    )
}

pub open spec fn eval_text() -> Seq<char> {
    "eval"@
}

pub open spec fn arguments_text() -> Seq<char> {
    "arguments"@
}

/// `eval` and `arguments` may not be bound under strict mode.
pub open spec fn is_strict_reserved(name: Seq<char>) -> bool {
    name == eval_text() || name == arguments_text()
}

/// Message of the strict-mode rejection of `name`.
pub open spec fn strict_reserved_message(name: Seq<char>) -> Seq<char> {
    "Illegal use of `"@ + name + "` as an identifier in strict mode"@
}

/// Message of the rejection of `let` as a declared name.
pub open spec fn let_rejected_message() -> Seq<char> {
    "`let` cannot be declared as a variable name inside of a let or const declaration"@
}

/// Main message of the duplicate-name rejection.
pub open spec fn duplicate_message() -> Seq<char> {
    "Declarations inside of a `let` or `const` declaration may not have duplicates"@
}

/// Secondary-label message pointing at the first declaration of `name`.
pub open spec fn first_declared_message(name: Seq<char>) -> Seq<char> {
    name + " is first declared here"@
}

/// Message of the missing-identifier slot.
pub open spec fn expected_identifier_message() -> Seq<char> {
    "Expected an identifier"@
}

/// Message of the rejection of a non-identifier pattern after `...` in an
/// object pattern.
pub open spec fn rest_must_bind_identifier_message() -> Seq<char> {
    "Object rest patterns must bind to an identifier, other patterns are not allowed"@
}

/// An identifier binding can start here: at an identifier, or at the `let`
/// keyword, which is a contextual identifier in binding position.
pub open spec fn at_ident_binding(p: &Parser) -> bool {
    p.cur_spec().kind == SyntaxKind::Ident || p.cur_spec().kind == SyntaxKind::LetKw
}

/// The name at the cursor may be bound in the current context: it is not a
/// strict-mode reserved name, not `let` inside a `let`/`const` declaration,
/// and not a duplicate within the current declarator list.
pub open spec fn binding_name_allowed(p: &Parser) -> bool {
    let name = spec_cur_name(p);
    &&& !(p.state.strict_mode && is_strict_reserved(name))
    &&& !(p.state.should_record_names && name == crate::lexer::let_text())
    &&& !(p.state.should_record_names && ParserState::spec_lookup(
        p.state.name_map@,
        name,
    ) is Some)
}

/// The text of the current token, as the name being bound.
pub open spec fn spec_cur_name(p: &Parser) -> Seq<char> {
    p.source@.subrange(p.cur_spec().range.start as int, p.cur_spec().range.end as int)
}

fn build_strict_reserved_message(name: &Vec<char>) -> (r: Vec<char>)
    ensures
        r@ == strict_reserved_message(name@),
{
    let mut r = chars_of("Illegal use of `");
    push_chars(&mut r, name);
    let tail = chars_of("` as an identifier in strict mode");
    push_chars(&mut r, &tail);
    r
}

fn build_first_declared_message(name: &Vec<char>) -> (r: Vec<char>)
    ensures
        r@ == first_declared_message(name@),
{
    let mut r: Vec<char> = Vec::new();
    push_chars(&mut r, name);
    let tail = chars_of(" is first declared here");
    push_chars(&mut r, &tail);
    proof {
        assert(r@ =~= first_declared_message(name@));
    }
    r
}

/// First-declaration range of `name` in the declarator list, if any.
fn lookup_name(map: &Vec<(Vec<char>, TextRange)>, name: &Vec<char>) -> (r: Option<TextRange>)
    ensures
        r == ParserState::spec_lookup(map@, name@),
{
    let mut i: usize = 0;
    proof {
        assert(map@.skip(0) =~= map@);
    }
    while i < map.len()
        invariant
            i <= map@.len(),
            ParserState::spec_lookup(map@, name@) == ParserState::spec_lookup(
                map@.skip(i as int),
                name@,
            ),
        decreases map@.len() - i,
    {
        proof {
            assert(map@.skip(i as int)[0] == map@[i as int]);
            assert(map@.skip(i as int).drop_first() =~= map@.skip(i + 1));
        }
        if chars_eq(&map[i].0, name) {
            return Some(map[i].1);
        }
        i = i + 1;
    }
    proof {
        assert(map@.skip(map@.len() as int).len() == 0);
    }
    None
}

/// True when an identifier binding could start here.
pub fn is_at_identifier_binding(p: &Parser) -> (b: bool)
    requires
        p.wf(),
    ensures
        b == at_ident_binding(p),
{
    p.at(SyntaxKind::Ident) || p.at(SyntaxKind::LetKw)
}

/// Parses an identifier binding, or classifies it invalid when the name is
/// not allowed in this context:
/// `eval`/`arguments` under strict mode; `let` inside a `let`/`const`
/// declaration; a name already bound in the same declarator list (the
/// diagnostic's secondary label points at the first declaration). A valid
/// binding is recorded in the name map when names are being recorded.
pub fn parse_identifier_binding(p: &mut Parser) -> (r: ParsedSyntax<ConditionalSyntax>)
    requires
        old(p).wf(),
        old(p).open_markers@.len() > 0,
    ensures
        rule_frame(old(p), final(p)),
        same_mode(old(p), final(p)),
        !at_ident_binding(old(p)) ==> r is Absent && *final(p) == *old(p),
        r is Absent ==> *final(p) == *old(p),
        at_ident_binding(old(p)) ==> {
            let name = spec_cur_name(old(p));
            let range = old(p).cur_spec().range;
            let strict_bad = old(p).state.strict_mode && is_strict_reserved(name);
            let let_bad = !strict_bad && old(p).state.should_record_names && name
                == crate::lexer::let_text();
            let dup = if !strict_bad && !let_bad && old(p).state.should_record_names {
                ParserState::spec_lookup(old(p).state.name_map@, name)
            } else {
                None
            };
            &&& r is Present
            &&& r.get().spec_marker().kind == SyntaxKind::JsIdentifierBinding
            &&& r.get().spec_marker().range == range
            &&& r.get().spec_marker().undoable_in(final(p))
            &&& r.get().spec_marker().child_slots@ == 1
            &&& final(p).pos > old(p).pos
            &&& one_slot_added(old(p), final(p))
            &&& (r.get() is Valid <==> (!strict_bad && !let_bad && dup is None))
            &&& (strict_bad ==> final(p).diagnostics@.len() == old(p).diagnostics@.len() + 1
                && final(p).diagnostics@.last().range == range
                && final(p).diagnostics@.last().message@ == strict_reserved_message(name)
                && final(p).diagnostics@.last().secondary is None)
            &&& (let_bad ==> final(p).diagnostics@.len() == old(p).diagnostics@.len() + 1
                && final(p).diagnostics@.last().range == range
                && final(p).diagnostics@.last().message@ == let_rejected_message()
                && final(p).diagnostics@.last().secondary is None)
            &&& (dup matches Some(first) ==> final(p).diagnostics@.len()
                == old(p).diagnostics@.len() + 1 && final(p).diagnostics@.last().range == range
                && final(p).diagnostics@.last().message@ == duplicate_message()
                && (final(p).diagnostics@.last().secondary matches Some(l) && l.range == first
                && l.message@ == first_declared_message(name)))
            &&& (r.get() is Valid ==> final(p).diagnostics@ == old(p).diagnostics@)
            &&& (r.get() is Valid && old(p).state.should_record_names ==> {
                &&& final(p).state.name_map@.len() == old(p).state.name_map@.len() + 1
                &&& final(p).state.name_map@.drop_last() == old(p).state.name_map@
                &&& final(p).state.name_map@.last().0@ == name
                &&& final(p).state.name_map@.last().1 == range
            })
            &&& (r.get() is Valid && !old(p).state.should_record_names
                ==> final(p).state.name_map@ == old(p).state.name_map@)
            &&& (!(r.get() is Valid) ==> final(p).state.name_map@ == old(p).state.name_map@)
        },
{
    if !(p.at(SyntaxKind::Ident) || p.at(SyntaxKind::LetKw)) {
        return ParsedSyntax::Absent;
    }
    let tok = p.cur_tok();
    proof {
        crate::lexer::lemma_chained_facts(p.tokens@, 0, p.source@.len() as int, p.pos as int);
    }
    let ghost markers0 = p.open_markers@;
    let ghost kids0 = p.open_children@;
    let m = p.start();
    p.bump(tok.kind);
    let ghost mpos = m.pos;
    let cm = m.complete(p, SyntaxKind::JsIdentifierBinding);
    proof {
        assert(markers0.push(mpos).drop_last() =~= markers0);
        assert(kids0.push(0).update(kids0.len() as int, 1).drop_last() =~= kids0);
        assert(p.open_children@ =~= kids0.update(kids0.len() - 1, kids0.last() + 1));
    }
    let name = p.token_text(tok);
    if p.state.strict_mode {
        let is_eval = chars_eq(&name, &chars_of("eval"));
        let is_arguments = chars_eq(&name, &chars_of("arguments"));
        if is_eval || is_arguments {
            let message = build_strict_reserved_message(&name);
            p.error(ParseDiagnostic::new(cm.range, message));
                        return ParsedSyntax::Present(
                ConditionalSyntax::Invalid(InvalidParsedSyntax::new(cm)),
            );
        }
    }
    if p.state.should_record_names {
        proof {
            reveal_strlit("let");
            assert("let"@ =~= crate::lexer::let_text());
        }
        if chars_eq(&name, &chars_of("let")) {
            let message = chars_of(
                "`let` cannot be declared as a variable name inside of a let or const declaration",
            );
            p.error(ParseDiagnostic::new(cm.range, message));
                        return ParsedSyntax::Present(
                ConditionalSyntax::Invalid(InvalidParsedSyntax::new(cm)),
            );
        }
        match lookup_name(&p.state.name_map, &name) {
            Some(first) => {
                let message = chars_of(
                    "Declarations inside of a `let` or `const` declaration may not have duplicates",
                );
                let secondary_message = build_first_declared_message(&name);
                p.error(
                    ParseDiagnostic::with_secondary(cm.range, message, first, secondary_message),
                );
                                return ParsedSyntax::Present(
                    ConditionalSyntax::Invalid(InvalidParsedSyntax::new(cm)),
                );
            },
            None => {
                p.state.name_map.push((name, cm.range));
            },
        }
    }
        ParsedSyntax::Present(ConditionalSyntax::Valid(cm))
}

/// True when a binding pattern could start here.
pub open spec fn at_binding_start(p: &Parser) -> bool {
    ||| at_ident_binding(p)
    ||| p.cur_spec().kind == SyntaxKind::LBrack
    ||| (p.cur_spec().kind == SyntaxKind::LCurly && p.state.allow_object_expr)
}

/// The kinds a produced binding node can have.
pub open spec fn is_binding_kind(kind: SyntaxKind) -> bool {
    ||| kind == SyntaxKind::JsIdentifierBinding
    ||| kind == SyntaxKind::JsUnknownBinding
    ||| kind == SyntaxKind::JsArrayBinding
    ||| kind == SyntaxKind::JsObjectBinding
}

/// Parses a binding: an identifier (possibly folded to an unknown binding
/// when invalid here), an array pattern, or — where object patterns are
/// allowed — an object pattern. An identifier that is invalid as a binding
/// never appears as a normal node: it comes back with the unknown kind.
pub fn parse_binding(p: &mut Parser) -> (r: ParsedSyntax<CompletedMarker>)
    requires
        old(p).wf(),
        old(p).open_markers@.len() > 0,
    ensures
        rule_frame(old(p), final(p)),
        same_mode(old(p), final(p)),
        r is Absent <==> !at_binding_start(old(p)),
        r is Absent ==> *final(p) == *old(p),
        r is Present ==> {
            &&& final(p).pos > old(p).pos
            &&& r.get().undoable_in(final(p))
            &&& one_slot_added(old(p), final(p))
            &&& is_binding_kind(r.get().kind)
            &&& r.get().range.start == old(p).cur_spec().range.start
        },
        old(p).cur_spec().kind == SyntaxKind::LBrack && r is Present ==> r.get().kind
            == SyntaxKind::JsArrayBinding,
        old(p).cur_spec().kind == SyntaxKind::LCurly && r is Present ==> r.get().kind
            == SyntaxKind::JsObjectBinding,
        at_ident_binding(old(p)) && r is Present ==> {
            &&& r.get().kind == (if binding_name_allowed(old(p)) {
                SyntaxKind::JsIdentifierBinding
            } else {
                SyntaxKind::JsUnknownBinding
            })
            &&& r.get().range == old(p).cur_spec().range
            &&& (binding_name_allowed(old(p)) ==> final(p).diagnostics@ == old(p).diagnostics@)
            &&& (!binding_name_allowed(old(p)) ==> final(p).diagnostics@.len() == old(
                p,
            ).diagnostics@.len() + 1)
        },
    decreases old(p).tokens@.len() - old(p).pos, 1int,
{
    let kind = p.cur();
    if kind == SyntaxKind::LBrack {
        parse_array_binding_pattern(p)
    } else if kind == SyntaxKind::LCurly && p.state.allow_object_expr {
        parse_object_binding_pattern(p)
    } else if kind == SyntaxKind::Ident || kind == SyntaxKind::LetKw {
        let parsed = parse_identifier_binding(p);
        parsed.or_invalid_to_unknown(p, SyntaxKind::JsUnknownBinding)
    } else {
        ParsedSyntax::Absent
    }
}

/// Parses a binding followed by an optional `= default` initializer; with an
/// initializer the binding is wrapped into a three-slot node (pattern,
/// operator, default value).
pub fn parse_binding_with_optional_default(p: &mut Parser) -> (r: ParsedSyntax<CompletedMarker>)
    requires
        old(p).wf(),
        old(p).open_markers@.len() > 0,
    ensures
        rule_frame(old(p), final(p)),
        same_mode(old(p), final(p)),
        r is Absent <==> (!at_binding_start(old(p)) && old(p).cur_spec().kind != SyntaxKind::Eq),
        r is Absent ==> *final(p) == *old(p),
        r is Present ==> {
            &&& final(p).pos > old(p).pos
            &&& r.get().undoable_in(final(p))
            &&& one_slot_added(old(p), final(p))
            &&& (is_binding_kind(r.get().kind) || r.get().kind == SyntaxKind::JsBindingWithDefault)
            &&& (r.get().kind == SyntaxKind::JsBindingWithDefault ==> r.get().child_slots@ == 3)
        },
    decreases old(p).tokens@.len() - old(p).pos, 2int,
{
    let ghost markers0 = p.open_markers@;
    let ghost kids0 = p.open_children@;
    let pattern = parse_binding(p);
    if !p.at(SyntaxKind::Eq) {
        return pattern;
    }
    let ghost pattern_present = pattern is Present;
    let m = pattern.precede_or_missing_with_error(
        p,
        chars_of("Expected an identifier, an array pattern or an object pattern"),
    );
    let ghost mpos = m.pos;
    proof {
        if pattern_present {
            assert(kids0.update(kids0.len() - 1, kids0.last() + 1).update(
                kids0.len() - 1,
                kids0.last(),
            ) =~= kids0);
        }
        assert(p.open_children@ =~= kids0.push(1));
    }
    p.bump(SyntaxKind::Eq);
    let value = crate::grammar::parse_expression(p);
    value.or_missing_with_error(p, chars_of("Expected an expression"));
    let cm = m.complete(p, SyntaxKind::JsBindingWithDefault);
    proof {
        assert(markers0.push(mpos).drop_last() =~= markers0);
        assert(kids0.push(1).update(kids0.len() as int, 2).update(kids0.len() as int, 3)
            .drop_last() =~= kids0);
        assert(p.open_children@ =~= kids0.update(kids0.len() - 1, kids0.last() + 1));
    }
    ParsedSyntax::Present(cm)
}

/// Parses `... binding` inside an array pattern (two slots).
fn parse_array_rest_binding(p: &mut Parser) -> (r: ParsedSyntax<CompletedMarker>)
    requires
        old(p).wf(),
        old(p).open_markers@.len() > 0,
    ensures
        rule_frame(old(p), final(p)),
        same_mode(old(p), final(p)),
        r is Absent <==> old(p).cur_spec().kind != SyntaxKind::DotDotDot,
        r is Absent ==> *final(p) == *old(p),
        r is Present ==> {
            &&& final(p).pos > old(p).pos
            &&& r.get().undoable_in(final(p))
            &&& one_slot_added(old(p), final(p))
            &&& r.get().kind == SyntaxKind::JsArrayRestBinding
            &&& r.get().child_slots@ == 2
        },
    decreases old(p).tokens@.len() - old(p).pos, 0int,
{
    if !p.at(SyntaxKind::DotDotDot) {
        return ParsedSyntax::Absent;
    }
    let ghost markers0 = p.open_markers@;
    let ghost kids0 = p.open_children@;
    let m = p.start();
    let ghost mpos = m.pos;
    p.bump(SyntaxKind::DotDotDot);
    let inner = parse_binding(p);
    inner.or_missing_with_error(
        p,
        chars_of("Expected an identifier, an array pattern or an object pattern"),
    );
    let cm = m.complete(p, SyntaxKind::JsArrayRestBinding);
    proof {
        assert(markers0.push(mpos).drop_last() =~= markers0);
        assert(kids0.push(0).update(kids0.len() as int, 1).update(kids0.len() as int, 2)
            .drop_last() =~= kids0);
        assert(p.open_children@ =~= kids0.update(kids0.len() - 1, kids0.last() + 1));
    }
    ParsedSyntax::Present(cm)
}

/// Parses `[ elements ]`: bindings with optional defaults, holes and rest
/// elements, recovering inside the brackets on anything unexpected.
#[verifier::loop_isolation(false)]
pub fn parse_array_binding_pattern(p: &mut Parser) -> (r: ParsedSyntax<CompletedMarker>)
    requires
        old(p).wf(),
        old(p).open_markers@.len() > 0,
    ensures
        rule_frame(old(p), final(p)),
        same_mode(old(p), final(p)),
        r is Absent <==> old(p).cur_spec().kind != SyntaxKind::LBrack,
        r is Absent ==> *final(p) == *old(p),
        r is Present ==> {
            &&& final(p).pos > old(p).pos
            &&& r.get().undoable_in(final(p))
            &&& one_slot_added(old(p), final(p))
            &&& r.get().kind == SyntaxKind::JsArrayBinding
            &&& r.get().range.start == old(p).cur_spec().range.start
        },
    decreases old(p).tokens@.len() - old(p).pos, 0int,
{
    if !p.at(SyntaxKind::LBrack) {
        return ParsedSyntax::Absent;
    }
    let ghost markers0 = p.open_markers@;
    let ghost kids0 = p.open_children@;
    let m = p.start();
    let ghost mpos = m.pos;
    p.bump(SyntaxKind::LBrack);
    proof {
        assert(p.open_children@.drop_last() =~= kids0);
    }
    let mut safe: Vec<SyntaxKind> = Vec::new();
    safe.push(SyntaxKind::RBrack);
    safe.push(SyntaxKind::Comma);
    let recovery = ParseRecovery::new(safe, SyntaxKind::JsUnknownBinding);
    let mut done: usize = 0;
    while done == 0 && !p.at(SyntaxKind::RBrack) && !p.at(SyntaxKind::Eof)
        invariant
            p.wf(),
            frame_keep(old(p), p),
            p.state.strict_mode == old(p).state.strict_mode,
            p.state.should_record_names == old(p).state.should_record_names,
            p.state.allow_object_expr == old(p).state.allow_object_expr,
            p.pos > old(p).pos,
            m.is_top_of(p),
            p.open_markers@ == old(p).open_markers@.push(mpos),
            p.open_children@.len() == old(p).open_children@.len() + 1,
            p.open_children@.drop_last() == old(p).open_children@,
            m.text_start <= p.source@.len(),
            done <= 1,
        decreases p.tokens@.len() - p.pos + 1 - done,
    {
        if p.at(SyntaxKind::Comma) {
            p.missing();
            p.bump(SyntaxKind::Comma);
        } else {
            let elem = if p.at(SyntaxKind::DotDotDot) {
                parse_array_rest_binding(p)
            } else {
                parse_binding_with_optional_default(p)
            };
            let res = elem.or_recover(
                p,
                &recovery,
                chars_of("Expected an identifier, object pattern, array pattern or rest pattern"),
            );
            match res {
                Ok(_) => {
                    if p.at(SyntaxKind::Comma) {
                        p.bump(SyntaxKind::Comma);
                    }
                },
                Err(_) => {
                    done = 1;
                },
            }
        }
        proof {
            assert(p.open_children@.drop_last() =~= old(p).open_children@);
        }
    }
    p.expect_required(
        SyntaxKind::RBrack,
        ParseDiagnostic::new(p.cur_tok().range, chars_of("Expected a closing bracket")),
    );
    proof {
        assert(p.open_children@.drop_last() =~= kids0);
    }
    let cm = m.complete(p, SyntaxKind::JsArrayBinding);
    proof {
        assert(markers0.push(mpos).drop_last() =~= markers0);
        assert(p.open_children@ =~= kids0.update(kids0.len() - 1, kids0.last() + 1));
    }
    ParsedSyntax::Present(cm)
}

/// Parses `{ properties }`: property and rest-property patterns, recovering
/// inside the braces on anything unexpected.
#[verifier::loop_isolation(false)]
pub fn parse_object_binding_pattern(p: &mut Parser) -> (r: ParsedSyntax<CompletedMarker>)
    requires
        old(p).wf(),
        old(p).open_markers@.len() > 0,
    ensures
        rule_frame(old(p), final(p)),
        same_mode(old(p), final(p)),
        r is Absent <==> old(p).cur_spec().kind != SyntaxKind::LCurly,
        r is Absent ==> *final(p) == *old(p),
        r is Present ==> {
            &&& final(p).pos > old(p).pos
            &&& r.get().undoable_in(final(p))
            &&& one_slot_added(old(p), final(p))
            &&& r.get().kind == SyntaxKind::JsObjectBinding
            &&& r.get().range.start == old(p).cur_spec().range.start
        },
    decreases old(p).tokens@.len() - old(p).pos, 0int,
{
    if !p.at(SyntaxKind::LCurly) {
        return ParsedSyntax::Absent;
    }
    let ghost markers0 = p.open_markers@;
    let ghost kids0 = p.open_children@;
    let m = p.start();
    let ghost mpos = m.pos;
    p.bump(SyntaxKind::LCurly);
    proof {
        assert(p.open_children@.drop_last() =~= kids0);
    }
    let mut safe: Vec<SyntaxKind> = Vec::new();
    safe.push(SyntaxKind::RCurly);
    safe.push(SyntaxKind::Comma);
    let recovery = ParseRecovery::new(safe, SyntaxKind::JsUnknownBinding);
    let mut done: usize = 0;
    while done == 0 && !p.at(SyntaxKind::RCurly) && !p.at(SyntaxKind::Eof)
        invariant
            p.wf(),
            frame_keep(old(p), p),
            p.state.strict_mode == old(p).state.strict_mode,
            p.state.should_record_names == old(p).state.should_record_names,
            p.state.allow_object_expr == old(p).state.allow_object_expr,
            p.pos > old(p).pos,
            m.is_top_of(p),
            p.open_markers@ == old(p).open_markers@.push(mpos),
            p.open_children@.len() == old(p).open_children@.len() + 1,
            p.open_children@.drop_last() == old(p).open_children@,
            m.text_start <= p.source@.len(),
            done <= 1,
        decreases p.tokens@.len() - p.pos + 1 - done,
    {
        let prop = if p.at(SyntaxKind::DotDotDot) {
            parse_rest_property_pattern(p)
        } else {
            parse_property_pattern(p)
        };
        let res = prop.or_recover(
            p,
            &recovery,
            chars_of("Expected an identifier, member name or rest pattern"),
        );
        match res {
            Ok(_) => {
                if p.at(SyntaxKind::Comma) {
                    p.bump(SyntaxKind::Comma);
                }
            },
            Err(_) => {
                done = 1;
            },
        }
        proof {
            assert(p.open_children@.drop_last() =~= old(p).open_children@);
            assert(p.wf());
            assert(p.pos > old(p).pos);
            assert(p.tokens@ == old(p).tokens@);
            assert(p.diagnostics@.len() >= old(p).diagnostics@.len());
            assert(p.leading == old(p).leading);
            assert(p.source@ == old(p).source@);
        }
    }
    p.expect_required(
        SyntaxKind::RCurly,
        ParseDiagnostic::new(p.cur_tok().range, chars_of("Expected a closing curly brace")),
    );
    proof {
        assert(p.open_children@.drop_last() =~= kids0);
    }
    let cm = m.complete(p, SyntaxKind::JsObjectBinding);
    proof {
        assert(markers0.push(mpos).drop_last() =~= markers0);
        assert(p.open_children@ =~= kids0.update(kids0.len() - 1, kids0.last() + 1));
        assert(p.pos > old(p).pos);
    }
    ParsedSyntax::Present(cm)
}

/// Parses one property of an object pattern: a shorthand binding
/// (two slots: binding, default clause), or `name: binding` with an optional
/// default (four slots: name, colon, binding, default clause). A shorthand
/// identifier that is invalid here is abandoned and the whole property
/// becomes an unknown binding. Every produced node keeps its fixed slot
/// count, with missing placeholders where input was absent.
#[verifier::rlimit(60)]
#[verifier::spinoff_prover]
pub fn parse_property_pattern(p: &mut Parser) -> (r: ParsedSyntax<CompletedMarker>)
    requires
        old(p).wf(),
        old(p).open_markers@.len() > 0,
    ensures
        rule_frame(old(p), final(p)),
        same_mode(old(p), final(p)),
        r is Absent <==> !(at_ident_binding(old(p)) || old(p).cur_spec().kind
            == SyntaxKind::Number || old(p).cur_spec().kind == SyntaxKind::Colon || old(
            p,
        ).cur_spec().kind == SyntaxKind::Eq),
        r is Absent ==> *final(p) == *old(p),
        r is Present ==> {
            &&& final(p).pos > old(p).pos
            &&& r.get().undoable_in(final(p))
            &&& one_slot_added(old(p), final(p))
            &&& (r.get().kind == SyntaxKind::JsShorthandPropertyBinding || r.get().kind
                == SyntaxKind::JsPropertyBinding || r.get().kind == SyntaxKind::JsUnknownBinding)
            &&& (r.get().kind == SyntaxKind::JsShorthandPropertyBinding ==> r.get().child_slots@
                == 2)
            &&& (r.get().kind == SyntaxKind::JsPropertyBinding ==> r.get().child_slots@ == 4)
        },
    decreases old(p).tokens@.len() - old(p).pos, 0int,
{
    let kind0 = p.cur();
    if kind0 != SyntaxKind::Ident && kind0 != SyntaxKind::LetKw && kind0 != SyntaxKind::Number
        && kind0 != SyntaxKind::Colon && kind0 != SyntaxKind::Eq {
        return ParsedSyntax::Absent;
    }
    let ghost markers0 = p.open_markers@;
    let ghost kids0 = p.open_children@;
    let m = p.start();
    let ghost mpos = m.pos;
    let shorthand = p.at(SyntaxKind::Eq) || (is_at_identifier_binding(p) && p.nth1()
        != SyntaxKind::Colon);
    let kind = if shorthand {
        match parse_identifier_binding(p) {
            ParsedSyntax::Absent => {
                p.missing();
                let range = p.cur_tok().range;
                p.error(ParseDiagnostic::new(range, chars_of("Expected an identifier")));
                SyntaxKind::JsShorthandPropertyBinding
            },
            ParsedSyntax::Present(conditional) => {
                match conditional {
                    ConditionalSyntax::Valid(_) => SyntaxKind::JsShorthandPropertyBinding,
                    ConditionalSyntax::Invalid(inv) => {
                        let ghost islots = inv.0.child_slots@;
                        inv.abandon(p);
                        proof {
                            assert(kids0.push(0).update(kids0.len() as int, 1).update(
                                kids0.len() as int,
                                0,
                            ) =~= kids0.push(0));
                            assert(kids0.push(0).push(islots).drop_last() =~= kids0.push(0));
                            assert(p.open_children@ =~= kids0.push(islots));
                        }
                        SyntaxKind::JsUnknownBinding
                    },
                }
            },
        }
    } else {
        let member = crate::grammar::parse_object_member_name(p);
        member.or_missing_with_error(p, chars_of("Expected the name of an object member"));
        let had_colon = p.expect_required(
            SyntaxKind::Colon,
            ParseDiagnostic::new(p.cur_tok().range, chars_of("Expected a colon")),
        );
        if had_colon {
            let inner = parse_binding(p);
            inner.or_missing_with_error(
                p,
                chars_of("Expected an identifier, an array pattern or an object pattern"),
            );
        } else {
            p.missing();
        }
        SyntaxKind::JsPropertyBinding
    };
    let clause = crate::grammar::parse_equal_value_clause(p);
    clause.or_missing(p);
    proof {
        assert(p.open_children@.drop_last() =~= kids0);
    }
    let cm = m.complete(p, kind);
    proof {
        assert(markers0.push(mpos).drop_last() =~= markers0);
        assert(p.open_children@ =~= kids0.update(kids0.len() - 1, kids0.last() + 1));
    }
    ParsedSyntax::Present(cm)
}

/// Finishes an object rest property from `inner`, the pattern parsed after
/// the `...` token, while `m` (the property's marker) is still open. A rest
/// pattern may only bind an identifier:
/// - `inner` absent: the slot is recorded missing, one "Expected an
///   identifier" diagnostic is emitted at the current token, and the node
///   completes as an object-rest binding;
/// - `inner` an identifier binding: the node completes as an object-rest
///   binding, nothing is reported;
/// - any other inner pattern: it is undone, the whole node completes as an
///   unknown binding, and exactly one diagnostic is emitted on the inner
///   range — unless the inner pattern was itself already an unknown binding,
///   whose rejection was already reported: then no duplicate error is added.
pub fn finish_rest_property(
    p: &mut Parser,
    m: Marker,
    inner: ParsedSyntax<CompletedMarker>,
) -> (cm: CompletedMarker)
    requires
        old(p).wf(),
        m.is_top_of(old(p)),
        m.text_start <= old(p).source@.len(),
        inner.usable_in(old(p)),
        inner is Present ==> old(p).open_children@.last() >= 1,
    ensures
        final(p).wf(),
        final(p).source@ == old(p).source@,
        final(p).tokens@ == old(p).tokens@,
        final(p).leading == old(p).leading,
        final(p).pos == old(p).pos,
        final(p).last_end == old(p).last_end,
        final(p).state == old(p).state,
        final(p).open_markers@ == old(p).open_markers@.drop_last(),
        final(p).open_children@ == (if old(p).open_children@.len() >= 2 {
            old(p).open_children@.drop_last().update(
                old(p).open_children@.len() - 2,
                old(p).open_children@[old(p).open_children@.len() - 2] + 1,
            )
        } else {
            old(p).open_children@.drop_last()
        }),
        cm.complete_in(final(p)),
        cm.undoable_in(final(p)),
        cm.range.start == m.text_start,
        cm.kind == (match inner {
            ParsedSyntax::Absent => SyntaxKind::JsObjectRestBinding,
            ParsedSyntax::Present(i) => if i.kind == SyntaxKind::JsIdentifierBinding {
                SyntaxKind::JsObjectRestBinding
            } else {
                SyntaxKind::JsUnknownBinding
            },
        }),
        cm.child_slots@ == (match inner {
            ParsedSyntax::Absent => old(p).open_children@.last() + 1,
            ParsedSyntax::Present(i) => if i.kind == SyntaxKind::JsIdentifierBinding {
                old(p).open_children@.last()
            } else {
                old(p).open_children@.last() - 1 + i.child_slots@
            },
        }),
        inner is Absent ==> {
            &&& final(p).diagnostics@.len() == old(p).diagnostics@.len() + 1
            &&& final(p).diagnostics@.drop_last() == old(p).diagnostics@
            &&& final(p).diagnostics@.last().range == old(p).cur_spec().range
            &&& final(p).diagnostics@.last().message@ == expected_identifier_message()
            &&& final(p).diagnostics@.last().secondary is None
        },
        (inner matches ParsedSyntax::Present(i) ==> ((i.kind == SyntaxKind::JsIdentifierBinding
            || i.kind == SyntaxKind::JsUnknownBinding) ==> final(p).diagnostics@ == old(
            p,
        ).diagnostics@)),
        (inner matches ParsedSyntax::Present(i) ==> ((i.kind != SyntaxKind::JsIdentifierBinding
            && i.kind != SyntaxKind::JsUnknownBinding) ==> {
            &&& final(p).diagnostics@.len() == old(p).diagnostics@.len() + 1
            &&& final(p).diagnostics@.drop_last() == old(p).diagnostics@
            &&& final(p).diagnostics@.last().range == i.range
            &&& final(p).diagnostics@.last().message@ == rest_must_bind_identifier_message()
            &&& final(p).diagnostics@.last().secondary is None
        })),
{
    match inner {
        ParsedSyntax::Present(inner_cm) => {
            if inner_cm.kind != SyntaxKind::JsIdentifierBinding {
                let inner_range = inner_cm.range;
                let inner_kind = inner_cm.kind;
                let ghost islots = inner_cm.child_slots@;
                let m_inner = inner_cm.undo_completion(p);
                let ghost ipos = m_inner.pos;
                m_inner.abandon(p);
                proof {
                    assert(old(p).open_markers@.push(ipos).drop_last() =~= old(p).open_markers@);
                    let adj = old(p).open_children@.update(
                        old(p).open_children@.len() - 1,
                        old(p).open_children@.last() - 1,
                    );
                    assert(adj.push(islots).drop_last() =~= adj);
                    assert(p.open_children@ =~= old(p).open_children@.update(
                        old(p).open_children@.len() - 1,
                        old(p).open_children@.last() - 1 + islots,
                    ));
                    assert(p.open_children@.drop_last() =~= old(p).open_children@.drop_last());
                }
                let ghost kids_mid = p.open_children@;
                let cm = m.complete(p, SyntaxKind::JsUnknownBinding);
                proof {
                    assert(kids_mid.drop_last() =~= old(p).open_children@.drop_last());
                }
                if inner_kind != SyntaxKind::JsUnknownBinding {
                    let ghost diags_mid = p.diagnostics@;
                    p.error(
                        ParseDiagnostic::new(
                            inner_range,
                            chars_of(
                                "Object rest patterns must bind to an identifier, other patterns are not allowed",
                            ),
                        ),
                    );
                    proof {
                        assert(p.diagnostics@.drop_last() =~= diags_mid);
                    }
                }
                cm
            } else {
                m.complete(p, SyntaxKind::JsObjectRestBinding)
            }
        },
        ParsedSyntax::Absent => {
            p.missing();
            let range = p.cur_tok().range;
            let ghost diags_mid = p.diagnostics@;
            p.error(ParseDiagnostic::new(range, chars_of("Expected an identifier")));
            proof {
                assert(p.diagnostics@.drop_last() =~= diags_mid);
                assert(p.open_children@.drop_last() =~= old(p).open_children@.drop_last());
            }
            m.complete(p, SyntaxKind::JsObjectRestBinding)
        },
    }
}

/// Parses `... binding` as an object rest property. A rest pattern may only
/// bind an identifier: any other inner pattern is undone and the whole node
/// becomes an unknown binding, with one diagnostic on the inner range unless
/// the inner pattern was itself already an unknown binding (no duplicate
/// errors); a missing inner pattern is recorded as a missing slot with one
/// "Expected an identifier" diagnostic. [`finish_rest_property`] states the
/// full rule exactly, keyed on the inner pattern.
pub fn parse_rest_property_pattern(p: &mut Parser) -> (r: ParsedSyntax<CompletedMarker>)
    requires
        old(p).wf(),
        old(p).open_markers@.len() > 0,
    ensures
        rule_frame(old(p), final(p)),
        same_mode(old(p), final(p)),
        r is Absent <==> old(p).cur_spec().kind != SyntaxKind::DotDotDot,
        r is Absent ==> *final(p) == *old(p),
        r is Present ==> {
            &&& final(p).pos > old(p).pos
            &&& r.get().undoable_in(final(p))
            &&& one_slot_added(old(p), final(p))
            &&& (r.get().kind == SyntaxKind::JsObjectRestBinding || r.get().kind
                == SyntaxKind::JsUnknownBinding)
            &&& (r.get().kind == SyntaxKind::JsObjectRestBinding ==> r.get().child_slots@ == 2)
        },
        r is Present && r.get().kind == SyntaxKind::JsObjectRestBinding ==> (final(p).diagnostics@
            == old(p).diagnostics@ || {
            &&& final(p).diagnostics@.len() == old(p).diagnostics@.len() + 1
            &&& final(p).diagnostics@.drop_last() == old(p).diagnostics@
            &&& final(p).diagnostics@.last().range == final(p).cur_spec().range
            &&& final(p).diagnostics@.last().message@ == expected_identifier_message()
            &&& final(p).diagnostics@.last().secondary is None
        }),
        r is Present && r.get().kind == SyntaxKind::JsUnknownBinding ==> final(p).diagnostics@.len()
            > old(p).diagnostics@.len(),
    decreases old(p).tokens@.len() - old(p).pos, 0int,
{
    if !p.at(SyntaxKind::DotDotDot) {
        return ParsedSyntax::Absent;
    }
    let ghost markers0 = p.open_markers@;
    let ghost kids0 = p.open_children@;
    let m = p.start();
    let ghost mpos = m.pos;
    p.bump(SyntaxKind::DotDotDot);
    let inner = parse_binding(p);
    let ghost kids_mid = p.open_children@;
    let cm = finish_rest_property(p, m, inner);
    proof {
        assert(markers0.push(mpos).drop_last() =~= markers0);
        assert(kids_mid.drop_last() =~= kids0);
        assert(p.open_children@ =~= kids0.update(kids0.len() - 1, kids0.last() + 1));
    }
    ParsedSyntax::Present(cm)
}

} // verus!

//! The analyzer host and its three analyzers: a fixed, ordered pipeline run
//! against one file, aggregating diagnostics and fix actions.
//!
//! Aggregation concatenates every analyzer's output; the final order follows
//! analyzer-list order, not source order, and is not re-sorted. An analyzer
//! that anchors its actions at the cursor contributes no actions when the
//! cursor range is absent, but may still contribute diagnostics.

use vstd::prelude::*;

use crate::db::{FileId, RootDatabase};
use crate::kind::SyntaxKind;
use crate::text::{chars_of, push_chars, TextRange};
use crate::tree::{
    nodes_of_kind_view, refs_in_range_view, refs_view, ChildSlot, SyntaxNodeRef,
    SyntaxNodeRefView, SyntaxTree,
};

verus! {

/// A problem reported by an analyzer: a range and a message.
#[derive(Debug)]
pub struct Diagnostic {
    pub range: TextRange,
    pub message: Vec<char>,
}

/// Mathematical image of a [`Diagnostic`].
pub struct DiagnosticView {
    pub range: TextRange,
    pub message: Seq<char>,
}

impl View for Diagnostic {
    type V = DiagnosticView;

    open spec fn view(&self) -> DiagnosticView {
        DiagnosticView { range: self.range, message: self.message@ }
    }
}

/// A detached node or token, with the text it stands for.
#[derive(Debug)]
pub struct SyntaxElement {
    pub kind: SyntaxKind,
    pub range: TextRange,
    pub text: Vec<char>,
}

/// Mathematical image of a [`SyntaxElement`].
pub struct SyntaxElementView {
    pub kind: SyntaxKind,
    pub range: TextRange,
    pub text: Seq<char>,
}

impl View for SyntaxElement {
    type V = SyntaxElementView;

    open spec fn view(&self) -> SyntaxElementView {
        SyntaxElementView { kind: self.kind, range: self.range, text: self.text@ }
    }
}

/// One edit of a fix: the element to replace and its replacement.
#[derive(Debug)]
pub struct Replacement {
    pub before: SyntaxElement,
    pub after: SyntaxElement,
}

/// Mathematical image of a [`Replacement`].
pub struct ReplacementView {
    pub before: SyntaxElementView,
    pub after: SyntaxElementView,
}

impl View for Replacement {
    type V = ReplacementView;

    open spec fn view(&self) -> ReplacementView {
        ReplacementView { before: self.before@, after: self.after@ }
    }
}

/// A fix action: a title, the ordered replacements, and the diagnostics that
/// motivated it.
#[derive(Debug)]
pub struct Action {
    pub title: Vec<char>,
    pub replacements: Vec<Replacement>,
    pub diagnostics: Vec<Diagnostic>,
}

/// Mathematical image of an [`Action`].
pub struct ActionView {
    pub title: Seq<char>,
    pub replacements: Seq<ReplacementView>,
    pub diagnostics: Seq<DiagnosticView>,
}

impl View for Action {
    type V = ActionView;

    open spec fn view(&self) -> ActionView {
        ActionView {
            title: self.title@,
            replacements: self.replacements@.map(|i: int, r: Replacement| r@),
            diagnostics: self.diagnostics@.map(|i: int, d: Diagnostic| d@),
        }
    }
}

/// What one analyzer produced.
#[derive(Debug)]
pub struct AnalyzerSignal {
    pub diagnostics: Vec<Diagnostic>,
    pub actions: Vec<Action>,
}

/// Mathematical image of an [`AnalyzerSignal`].
pub struct AnalyzerSignalView {
    pub diagnostics: Seq<DiagnosticView>,
    pub actions: Seq<ActionView>,
}

impl View for AnalyzerSignal {
    type V = AnalyzerSignalView;

    open spec fn view(&self) -> AnalyzerSignalView {
        AnalyzerSignalView {
            diagnostics: self.diagnostics@.map(|i: int, d: Diagnostic| d@),
            actions: self.actions@.map(|i: int, a: Action| a@),
        }
    }
}

impl AnalyzerSignal {
    pub fn new() -> (r: AnalyzerSignal)
        ensures
            r@.diagnostics =~= Seq::<DiagnosticView>::empty(),
            r@.actions =~= Seq::<ActionView>::empty(),
    {
        AnalyzerSignal { diagnostics: Vec::new(), actions: Vec::new() }
    }

    /// Appends one diagnostic.
    pub fn add_diagnostic(&mut self, d: Diagnostic)
        ensures
            final(self)@.diagnostics =~= old(self)@.diagnostics.push(d@),
            final(self)@.actions == old(self)@.actions,
    {
        self.diagnostics.push(d);
        proof {
            assert(self@.diagnostics =~= old(self)@.diagnostics.push(
                self.diagnostics@.last()@,
            ));
            assert(self@.actions =~= old(self)@.actions);
        }
    }

    /// Appends one action.
    pub fn add_action(&mut self, a: Action)
        ensures
            final(self)@.actions =~= old(self)@.actions.push(a@),
            final(self)@.diagnostics == old(self)@.diagnostics,
    {
        self.actions.push(a);
        proof {
            assert(self@.actions =~= old(self)@.actions.push(self.actions@.last()@));
            assert(self@.diagnostics =~= old(self)@.diagnostics);
        }
    }
}

/// One unit of analyzer output.
#[derive(Debug)]
pub enum Signal {
    Diagnostic(Diagnostic),
    Action(Action),
}

impl From<Diagnostic> for Signal {
    fn from(d: Diagnostic) -> (r: Signal) {
        Signal::Diagnostic(d)
    }
}

impl vstd::std_specs::convert::FromSpecImpl<Diagnostic> for Signal {
    open spec fn obeys_from_spec() -> bool {
        true
    }

    open spec fn from_spec(d: Diagnostic) -> Signal {
        Signal::Diagnostic(d)
    }
}

impl From<Action> for Signal {
    fn from(a: Action) -> (r: Signal) {
        Signal::Action(a)
    }
}

impl vstd::std_specs::convert::FromSpecImpl<Action> for Signal {
    open spec fn obeys_from_spec() -> bool {
        true
    }

    open spec fn from_spec(a: Action) -> Signal {
        Signal::Action(a)
    }
}

/// What the analyzers see of one request: the file and, when the request is
/// anchored at a cursor, its range.
pub struct AnalyzerContext {
    pub file_id: FileId,
    pub cursor_range: Option<TextRange>,
}

impl AnalyzerContext {
    pub fn new(file_id: FileId, cursor_range: Option<TextRange>) -> (r: AnalyzerContext)
        ensures
            r.file_id == file_id,
            r.cursor_range == cursor_range,
    {
        AnalyzerContext { file_id, cursor_range }
    }
}

/// A name is in all caps when no character of it is a lowercase letter.
pub open spec fn is_all_caps(t: Seq<char>) -> bool {
    forall|i: int| 0 <= i < t.len() ==> !('a' <= #[trigger] t[i] && t[i] <= 'z')
}

fn is_all_caps_exec(t: &Vec<char>) -> (b: bool)
    ensures
        b == is_all_caps(t@),
{
    let mut i: usize = 0;
    while i < t.len()
        invariant
            i <= t@.len(),
            forall|k: int| 0 <= k < i ==> !('a' <= #[trigger] t@[k] && t@[k] <= 'z'),
        decreases t@.len() - i,
    {
        if 'a' <= t[i] && t[i] <= 'z' {
            return false;
        }
        i = i + 1;
    }
    true
}

/// Message of the all-caps diagnostic for `name`.
pub open spec fn all_caps_message(name: Seq<char>) -> Seq<char> {
    "rome: the name "@ + name + " is in all caps."@
}

/// Text of a range of the source.
pub open spec fn text_at(src: Seq<char>, range: TextRange) -> Seq<char> {
    src.subrange(range.start as int, range.end as int)
}

/// Diagnostics of the all-caps analyzer: one per identifier binding whose
/// name is in all caps, in source order.
pub open spec fn all_caps_diags(nodes: Seq<SyntaxNodeRefView>, src: Seq<char>) -> Seq<
    DiagnosticView,
>
    decreases nodes.len(),
{
    if nodes.len() == 0 {
        Seq::empty()
    } else {
        all_caps_diags(nodes.drop_last(), src) + (if is_all_caps(
            text_at(src, nodes.last().range),
        ) {
            seq![
                DiagnosticView {
                    range: nodes.last().range,
                    message: all_caps_message(text_at(src, nodes.last().range)),
                },
            ]
        } else {
            Seq::empty()
        })
    }
}

/// A binary-expression reference whose operator slot is `==`.
pub open spec fn is_double_eq_node(n: SyntaxNodeRefView) -> bool {
    n.children.len() == 3 && n.children[1].kind == SyntaxKind::Eq2
}

/// Message of the double-equals diagnostic.
pub open spec fn double_eq_message() -> Seq<char> {
    "rome: do not use == operator"@
}

/// Diagnostics of the double-equals analyzer: one per `==` operator.
pub open spec fn double_eq_diags(nodes: Seq<SyntaxNodeRefView>) -> Seq<DiagnosticView>
    decreases nodes.len(),
{
    if nodes.len() == 0 {
        Seq::empty()
    } else {
        double_eq_diags(nodes.drop_last()) + (if is_double_eq_node(nodes.last()) {
            seq![
                DiagnosticView {
                    range: nodes.last().children[1].range,
                    message: double_eq_message(),
                },
            ]
        } else {
            Seq::empty()
        })
    }
}

/// The fix offered on one `==` operator: replace it with `===`.
pub open spec fn double_eq_action(op_range: TextRange, src: Seq<char>) -> ActionView {
    ActionView {
        title: "rome: Change to ==="@,
        replacements: seq![
            ReplacementView {
                before: SyntaxElementView {
                    kind: SyntaxKind::Eq2,
                    range: op_range,
                    text: text_at(src, op_range),
                },
                after: SyntaxElementView {
                    kind: SyntaxKind::Eq3,
                    range: op_range,
                    text: "==="@,
                },
            },
        ],
        diagnostics: seq![
            DiagnosticView { range: op_range, message: double_eq_message() },
        ],
    }
}

/// Actions of the double-equals analyzer: one per `==` operator covered by
/// the cursor range; none when the cursor range is absent.
pub open spec fn double_eq_actions(
    nodes: Seq<SyntaxNodeRefView>,
    src: Seq<char>,
    cursor: Option<TextRange>,
) -> Seq<ActionView>
    decreases nodes.len(),
{
    if nodes.len() == 0 {
        Seq::empty()
    } else {
        double_eq_actions(nodes.drop_last(), src, cursor) + (if is_double_eq_node(nodes.last())
            && (cursor matches Some(c) && nodes.last().children[1].range.spec_contains_range(c)) {
            seq![double_eq_action(nodes.last().children[1].range, src)]
        } else {
            Seq::empty()
        })
    }
}

/// A binary-expression reference both of whose operand slots are present.
pub open spec fn is_swappable_node(n: SyntaxNodeRefView) -> bool {
    n.children.len() == 3 && n.children[0].kind != SyntaxKind::Missing && n.children[2].kind
        != SyntaxKind::Missing
}

/// The fix offered on one binary expression: swap its operands. Applying the
/// two replacements swaps the sides; applying the pair to the result
/// restores the original text.
pub open spec fn swap_action(n: SyntaxNodeRefView, src: Seq<char>) -> ActionView {
    ActionView {
        title: "rome: swap BinExp"@,
        replacements: seq![
            ReplacementView {
                before: SyntaxElementView {
                    kind: n.children[0].kind,
                    range: n.children[0].range,
                    text: text_at(src, n.children[0].range),
                },
                after: SyntaxElementView {
                    kind: n.children[2].kind,
                    range: n.children[2].range,
                    text: text_at(src, n.children[2].range),
                },
            },
            ReplacementView {
                before: SyntaxElementView {
                    kind: n.children[2].kind,
                    range: n.children[2].range,
                    text: text_at(src, n.children[2].range),
                },
                after: SyntaxElementView {
                    kind: n.children[0].kind,
                    range: n.children[0].range,
                    text: text_at(src, n.children[0].range),
                },
            },
        ],
        diagnostics: Seq::empty(),
    }
}

/// Actions of the swap analyzer: one per binary expression inside the
/// cursor range with both operands present.
pub open spec fn swap_actions(nodes: Seq<SyntaxNodeRefView>, src: Seq<char>) -> Seq<ActionView>
    decreases nodes.len(),
{
    if nodes.len() == 0 {
        Seq::empty()
    } else {
        swap_actions(nodes.drop_last(), src) + (if is_swappable_node(nodes.last()) {
            seq![swap_action(nodes.last(), src)]
        } else {
            Seq::empty()
        })
    }
}

/// Text of a range of the source, as a fresh vector.
fn slice_text(src: &Vec<char>, range: TextRange) -> (r: Vec<char>)
    requires
        range.start <= range.end <= src@.len(),
    ensures
        r@ == text_at(src@, range),
{
    let mut r: Vec<char> = Vec::new();
    let mut i = range.start;
    while i < range.end
        invariant
            range.start <= i <= range.end <= src@.len(),
            r@ == src@.subrange(range.start as int, i as int),
        decreases range.end - i,
    {
        r.push(src[i]);
        proof {
            assert(r@ =~= src@.subrange(range.start as int, i + 1));
        }
        i = i + 1;
    }
    r
}

fn build_all_caps_message(name: &Vec<char>) -> (r: Vec<char>)
    ensures
        r@ == all_caps_message(name@),
{
    let mut r = chars_of("rome: the name ");
    push_chars(&mut r, name);
    let tail = chars_of(" is in all caps.");
    push_chars(&mut r, &tail);
    r
}

/// Reports every identifier binding whose name is in all caps.
pub struct AllCaps;

impl AllCaps {
    /// One diagnostic per all-caps binding, spanning exactly the binding and
    /// naming it; no actions.
    pub fn analyze(&self, db: &mut RootDatabase, ctx: &AnalyzerContext) -> (r: AnalyzerSignal)
        requires
            old(db).wf(),
            old(db).file_set(ctx.file_id),
        ensures
            final(db).wf(),
            old(db).same_inputs(final(db)),
            final(db).files@.len() == old(db).files@.len(),
            (old(db).files@[ctx.file_id.0 as int].parse matches Some(pe) ==> (pe.verified_rev
                >= old(db).files@[ctx.file_id.0 as int].text_rev ==> (final(db).files@[ctx.file_id.0 as int].parse matches Some(pe2)
                && pe2.value.tree.nodes@ == pe.value.tree.nodes@ && pe2.value.tree.source@
                == pe.value.tree.source@ && pe2.changed_rev == pe.changed_rev))),
            (final(db).files@[ctx.file_id.0 as int].parse matches Some(pe) && pe.verified_rev
                == final(db).revision && pe.value.tree.source@ == old(db).text_of(ctx.file_id)
                && r@.diagnostics == all_caps_diags(
                nodes_of_kind_view(pe.value.tree.nodes@, SyntaxKind::JsIdentifierBinding),
                old(db).text_of(ctx.file_id),
            )),
            r@.actions == Seq::<ActionView>::empty(),
    {
        let nodes = db.nodes(ctx.file_id, SyntaxKind::JsIdentifierBinding);
        let text = db.file_text(ctx.file_id);
        proof {
            let pe = final(db).files@[ctx.file_id.0 as int].parse.unwrap();
            crate::tree::lemma_nodes_of_kind_in_source(
                pe.value.tree.nodes@,
                SyntaxKind::JsIdentifierBinding,
                pe.value.tree.nodes@.len() as int,
                text@.len() as int,
            );
        }
        let mut signal = AnalyzerSignal::new();
        let mut i: usize = 0;
        while i < nodes.len()
            invariant
                i <= nodes@.len(),
                signal@.diagnostics == all_caps_diags(refs_view(nodes@).subrange(0, i as int), text@),
                signal@.actions == Seq::<ActionView>::empty(),
                forall|a: int|
                    0 <= a < refs_view(nodes@).len() ==> (#[trigger] refs_view(
                        nodes@,
                    )[a]).range.start <= refs_view(nodes@)[a].range.end <= text@.len(),
            decreases nodes@.len() - i,
        {
            proof {
                assert(refs_view(nodes@).subrange(0, i + 1).drop_last() =~= refs_view(
                    nodes@,
                ).subrange(0, i as int));
                assert(refs_view(nodes@).subrange(0, i + 1).last() == refs_view(nodes@)[i as int]);
            }
            let range = nodes[i].range;
            let name = slice_text(&text, range);
            if is_all_caps_exec(&name) {
                let message = build_all_caps_message(&name);
                signal.add_diagnostic(Diagnostic { range, message });
            }
            proof {
                assert(signal@.diagnostics =~= all_caps_diags(
                    refs_view(nodes@).subrange(0, i + 1),
                    text@,
                ));
            }
            i = i + 1;
        }
        proof {
            assert(refs_view(nodes@).subrange(0, refs_view(nodes@).len() as int) =~= refs_view(
                nodes@,
            ));
        }
        signal
    }
}

/// Reports every `==` operator and, at the cursor, offers `===`.
pub struct DoubleEq;

impl DoubleEq {
    /// One diagnostic per `==` operator; an action exactly when the cursor
    /// range is present and covered by the operator.
    pub fn analyze(&self, db: &mut RootDatabase, ctx: &AnalyzerContext) -> (r: AnalyzerSignal)
        requires
            old(db).wf(),
            old(db).file_set(ctx.file_id),
        ensures
            final(db).wf(),
            old(db).same_inputs(final(db)),
            final(db).files@.len() == old(db).files@.len(),
            (old(db).files@[ctx.file_id.0 as int].parse matches Some(pe) ==> (pe.verified_rev
                >= old(db).files@[ctx.file_id.0 as int].text_rev ==> (final(db).files@[ctx.file_id.0 as int].parse matches Some(pe2)
                && pe2.value.tree.nodes@ == pe.value.tree.nodes@ && pe2.value.tree.source@
                == pe.value.tree.source@ && pe2.changed_rev == pe.changed_rev))),
            (final(db).files@[ctx.file_id.0 as int].parse matches Some(pe) && pe.verified_rev
                == final(db).revision && pe.value.tree.source@ == old(db).text_of(ctx.file_id)
                && r@.diagnostics == double_eq_diags(
                nodes_of_kind_view(pe.value.tree.nodes@, SyntaxKind::JsBinaryExpression),
            ) && r@.actions == double_eq_actions(
                nodes_of_kind_view(pe.value.tree.nodes@, SyntaxKind::JsBinaryExpression),
                old(db).text_of(ctx.file_id),
                ctx.cursor_range,
            )),
    {
        let nodes = db.nodes(ctx.file_id, SyntaxKind::JsBinaryExpression);
        let text = db.file_text(ctx.file_id);
        proof {
            let pe = final(db).files@[ctx.file_id.0 as int].parse.unwrap();
            crate::tree::lemma_nodes_of_kind_in_source(
                pe.value.tree.nodes@,
                SyntaxKind::JsBinaryExpression,
                pe.value.tree.nodes@.len() as int,
                text@.len() as int,
            );
        }
        let mut signal = AnalyzerSignal::new();
        let mut i: usize = 0;
        while i < nodes.len()
            invariant
                i <= nodes@.len(),
                signal@.diagnostics == double_eq_diags(refs_view(nodes@).subrange(0, i as int)),
                signal@.actions == double_eq_actions(
                    refs_view(nodes@).subrange(0, i as int),
                    text@,
                    ctx.cursor_range,
                ),
                forall|a: int|
                    0 <= a < refs_view(nodes@).len() ==> {
                        let rv = #[trigger] refs_view(nodes@)[a];
                        forall|c: int|
                            0 <= c < rv.children.len() ==> (#[trigger] rv.children[c]).range.start
                                <= rv.children[c].range.end <= text@.len()
                    },
            decreases nodes@.len() - i,
        {
            proof {
                assert(refs_view(nodes@).subrange(0, i + 1).drop_last() =~= refs_view(
                    nodes@,
                ).subrange(0, i as int));
                assert(refs_view(nodes@).subrange(0, i + 1).last() == refs_view(nodes@)[i as int]);
            }
            let n = &nodes[i];
            if n.children.len() == 3 && n.children[1].kind == SyntaxKind::Eq2 {
                let op_range = n.children[1].range;
                signal.add_diagnostic(
                    Diagnostic { range: op_range, message: chars_of("rome: do not use == operator") },
                );
                let covered = match &ctx.cursor_range {
                    Some(c) => op_range.contains_range(c),
                    None => false,
                };
                if covered {
                    let mut replacements: Vec<Replacement> = Vec::new();
                    replacements.push(
                        Replacement {
                            before: SyntaxElement {
                                kind: SyntaxKind::Eq2,
                                range: op_range,
                                text: slice_text(&text, op_range),
                            },
                            after: SyntaxElement {
                                kind: SyntaxKind::Eq3,
                                range: op_range,
                                text: chars_of("==="),
                            },
                        },
                    );
                    let mut diagnostics: Vec<Diagnostic> = Vec::new();
                    diagnostics.push(
                        Diagnostic {
                            range: op_range,
                            message: chars_of("rome: do not use == operator"),
                        },
                    );
                    let action = Action {
                        title: chars_of("rome: Change to ==="),
                        replacements,
                        diagnostics,
                    };
                    proof {
                        assert(action@.replacements =~= double_eq_action(
                            op_range,
                            text@,
                        ).replacements);
                        assert(action@.diagnostics =~= double_eq_action(
                            op_range,
                            text@,
                        ).diagnostics);
                        assert(action@ == double_eq_action(op_range, text@));
                    }
                    signal.add_action(action);
                }
            }
            proof {
                assert(signal@.diagnostics =~= double_eq_diags(
                    refs_view(nodes@).subrange(0, i + 1),
                ));
                assert(signal@.actions =~= double_eq_actions(
                    refs_view(nodes@).subrange(0, i + 1),
                    text@,
                    ctx.cursor_range,
                ));
            }
            i = i + 1;
        }
        proof {
            assert(refs_view(nodes@).subrange(0, refs_view(nodes@).len() as int) =~= refs_view(
                nodes@,
            ));
        }
        signal
    }
}

/// Offers to swap the operands of a binary expression at the cursor.
pub struct SwapCond;

impl SwapCond {
    /// One action per binary expression inside the cursor range with both
    /// operands present; its two replacements are an involution: applying
    /// the pair to its own output restores the original text. When the
    /// cursor range is absent the analyzer contributes no actions (it is
    /// cursor-anchored); it never contributes diagnostics.
    pub fn analyze(&self, db: &mut RootDatabase, ctx: &AnalyzerContext) -> (r: AnalyzerSignal)
        requires
            old(db).wf(),
            old(db).file_set(ctx.file_id),
        ensures
            final(db).wf(),
            old(db).same_inputs(final(db)),
            final(db).files@.len() == old(db).files@.len(),
            (old(db).files@[ctx.file_id.0 as int].parse matches Some(pe) ==> (pe.verified_rev
                >= old(db).files@[ctx.file_id.0 as int].text_rev ==> (final(db).files@[ctx.file_id.0 as int].parse matches Some(pe2)
                && pe2.value.tree.nodes@ == pe.value.tree.nodes@ && pe2.value.tree.source@
                == pe.value.tree.source@ && pe2.changed_rev == pe.changed_rev))),
            ctx.cursor_range is None ==> r@.actions == Seq::<ActionView>::empty() && *final(db)
                == *old(db),
            (ctx.cursor_range matches Some(cursor) ==> (final(db).files@[ctx.file_id.0 as int].parse matches Some(pe) && pe.verified_rev == final(db).revision && pe.value.tree.source@ == old(db).text_of(ctx.file_id) && r@.actions
                == swap_actions(
                refs_in_range_view(
                    nodes_of_kind_view(pe.value.tree.nodes@, SyntaxKind::JsBinaryExpression),
                    cursor,
                ),
                old(db).text_of(ctx.file_id),
            ))),
            r@.diagnostics == Seq::<DiagnosticView>::empty(),
    {
        let range = match &ctx.cursor_range {
            Some(c) => *c,
            None => {
                return AnalyzerSignal::new();
            },
        };
        let nodes = db.nodes_in_range(ctx.file_id, SyntaxKind::JsBinaryExpression, range);
        let text = db.file_text(ctx.file_id);
        proof {
            let pe = final(db).files@[ctx.file_id.0 as int].parse.unwrap();
            let base = nodes_of_kind_view(
                pe.value.tree.nodes@,
                SyntaxKind::JsBinaryExpression,
            );
            crate::tree::lemma_nodes_of_kind_in_source(
                pe.value.tree.nodes@,
                SyntaxKind::JsBinaryExpression,
                pe.value.tree.nodes@.len() as int,
                text@.len() as int,
            );
            crate::tree::lemma_range_query_subset(base, range);
            assert forall|a: int| 0 <= a < refs_view(nodes@).len() implies {
                let rv = #[trigger] refs_view(nodes@)[a];
                forall|c: int|
                    0 <= c < rv.children.len() ==> (#[trigger] rv.children[c]).range.start
                        <= rv.children[c].range.end <= text@.len()
            } by {
                assert(base.contains(refs_view(nodes@)[a]));
                let w = choose|k: int| 0 <= k < base.len() && base[k] == refs_view(nodes@)[a];
            }
        }
        let mut signal = AnalyzerSignal::new();
        let mut i: usize = 0;
        while i < nodes.len()
            invariant
                i <= nodes@.len(),
                signal@.actions == swap_actions(refs_view(nodes@).subrange(0, i as int), text@),
                signal@.diagnostics == Seq::<DiagnosticView>::empty(),
                forall|a: int|
                    0 <= a < refs_view(nodes@).len() ==> {
                        let rv = #[trigger] refs_view(nodes@)[a];
                        forall|c: int|
                            0 <= c < rv.children.len() ==> (#[trigger] rv.children[c]).range.start
                                <= rv.children[c].range.end <= text@.len()
                    },
            decreases nodes@.len() - i,
        {
            proof {
                assert(refs_view(nodes@).subrange(0, i + 1).drop_last() =~= refs_view(
                    nodes@,
                ).subrange(0, i as int));
                assert(refs_view(nodes@).subrange(0, i + 1).last() == refs_view(nodes@)[i as int]);
            }
            let n = &nodes[i];
            if n.children.len() == 3 && n.children[0].kind != SyntaxKind::Missing
                && n.children[2].kind != SyntaxKind::Missing {
                let lhs = n.children[0];
                let rhs = n.children[2];
                proof {
                    assert(refs_view(nodes@)[i as int].children[0] == n.children@[0]);
                    assert(refs_view(nodes@)[i as int].children[2] == n.children@[2]);
                }
                let mut replacements: Vec<Replacement> = Vec::new();
                replacements.push(
                    Replacement {
                        before: SyntaxElement {
                            kind: lhs.kind,
                            range: lhs.range,
                            text: slice_text(&text, lhs.range),
                        },
                        after: SyntaxElement {
                            kind: rhs.kind,
                            range: rhs.range,
                            text: slice_text(&text, rhs.range),
                        },
                    },
                );
                replacements.push(
                    Replacement {
                        before: SyntaxElement {
                            kind: rhs.kind,
                            range: rhs.range,
                            text: slice_text(&text, rhs.range),
                        },
                        after: SyntaxElement {
                            kind: lhs.kind,
                            range: lhs.range,
                            text: slice_text(&text, lhs.range),
                        },
                    },
                );
                let action = Action {
                    title: chars_of("rome: swap BinExp"),
                    replacements,
                    diagnostics: Vec::new(),
                };
                proof {
                    assert(action@.replacements =~= swap_action(
                        refs_view(nodes@)[i as int],
                        text@,
                    ).replacements);
                    assert(action@.diagnostics =~= swap_action(
                        refs_view(nodes@)[i as int],
                        text@,
                    ).diagnostics);
                    assert(action@ == swap_action(refs_view(nodes@)[i as int], text@));
                }
                signal.add_action(action);
            }
            proof {
                assert(signal@.actions =~= swap_actions(
                    refs_view(nodes@).subrange(0, i + 1),
                    text@,
                ));
            }
            i = i + 1;
        }
        proof {
            assert(refs_view(nodes@).subrange(0, refs_view(nodes@).len() as int) =~= refs_view(
                nodes@,
            ));
        }
        signal
    }
}

/// Actions of the swap analyzer for a request: none when the request has no
/// cursor range.
pub open spec fn swap_component(
    tree_nodes: Seq<crate::tree::TreeNode>,
    src: Seq<char>,
    cursor: Option<TextRange>,
) -> Seq<ActionView> {
    match cursor {
        Some(c) => swap_actions(
            refs_in_range_view(
                nodes_of_kind_view(tree_nodes, SyntaxKind::JsBinaryExpression),
                c,
            ),
            src,
        ),
        None => Seq::empty(),
    }
}

/// All diagnostics of the pipeline, in analyzer order.
pub open spec fn analyze_diags_spec(
    tree_nodes: Seq<crate::tree::TreeNode>,
    src: Seq<char>,
    cursor: Option<TextRange>,
) -> Seq<DiagnosticView> {
    all_caps_diags(nodes_of_kind_view(tree_nodes, SyntaxKind::JsIdentifierBinding), src)
        + double_eq_diags(nodes_of_kind_view(tree_nodes, SyntaxKind::JsBinaryExpression))
}

/// All actions of the pipeline, in analyzer order.
pub open spec fn analyze_actions_spec(
    tree_nodes: Seq<crate::tree::TreeNode>,
    src: Seq<char>,
    cursor: Option<TextRange>,
) -> Seq<ActionView> {
    double_eq_actions(
        nodes_of_kind_view(tree_nodes, SyntaxKind::JsBinaryExpression),
        src,
        cursor,
    ) + swap_component(tree_nodes, src, cursor)
}

/// Law: the analyzer pipeline is a function of the tree, the text and the
/// cursor range alone. Two runs against the same state and request yield
/// identical diagnostics and actions, content and order.
pub proof fn lemma_analyzer_deterministic(
    tree_nodes: Seq<crate::tree::TreeNode>,
    src: Seq<char>,
    cursor: Option<TextRange>,
    r1: AnalyzerSignalView,
    r2: AnalyzerSignalView,
)
    requires
        r1.diagnostics == analyze_diags_spec(tree_nodes, src, cursor),
        r1.actions == analyze_actions_spec(tree_nodes, src, cursor),
        r2.diagnostics == analyze_diags_spec(tree_nodes, src, cursor),
        r2.actions == analyze_actions_spec(tree_nodes, src, cursor),
    ensures
        r1.diagnostics == r2.diagnostics,
        r1.actions == r2.actions,
{
}

/// The host: owns the query database and runs the fixed analyzer pipeline.
pub struct AnalysisHost {
    pub db: RootDatabase,
}

impl AnalysisHost {
    pub open spec fn wf(&self) -> bool {
        self.db.wf()
    }

    pub open spec fn file_set(&self, file_id: FileId) -> bool {
        self.db.file_set(file_id)
    }

    pub open spec fn text_of(&self, file_id: FileId) -> Seq<char> {
        self.db.text_of(file_id)
    }

    pub fn new() -> (r: AnalysisHost)
        ensures
            r.wf(),
            r.db.revision == 0,
    {
        AnalysisHost { db: RootDatabase::new() }
    }

    /// Updates an input file's text.
    pub fn set_file_text(&mut self, file_id: FileId, text: Vec<char>)
        requires
            old(self).wf(),
            old(self).db.revision < u64::MAX,
        ensures
            final(self).wf(),
            final(self).file_set(file_id),
            final(self).text_of(file_id) == text@,
            final(self).db.revision == old(self).db.revision + 1,
    {
        self.db.set_file_text(file_id, text);
    }

    /// The current text of an input file.
    pub fn get_file_text(&self, file_id: FileId) -> (r: Vec<char>)
        requires
            self.wf(),
            self.file_set(file_id),
        ensures
            r@ == self.text_of(file_id),
    {
        self.db.file_text(file_id)
    }

    /// The parse tree of the file's current text.
    pub fn parse(&mut self, file_id: FileId) -> (r: SyntaxTree)
        requires
            old(self).wf(),
            old(self).file_set(file_id),
        ensures
            final(self).wf(),
            old(self).db.same_inputs(&final(self).db),
            r.wf(),
            r.source@ == old(self).text_of(file_id),
            r.nodes@[0].kind == SyntaxKind::JsRoot,
    {
        self.db.parse(file_id)
    }

    /// All nodes of a kind in the file, in source order.
    pub fn query_nodes(&mut self, file_id: FileId, kind: SyntaxKind) -> (r: Vec<SyntaxNodeRef>)
        requires
            old(self).wf(),
            old(self).file_set(file_id),
        ensures
            final(self).wf(),
            old(self).db.same_inputs(&final(self).db),
            (final(self).db.files@[file_id.0 as int].parse matches Some(pe) && refs_view(r@)
                == nodes_of_kind_view(pe.value.tree.nodes@, kind)),
    {
        self.db.nodes(file_id, kind)
    }

    /// All nodes of a kind inside `range`, a subset of the unfiltered query
    /// with order kept.
    pub fn query_nodes_in_range(
        &mut self,
        file_id: FileId,
        kind: SyntaxKind,
        range: TextRange,
    ) -> (r: Vec<SyntaxNodeRef>)
        requires
            old(self).wf(),
            old(self).file_set(file_id),
        ensures
            final(self).wf(),
            old(self).db.same_inputs(&final(self).db),
            (final(self).db.files@[file_id.0 as int].parse matches Some(pe) && refs_view(r@)
                == refs_in_range_view(nodes_of_kind_view(pe.value.tree.nodes@, kind), range)),
    {
        self.db.nodes_in_range(file_id, kind, range)
    }

    /// Runs the fixed analyzer pipeline against one file, optionally scoped
    /// by a cursor range, concatenating every analyzer's diagnostics and
    /// actions in analyzer order.
    pub fn analyze(&mut self, file_id: FileId, cursor_range: Option<TextRange>) -> (r:
        AnalyzerSignal)
        requires
            old(self).wf(),
            old(self).file_set(file_id),
        ensures
            final(self).wf(),
            old(self).db.same_inputs(&final(self).db),
            (final(self).db.files@[file_id.0 as int].parse matches Some(pe) && pe.verified_rev
                == final(self).db.revision && pe.value.tree.source@ == old(self).text_of(file_id)
                && r@.diagnostics == analyze_diags_spec(
                pe.value.tree.nodes@,
                old(self).text_of(file_id),
                cursor_range,
            ) && r@.actions == analyze_actions_spec(
                pe.value.tree.nodes@,
                old(self).text_of(file_id),
                cursor_range,
            )),
    {
        let all_caps = AllCaps;
        let double_eq = DoubleEq;
        let swap_cond = SwapCond;
        let ctx = AnalyzerContext::new(file_id, cursor_range);
        let s1 = all_caps.analyze(&mut self.db, &ctx);
        let s2 = double_eq.analyze(&mut self.db, &ctx);
        let s3 = swap_cond.analyze(&mut self.db, &ctx);
        let AnalyzerSignal { diagnostics: mut d, actions: a1 } = s1;
        let AnalyzerSignal { diagnostics: mut d2, actions: mut a2 } = s2;
        let AnalyzerSignal { diagnostics: d3, actions: mut a3 } = s3;
        let ghost dv1 = d@.map(|i: int, x: Diagnostic| x@);
        let ghost dv2 = d2@.map(|i: int, x: Diagnostic| x@);
        let ghost av2 = a2@.map(|i: int, x: Action| x@);
        let ghost av3 = a3@.map(|i: int, x: Action| x@);
        d.append(&mut d2);
        let mut actions = a1;
        actions.append(&mut a2);
        actions.append(&mut a3);
        let r = AnalyzerSignal { diagnostics: d, actions };
        proof {
            assert(r@.diagnostics =~= dv1 + dv2);
            assert(r@.actions =~= av2 + av3);
        }
        r
    }
}

} // verus!

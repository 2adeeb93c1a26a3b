//! The resilient parser core: a token cursor over the lexed text and an
//! append-only event log driven through markers.
//!
//! A grammar rule opens a node with [`Parser::start`], emits tokens and
//! missing slots into it, and closes it with [`Marker::complete`] (or erases
//! it with [`Marker::abandon`]). A completed node can retroactively be given
//! a new kind ([`CompletedMarker::change_kind`]) or be wrapped into a new
//! outer node ([`CompletedMarker::precede`]): a node's final kind is not
//! fixed until the enclosing construct finishes parsing.
//!
//! The contracts enforce the marker discipline: `complete` and `abandon`
//! demand the most recently opened marker, so every `start` is closed exactly
//! once and in strict last-opened-first-closed order, and the finished log is
//! balanced (`excess == 0`).

use vstd::prelude::*;

use crate::diagnostic::ParseDiagnostic;
use crate::kind::SyntaxKind;
use crate::lexer::{Token, lemma_chained_facts, token_seq_chained, tokenize};
use crate::text::TextRange;

verus! {

/// One entry of the event log. The log is replayed by the tree builder.
///
/// A `Start` is written with kind [`SyntaxKind::Tombstone`] when the marker
/// is opened; completing the marker writes the real kind and range and
/// appends the matching `Finish`. A tombstone that never turns real was
/// abandoned and builds no node. `forward_parent` points at a later `Start`
/// that must open *before* this one when the tree is built (the `precede`
/// pattern).
#[derive(Clone, Copy, Debug)]
pub enum Event {
    Start { kind: SyntaxKind, forward_parent: Option<usize>, range: TextRange },
    Finish,
    Leaf { token: usize },
    Missing,
}

/// Contribution of one event to the count of unmatched real starts.
pub open spec fn event_delta(e: Event) -> int {
    match e {
        Event::Start { kind, .. } => if kind == SyntaxKind::Tombstone {
            0
        } else {
            1
        },
        Event::Finish => -1,
        _ => 0,
    }
}

/// Number of real `Start` events minus number of `Finish` events.
pub open spec fn excess(log: Seq<Event>) -> int
    decreases log.len(),
{
    if log.len() == 0 {
        0
    } else {
        excess(log.drop_last()) + event_delta(log.last())
    }
}

/// The token indices of the `Leaf` events, in log order.
pub open spec fn leaf_tokens(log: Seq<Event>) -> Seq<int>
    decreases log.len(),
{
    if log.len() == 0 {
        Seq::empty()
    } else {
        leaf_tokens(log.drop_last()) + (match log.last() {
            Event::Leaf { token } => seq![token as int],
            _ => Seq::empty(),
        })
    }
}

/// `[from, from + 1, ..., to - 1]`.
pub open spec fn index_range(from: int, to: int) -> Seq<int> {
    Seq::new((to - from) as nat, |k: int| from + k)
}

/// An open `Start` event a marker may still complete.
pub open spec fn is_open_start(e: Event) -> bool {
    match e {
        Event::Start { kind, forward_parent, .. } => kind == SyntaxKind::Tombstone
            && forward_parent is None,
        _ => false,
    }
}

pub proof fn lemma_excess_push(log: Seq<Event>, e: Event)
    ensures
        excess(log.push(e)) == excess(log) + event_delta(e),
        leaf_tokens(log.push(e)) == leaf_tokens(log) + (match e {
            Event::Leaf { token } => seq![token as int],
            _ => Seq::empty(),
        }),
{
    assert(log.push(e).drop_last() =~= log);
    assert(log.push(e).last() == e);
}

pub proof fn lemma_excess_update(log: Seq<Event>, i: int, e: Event)
    requires
        0 <= i < log.len(),
    ensures
        excess(log.update(i, e)) == excess(log) - event_delta(log[i]) + event_delta(e),
        (log[i] is Start && e is Start) ==> leaf_tokens(log.update(i, e)) == leaf_tokens(log),
    decreases log.len(),
{
    let updated = log.update(i, e);
    if i == log.len() - 1 {
        assert(updated.drop_last() =~= log.drop_last());
        assert(updated.last() == e);
    } else {
        assert(updated.drop_last() =~= log.drop_last().update(i, e));
        assert(updated.last() == log.last());
        lemma_excess_update(log.drop_last(), i, e);
    }
}

/// Marker balance: the protocol guarantees that every `start` is matched by
/// exactly one `complete` or `abandon` — the contracts of those operations
/// accept only the innermost open marker, so markers close in strict
/// last-opened-first-closed order — and in a well-formed parser the event
/// log is balanced: real start events and finish events pair off exactly.
pub proof fn lemma_marker_balance(p: &Parser)
    requires
        p.wf(),
    ensures
        excess(p.events@) == 0,
{
}

/// The mode flags and name bookkeeping grammar rules consult.
pub struct ParserState {
    /// Strict-mode restrictions are in force.
    pub strict_mode: bool,
    /// Inside a `let`/`const` declarator list: duplicate names are tracked.
    pub should_record_names: bool,
    /// Names already bound in the current declarator list, with the range of
    /// their first declaration. First use wins; later uses are duplicates.
    pub name_map: Vec<(Vec<char>, TextRange)>,
    /// Object patterns are allowed at the current position.
    pub allow_object_expr: bool,
}

impl ParserState {
    /// The range of the first declaration of `name`, if any.
    pub open spec fn spec_lookup(map: Seq<(Vec<char>, TextRange)>, name: Seq<char>) -> Option<
        TextRange,
    >
        decreases map.len(),
    {
        if map.len() == 0 {
            None
        } else if map[0].0@ == name {
            Some(map[0].1)
        } else {
            Self::spec_lookup(map.drop_first(), name)
        }
    }
}

/// The parser: tokens, a cursor that always rests on a non-trivia token, the
/// event log, the collected diagnostics, and the stack of open markers.
pub struct Parser {
    pub source: Vec<char>,
    pub tokens: Vec<Token>,
    /// Number of leading trivia tokens (never consumed by rules; the tree
    /// builder attaches them under the root).
    pub leading: usize,
    /// Index of the current token; always non-trivia (possibly end-of-file).
    pub pos: usize,
    pub events: Vec<Event>,
    pub diagnostics: Vec<ParseDiagnostic>,
    pub state: ParserState,
    /// End offset of the last consumed token; node ranges end here.
    pub last_end: usize,
    /// Start event indices of the markers opened and not yet closed,
    /// innermost last.
    pub open_markers: Vec<usize>,
    /// For each open marker, how many child slots it holds so far.
    pub open_children: Ghost<Seq<int>>,
}

impl Parser {
    pub open spec fn cur_spec(&self) -> Token {
        self.tokens@[self.pos as int]
    }

    pub open spec fn wf(&self) -> bool {
        &&& token_seq_chained(self.tokens@, 0, self.source@.len() as int)
        &&& self.pos < self.tokens@.len()
        &&& !self.cur_spec().kind.spec_is_trivia()
        &&& self.leading <= self.pos
        &&& forall|k: int|
            0 <= k < self.leading ==> (#[trigger] self.tokens@[k]).kind.spec_is_trivia()
        &&& leaf_tokens(self.events@) == index_range(self.leading as int, self.pos as int)
        &&& excess(self.events@) == 0
        &&& self.open_children@.len() == self.open_markers@.len()
        &&& forall|k: int| 0 <= k < self.open_children@.len() ==> self.open_children@[k] >= 0
        &&& forall|k: int|
            0 <= k < self.open_markers@.len() ==> (#[trigger] self.open_markers@[k])
                < self.events@.len() && is_open_start(self.events@[self.open_markers@[k] as int])
        &&& forall|k1: int, k2: int|
            0 <= k1 < k2 < self.open_markers@.len() ==> (#[trigger] self.open_markers@[k1])
                < (#[trigger] self.open_markers@[k2])
        &&& self.last_end <= self.source@.len()
        &&& forall|j: int|
            0 <= j < self.events@.len() ==> match #[trigger] self.events@[j] {
                Event::Start { forward_parent: Some(t), .. } => j < t < self.events@.len()
                    && self.events@[t as int] is Start,
                _ => true,
            }
        &&& forall|j: int|
            0 <= j < self.events@.len() ==> match #[trigger] self.events@[j] {
                Event::Leaf { token } => token < self.tokens@.len() - 1,
                _ => true,
            }
        &&& forall|j: int|
            0 <= j < self.events@.len() ==> match #[trigger] self.events@[j] {
                Event::Start { range, .. } => range.start <= range.end <= self.source@.len(),
                _ => true,
            }
    }

    /// Everything the cursor does not touch is kept.
    pub open spec fn same_but_cursor(&self, other: &Parser) -> bool {
        &&& other.source@ == self.source@
        &&& other.tokens@ == self.tokens@
        &&& other.leading == self.leading
        &&& other.diagnostics@ == self.diagnostics@
        &&& other.state == self.state
        &&& other.open_markers@ == self.open_markers@
        &&& other.open_children@ == self.open_children@
    }

    /// The new parser positioned at the first non-trivia token of `source`.
    pub fn new(source: Vec<char>) -> (p: Parser)
        ensures
            p.wf(),
            p.source@ == source@,
            p.events@ == Seq::<Event>::empty(),
            p.diagnostics@ == Seq::<ParseDiagnostic>::empty(),
            p.open_markers@ == Seq::<usize>::empty(),
            p.leading == p.pos,
            !p.state.strict_mode,
            !p.state.should_record_names,
            p.state.allow_object_expr,
            p.state.name_map@.len() == 0,
    {
        let tokens = tokenize(&source);
        proof {
            lemma_chained_facts(tokens@, 0, source@.len() as int, 0);
        }
        let mut pos: usize = 0;
        while pos < tokens.len() - 1 && tokens[pos].kind.is_trivia()
            invariant
                token_seq_chained(tokens@, 0, source@.len() as int),
                pos < tokens@.len(),
                forall|k: int| 0 <= k < pos ==> (#[trigger] tokens@[k]).kind.spec_is_trivia(),
            decreases tokens@.len() - pos,
        {
            pos = pos + 1;
        }
        proof {
            lemma_chained_facts(tokens@, 0, source@.len() as int, pos as int);
            assert(tokens@[tokens@.len() - 1].kind == SyntaxKind::Eof);
        }
        let p = Parser {
            source,
            tokens,
            leading: pos,
            pos,
            events: Vec::new(),
            diagnostics: Vec::new(),
            state: ParserState {
                strict_mode: false,
                should_record_names: false,
                name_map: Vec::new(),
                allow_object_expr: true,
            },
            last_end: 0,
            open_markers: Vec::new(),
            open_children: Ghost(Seq::empty()),
        };
        proof {
            assert(leaf_tokens(p.events@) =~= index_range(p.leading as int, p.pos as int));
        }
        p
    }

    /// Kind of the current token.
    pub fn cur(&self) -> (k: SyntaxKind)
        requires
            self.wf(),
        ensures
            k == self.cur_spec().kind,
    {
        self.tokens[self.pos].kind
    }

    /// The current token.
    pub fn cur_tok(&self) -> (t: Token)
        requires
            self.wf(),
        ensures
            t == self.cur_spec(),
    {
        self.tokens[self.pos]
    }

    /// True when the current token has kind `kind`.
    pub fn at(&self, kind: SyntaxKind) -> (b: bool)
        requires
            self.wf(),
        ensures
            b == (self.cur_spec().kind == kind),
    {
        self.tokens[self.pos].kind == kind
    }

    /// Index of the first non-trivia token after the cursor.
    pub open spec fn nt_after(toks: Seq<Token>, i: int) -> int
        decreases toks.len() - i
            when 0 <= i < toks.len()
    {
        if i + 1 >= toks.len() {
            i
        } else if !toks[i + 1].kind.spec_is_trivia() {
            i + 1
        } else {
            Self::nt_after(toks, i + 1)
        }
    }

    /// Kind of the first non-trivia token after the current one.
    pub fn nth1(&self) -> (k: SyntaxKind)
        requires
            self.wf(),
        ensures
            k == self.tokens@[Self::nt_after(self.tokens@, self.pos as int)].kind,
            !k.spec_is_trivia(),
    {
        proof {
            assert(self.tokens@.len() <= usize::MAX) by {
                assert(self.tokens.len() == self.tokens@.len());
            }
        }
        let mut j = self.pos;
        while j + 1 < self.tokens.len() && self.tokens[j + 1].kind.is_trivia()
            invariant
                self.wf(),
                self.pos <= j < self.tokens@.len(),
                self.tokens@.len() <= usize::MAX,
                Self::nt_after(self.tokens@, self.pos as int) == Self::nt_after(
                    self.tokens@,
                    j as int,
                ),
            decreases self.tokens@.len() - j,
        {
            j = j + 1;
        }
        proof {
            lemma_chained_facts(self.tokens@, 0, self.source@.len() as int, j as int);
            assert(self.tokens@[self.tokens@.len() - 1].kind == SyntaxKind::Eof);
        }
        if j + 1 < self.tokens.len() {
            self.tokens[j + 1].kind
        } else {
            self.tokens[j].kind
        }
    }

    /// Text of the token, read out of the source.
    pub fn token_text(&self, t: Token) -> (r: Vec<char>)
        requires
            self.wf(),
            t.range.start <= t.range.end <= self.source@.len(),
        ensures
            r@ == self.source@.subrange(t.range.start as int, t.range.end as int),
    {
        let mut r: Vec<char> = Vec::new();
        let mut i = t.range.start;
        while i < t.range.end
            invariant
                t.range.start <= i <= t.range.end <= self.source@.len(),
                r@ == self.source@.subrange(t.range.start as int, i as int),
            decreases t.range.end - i,
        {
            r.push(self.source[i]);
            proof {
                assert(r@ =~= self.source@.subrange(t.range.start as int, i + 1));
            }
            i = i + 1;
        }
        r
    }

    /// Appends a diagnostic; parsing goes on.
    pub fn error(&mut self, d: ParseDiagnostic)
        requires
            old(self).wf(),
        ensures
            final(self).wf(),
            final(self).diagnostics@ == old(self).diagnostics@.push(d),
            final(self).events@ == old(self).events@,
            final(self).pos == old(self).pos,
            final(self).last_end == old(self).last_end,
            final(self).source@ == old(self).source@,
            final(self).tokens@ == old(self).tokens@,
            final(self).leading == old(self).leading,
            final(self).state == old(self).state,
            final(self).open_markers@ == old(self).open_markers@,
            final(self).open_children@ == old(self).open_children@,
    {
        self.diagnostics.push(d);
    }

    /// Opens a marker anchored at the current token.
    pub fn start(&mut self) -> (m: Marker)
        requires
            old(self).wf(),
        ensures
            final(self).wf(),
            m.pos == old(self).events@.len(),
            m.text_start == old(self).cur_spec().range.start,
            final(self).events@ == old(self).events@.push(
                Event::Start {
                    kind: SyntaxKind::Tombstone,
                    forward_parent: None,
                    range: (TextRange { start: m.text_start, end: m.text_start }),
                },
            ),
            final(self).open_markers@ == old(self).open_markers@.push(m.pos),
            final(self).open_children@ == old(self).open_children@.push(0),
            final(self).pos == old(self).pos,
            final(self).last_end == old(self).last_end,
            final(self).diagnostics@ == old(self).diagnostics@,
            final(self).source@ == old(self).source@,
            final(self).tokens@ == old(self).tokens@,
            final(self).leading == old(self).leading,
            final(self).state == old(self).state,
            m.text_start <= final(self).source@.len(),
    {
        let text_start = self.tokens[self.pos].range.start;
        let m = Marker { pos: self.events.len(), text_start };
        let ev = Event::Start {
            kind: SyntaxKind::Tombstone,
            forward_parent: None,
            range: TextRange { start: text_start, end: text_start },
        };
        proof {
            lemma_excess_push(self.events@, ev);
            lemma_chained_facts(self.tokens@, 0, self.source@.len() as int, self.pos as int);
        }
        self.events.push(ev);
        self.open_markers.push(m.pos);
        proof {
            self.open_children@ = self.open_children@.push(0);
        }
        m
    }

    /// Adds an empty placeholder slot to the innermost open node.
    pub fn missing(&mut self)
        requires
            old(self).wf(),
            old(self).open_markers@.len() > 0,
        ensures
            final(self).wf(),
            final(self).events@ == old(self).events@.push(Event::Missing),
            final(self).open_children@ == old(self).open_children@.update(
                old(self).open_children@.len() - 1,
                old(self).open_children@.last() + 1,
            ),
            final(self).open_markers@ == old(self).open_markers@,
            final(self).pos == old(self).pos,
            final(self).last_end == old(self).last_end,
            final(self).diagnostics@ == old(self).diagnostics@,
            final(self).source@ == old(self).source@,
            final(self).tokens@ == old(self).tokens@,
            final(self).leading == old(self).leading,
            final(self).state == old(self).state,
    {
        proof {
            lemma_excess_push(self.events@, Event::Missing);
        }
        self.events.push(Event::Missing);
        proof {
            self.open_children@ = self.open_children@.update(
                self.open_children@.len() - 1,
                self.open_children@.last() + 1,
            );
        }
    }

    /// Consumes the current token (and the trivia behind it) into the
    /// innermost open node.
    pub fn bump(&mut self, kind: SyntaxKind)
        requires
            old(self).wf(),
            old(self).open_markers@.len() > 0,
            old(self).cur_spec().kind == kind,
            kind != SyntaxKind::Eof,
        ensures
            final(self).wf(),
            final(self).pos > old(self).pos,
            final(self).last_end == old(self).cur_spec().range.end,
            final(self).events@.subrange(0, old(self).events@.len() as int) == old(self).events@,
            final(self).events@.len() > old(self).events@.len(),
            final(self).events@[old(self).events@.len() as int] == (Event::Leaf {
                token: old(self).pos,
            }),
            forall|j: int|
                old(self).events@.len() <= j < final(self).events@.len()
                    ==> final(self).events@[j] is Leaf,
            final(self).open_children@ == old(self).open_children@.update(
                old(self).open_children@.len() - 1,
                old(self).open_children@.last() + 1,
            ),
            final(self).open_markers@ == old(self).open_markers@,
            final(self).diagnostics@ == old(self).diagnostics@,
            final(self).source@ == old(self).source@,
            final(self).tokens@ == old(self).tokens@,
            final(self).leading == old(self).leading,
            final(self).state == old(self).state,
    {
        proof {
            assert(self.tokens@.len() <= usize::MAX) by {
                assert(self.tokens.len() == self.tokens@.len());
            }
            lemma_excess_push(self.events@, Event::Leaf { token: self.pos });
            lemma_chained_facts(self.tokens@, 0, self.source@.len() as int, self.pos as int);
            assert(index_range(self.leading as int, self.pos as int).push(self.pos as int)
                =~= index_range(self.leading as int, self.pos + 1));
            assert(self.pos < self.tokens@.len() - 1);
        }
        self.last_end = self.tokens[self.pos].range.end;
        self.events.push(Event::Leaf { token: self.pos });
        self.pos = self.pos + 1;
        proof {
            self.open_children@ = self.open_children@.update(
                self.open_children@.len() - 1,
                self.open_children@.last() + 1,
            );
        }
        let ghost base = self.events@.len() as int;
        while self.pos < self.tokens.len() - 1 && self.tokens[self.pos].kind.is_trivia()
            invariant
                token_seq_chained(self.tokens@, 0, self.source@.len() as int),
                self.tokens@.len() <= usize::MAX,
                self.leading <= self.pos < self.tokens@.len(),
                leaf_tokens(self.events@) == index_range(self.leading as int, self.pos as int),
                excess(self.events@) == 0,
                self.open_children@.len() == self.open_markers@.len(),
                forall|k: int|
                    0 <= k < self.open_children@.len() ==> self.open_children@[k] >= 0,
                forall|k: int|
                    0 <= k < self.open_markers@.len() ==> (#[trigger] self.open_markers@[k])
                        < self.events@.len() && is_open_start(
                        self.events@[self.open_markers@[k] as int],
                    ),
                forall|k1: int, k2: int|
                    0 <= k1 < k2 < self.open_markers@.len() ==> (
                    #[trigger] self.open_markers@[k1]) < (#[trigger] self.open_markers@[k2]),
                forall|k: int|
                    0 <= k < self.leading ==> (#[trigger] self.tokens@[k]).kind.spec_is_trivia(),
                self.last_end <= self.source@.len(),
                forall|j: int|
                    0 <= j < self.events@.len() ==> match #[trigger] self.events@[j] {
                        Event::Start { forward_parent: Some(t), .. } => j < t
                            < self.events@.len() && self.events@[t as int] is Start,
                        _ => true,
                    },
                forall|j: int|
                    0 <= j < self.events@.len() ==> match #[trigger] self.events@[j] {
                        Event::Leaf { token } => token < self.tokens@.len() - 1,
                        _ => true,
                    },
                forall|j: int|
                    0 <= j < self.events@.len() ==> match #[trigger] self.events@[j] {
                        Event::Start { range, .. } => range.start <= range.end
                            <= self.source@.len(),
                        _ => true,
                    },
                self.events@.subrange(0, old(self).events@.len() as int) == old(self).events@,
                self.events@.len() > old(self).events@.len(),
                self.events@[old(self).events@.len() as int] == (Event::Leaf {
                    token: old(self).pos,
                }),
                forall|j: int|
                    old(self).events@.len() <= j < self.events@.len() ==> self.events@[j] is Leaf,
                self.source@ == old(self).source@,
                self.tokens@ == old(self).tokens@,
                self.leading == old(self).leading,
                self.diagnostics@ == old(self).diagnostics@,
                self.state == old(self).state,
                self.open_markers@ == old(self).open_markers@,
                self.open_children@ == old(self).open_children@.update(
                    old(self).open_children@.len() - 1,
                    old(self).open_children@.last() + 1,
                ),
                self.last_end == old(self).cur_spec().range.end,
                self.pos > old(self).pos,
            decreases self.tokens@.len() - self.pos,
        {
            proof {
                lemma_excess_push(self.events@, Event::Leaf { token: self.pos });
                assert(index_range(self.leading as int, self.pos as int).push(self.pos as int)
                    =~= index_range(self.leading as int, self.pos + 1));
                assert(self.events@.push(
                    Event::Leaf { token: self.pos },
                ).subrange(0, old(self).events@.len() as int) =~= self.events@.subrange(
                    0,
                    old(self).events@.len() as int,
                ));
            }
            self.events.push(Event::Leaf { token: self.pos });
            self.pos = self.pos + 1;
        }
        proof {
            lemma_chained_facts(self.tokens@, 0, self.source@.len() as int, self.pos as int);
            assert(self.tokens@[self.tokens@.len() - 1].kind == SyntaxKind::Eof);
        }
    }

    /// Consumes the expected token, or records the slot as missing and emits
    /// `diag`. Returns whether the token was present.
    pub fn expect_required(&mut self, kind: SyntaxKind, diag: ParseDiagnostic) -> (present: bool)
        requires
            old(self).wf(),
            old(self).open_markers@.len() > 0,
            kind != SyntaxKind::Eof,
        ensures
            final(self).wf(),
            present == (old(self).cur_spec().kind == kind),
            present ==> final(self).diagnostics@ == old(self).diagnostics@,
            !present ==> final(self).diagnostics@ == old(self).diagnostics@.push(diag),
            final(self).open_markers@ == old(self).open_markers@,
            final(self).open_children@ == old(self).open_children@.update(
                old(self).open_children@.len() - 1,
                old(self).open_children@.last() + 1,
            ),
            final(self).source@ == old(self).source@,
            final(self).tokens@ == old(self).tokens@,
            final(self).leading == old(self).leading,
            final(self).state == old(self).state,
            final(self).pos >= old(self).pos,
            present ==> final(self).pos > old(self).pos,
    {
        if self.at(kind) {
            self.bump(kind);
            true
        } else {
            self.missing();
            self.error(diag);
            false
        }
    }
}

/// Handle of an open node: index of its start event and the offset where its
/// text begins.
#[derive(Debug)]
pub struct Marker {
    pub pos: usize,
    pub text_start: usize,
}

/// Handle of a completed node.
#[derive(Clone, Copy)]
pub struct CompletedMarker {
    pub start_pos: usize,
    pub finish_pos: usize,
    pub kind: SyntaxKind,
    pub range: TextRange,
    /// Number of child slots the node holds.
    pub child_slots: Ghost<int>,
}

impl Marker {
    /// The marker is the innermost open one of `p`.
    pub open spec fn is_top_of(&self, p: &Parser) -> bool {
        &&& p.open_markers@.len() > 0
        &&& p.open_markers@.last() == self.pos
    }

    /// Closes the node with its final kind. Only the innermost open marker
    /// can be completed: nesting order is enforced.
    pub fn complete(self, p: &mut Parser, kind: SyntaxKind) -> (cm: CompletedMarker)
        requires
            old(p).wf(),
            self.is_top_of(old(p)),
            kind != SyntaxKind::Tombstone,
            self.text_start <= old(p).source@.len(),
        ensures
            final(p).wf(),
            cm.start_pos == self.pos,
            cm.finish_pos == old(p).events@.len(),
            cm.kind == kind,
            cm.range.start == self.text_start,
            cm.range.end == (if old(p).last_end >= self.text_start {
                old(p).last_end as int
            } else {
                self.text_start as int
            }),
            cm.child_slots@ == old(p).open_children@.last(),
            final(p).events@ == old(p).events@.update(
                self.pos as int,
                (Event::Start { kind, forward_parent: None, range: cm.range }),
            ).push(Event::Finish),
            final(p).open_markers@ == old(p).open_markers@.drop_last(),
            final(p).open_children@ == (if old(p).open_children@.len() >= 2 {
                old(p).open_children@.drop_last().update(
                    old(p).open_children@.len() - 2,
                    old(p).open_children@[old(p).open_children@.len() - 2] + 1,
                )
            } else {
                old(p).open_children@.drop_last()
            }),
            final(p).pos == old(p).pos,
            final(p).last_end == old(p).last_end,
            final(p).diagnostics@ == old(p).diagnostics@,
            final(p).source@ == old(p).source@,
            final(p).tokens@ == old(p).tokens@,
            final(p).leading == old(p).leading,
            final(p).state == old(p).state,
            cm.complete_in(final(p)),
            cm.undoable_in(final(p)),
    {
        let end = if p.last_end >= self.text_start {
            p.last_end
        } else {
            self.text_start
        };
        let range = TextRange { start: self.text_start, end };
        let ev = Event::Start { kind, forward_parent: None, range };
        proof {
            lemma_excess_update(p.events@, self.pos as int, ev);
            lemma_excess_push(p.events@.update(self.pos as int, ev), Event::Finish);
        }
        let updated = self.pos;
        p.events[updated] = ev;
        let finish_pos = p.events.len();
        p.events.push(Event::Finish);
        p.open_markers.pop();
        let ghost slots = p.open_children@.last();
        proof {
            p.open_children@ = p.open_children@.drop_last();
            if p.open_children@.len() >= 1 {
                p.open_children@ = p.open_children@.update(
                    p.open_children@.len() - 1,
                    p.open_children@.last() + 1,
                );
            }
        }
        CompletedMarker {
            start_pos: self.pos,
            finish_pos,
            kind,
            range,
            child_slots: Ghost(slots),
        }
    }

    /// Erases the marker: its start event stays a tombstone and builds no
    /// node. Only the innermost open marker can be abandoned; child slots it
    /// already holds are adopted by the enclosing marker.
    pub fn abandon(self, p: &mut Parser)
        requires
            old(p).wf(),
            self.is_top_of(old(p)),
        ensures
            final(p).wf(),
            final(p).events@ == old(p).events@,
            final(p).open_markers@ == old(p).open_markers@.drop_last(),
            final(p).pos == old(p).pos,
            final(p).last_end == old(p).last_end,
            final(p).diagnostics@ == old(p).diagnostics@,
            final(p).source@ == old(p).source@,
            final(p).tokens@ == old(p).tokens@,
            final(p).leading == old(p).leading,
            final(p).state == old(p).state,
            final(p).open_children@ == (if old(p).open_children@.len() >= 2 {
                old(p).open_children@.drop_last().update(
                    old(p).open_children@.len() - 2,
                    old(p).open_children@[old(p).open_children@.len() - 2] + old(
                        p,
                    ).open_children@.last(),
                )
            } else {
                old(p).open_children@.drop_last()
            }),
    {
        p.open_markers.pop();
        let ghost adopted = p.open_children@.last();
        proof {
            p.open_children@ = p.open_children@.drop_last();
            if p.open_children@.len() >= 1 {
                p.open_children@ = p.open_children@.update(
                    p.open_children@.len() - 1,
                    p.open_children@.last() + adopted,
                );
            }
        }
    }
}

impl CompletedMarker {
    /// The completed node is the last thing in `p`'s log, with its events in
    /// the recorded places.
    pub open spec fn complete_in(&self, p: &Parser) -> bool {
        &&& self.start_pos < self.finish_pos
        &&& self.finish_pos == p.events@.len() - 1
        &&& p.events@[self.finish_pos as int] is Finish
        &&& p.events@[self.start_pos as int] == (Event::Start {
            kind: self.kind,
            forward_parent: None,
            range: self.range,
        })
        &&& self.kind != SyntaxKind::Tombstone
        &&& self.range.start <= self.range.end <= p.source@.len()
        &&& self.child_slots@ >= 0
    }

    /// The completed node is last in the log and every open marker encloses
    /// it, so completing it can be undone.
    pub open spec fn undoable_in(&self, p: &Parser) -> bool {
        &&& self.complete_in(p)
        &&& forall|k: int|
            0 <= k < p.open_markers@.len() ==> (#[trigger] p.open_markers@[k]) < self.start_pos
    }

    /// Opens a new marker whose node will wrap this completed node. The
    /// wrapped node moves from the enclosing node's slots into the new one.
    pub fn precede(self, p: &mut Parser) -> (m: Marker)
        requires
            old(p).wf(),
            self.complete_in(old(p)),
            old(p).open_children@.len() > 0 ==> old(p).open_children@.last() >= 1,
        ensures
            final(p).wf(),
            m.pos == old(p).events@.len(),
            m.text_start == self.range.start,
            final(p).events@ == old(p).events@.update(
                self.start_pos as int,
                (Event::Start {
                    kind: self.kind,
                    forward_parent: Some(m.pos),
                    range: self.range,
                }),
            ).push(
                Event::Start {
                    kind: SyntaxKind::Tombstone,
                    forward_parent: None,
                    range: (TextRange { start: self.range.start, end: self.range.start }),
                },
            ),
            final(p).open_markers@ == old(p).open_markers@.push(m.pos),
            final(p).open_children@ == (if old(p).open_children@.len() > 0 {
                old(p).open_children@.update(
                    old(p).open_children@.len() - 1,
                    old(p).open_children@.last() - 1,
                ).push(1)
            } else {
                old(p).open_children@.push(1)
            }),
            final(p).pos == old(p).pos,
            final(p).last_end == old(p).last_end,
            final(p).diagnostics@ == old(p).diagnostics@,
            final(p).source@ == old(p).source@,
            final(p).tokens@ == old(p).tokens@,
            final(p).leading == old(p).leading,
            final(p).state == old(p).state,
            m.is_top_of(final(p)),
            m.text_start <= final(p).source@.len(),
    {
        let new_pos = p.events.len();
        let updated_start = Event::Start {
            kind: self.kind,
            forward_parent: Some(new_pos),
            range: self.range,
        };
        let wrap = Event::Start {
            kind: SyntaxKind::Tombstone,
            forward_parent: None,
            range: TextRange { start: self.range.start, end: self.range.start },
        };
        proof {
            lemma_excess_update(p.events@, self.start_pos as int, updated_start);
            lemma_excess_push(p.events@.update(self.start_pos as int, updated_start), wrap);
            assert forall|k: int| 0 <= k < p.open_markers@.len() implies (
            #[trigger] p.open_markers@[k]) != self.start_pos by {
                assert(is_open_start(p.events@[p.open_markers@[k] as int]));
            }
        }
        let sp = self.start_pos;
        p.events[sp] = updated_start;
        p.events.push(wrap);
        p.open_markers.push(new_pos);
        proof {
            if p.open_children@.len() > 0 {
                p.open_children@ = p.open_children@.update(
                    p.open_children@.len() - 1,
                    p.open_children@.last() - 1,
                );
            }
            p.open_children@ = p.open_children@.push(1);
        }
        Marker { pos: new_pos, text_start: self.range.start }
    }

    /// Reopens the completed node, removing its finish event; the node's
    /// child slots stay with the returned marker.
    pub fn undo_completion(self, p: &mut Parser) -> (m: Marker)
        requires
            old(p).wf(),
            self.undoable_in(old(p)),
            old(p).open_children@.len() > 0 ==> old(p).open_children@.last() >= 1,
        ensures
            final(p).wf(),
            m.pos == self.start_pos,
            m.text_start == self.range.start,
            final(p).events@ == old(p).events@.drop_last().update(
                self.start_pos as int,
                (Event::Start {
                    kind: SyntaxKind::Tombstone,
                    forward_parent: None,
                    range: (TextRange { start: self.range.start, end: self.range.start }),
                }),
            ),
            final(p).open_markers@ == old(p).open_markers@.push(self.start_pos),
            final(p).open_children@ == (if old(p).open_children@.len() > 0 {
                old(p).open_children@.update(
                    old(p).open_children@.len() - 1,
                    old(p).open_children@.last() - 1,
                ).push(self.child_slots@)
            } else {
                old(p).open_children@.push(self.child_slots@)
            }),
            final(p).pos == old(p).pos,
            final(p).last_end == old(p).last_end,
            final(p).diagnostics@ == old(p).diagnostics@,
            final(p).source@ == old(p).source@,
            final(p).tokens@ == old(p).tokens@,
            final(p).leading == old(p).leading,
            final(p).state == old(p).state,
            m.is_top_of(final(p)),
    {
        let tomb = Event::Start {
            kind: SyntaxKind::Tombstone,
            forward_parent: None,
            range: TextRange { start: self.range.start, end: self.range.start },
        };
        proof {
            assert(leaf_tokens(p.events@.drop_last()) =~= leaf_tokens(p.events@));
            lemma_excess_push(p.events@.drop_last(), p.events@.last());
            lemma_excess_update(p.events@.drop_last(), self.start_pos as int, tomb);
            assert forall|k: int| 0 <= k < p.open_markers@.len() implies (
            #[trigger] p.open_markers@[k]) != self.start_pos && p.open_markers@[k]
                != self.finish_pos by {
                assert(is_open_start(p.events@[p.open_markers@[k] as int]));
            }
        }
        p.events.pop();
        let sp = self.start_pos;
        p.events[sp] = tomb;
        p.open_markers.push(sp);
        proof {
            if p.open_children@.len() > 0 {
                p.open_children@ = p.open_children@.update(
                    p.open_children@.len() - 1,
                    p.open_children@.last() - 1,
                );
            }
            p.open_children@ = p.open_children@.push(self.child_slots@);
        }
        Marker { pos: sp, text_start: self.range.start }
    }

    /// Rewrites the node's kind after the fact (used to fold invalid syntax
    /// into an unknown node).
    pub fn change_kind(&mut self, p: &mut Parser, kind: SyntaxKind)
        requires
            old(p).wf(),
            old(self).complete_in(old(p)),
            kind != SyntaxKind::Tombstone,
        ensures
            final(p).wf(),
            final(self).kind == kind,
            final(self).start_pos == old(self).start_pos,
            final(self).finish_pos == old(self).finish_pos,
            final(self).range == old(self).range,
            final(self).child_slots == old(self).child_slots,
            final(p).events@ == old(p).events@.update(
                old(self).start_pos as int,
                (Event::Start {
                    kind,
                    forward_parent: None,
                    range: old(self).range,
                }),
            ),
            final(p).open_markers@ == old(p).open_markers@,
            final(p).open_children@ == old(p).open_children@,
            final(p).pos == old(p).pos,
            final(p).last_end == old(p).last_end,
            final(p).diagnostics@ == old(p).diagnostics@,
            final(p).source@ == old(p).source@,
            final(p).tokens@ == old(p).tokens@,
            final(p).leading == old(p).leading,
            final(p).state == old(p).state,
            final(self).complete_in(final(p)),
    {
        let ev = Event::Start { kind, forward_parent: None, range: self.range };
        proof {
            lemma_excess_update(p.events@, self.start_pos as int, ev);
            assert forall|k: int| 0 <= k < p.open_markers@.len() implies (
            #[trigger] p.open_markers@[k]) != self.start_pos by {
                assert(is_open_start(p.events@[p.open_markers@[k] as int]));
            }
        }
        let sp = self.start_pos;
        p.events[sp] = ev;
        self.kind = kind;
    }
}

} // verus!

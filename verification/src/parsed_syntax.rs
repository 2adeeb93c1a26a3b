//! Typed results of parse rules.
//!
//! A rule returns [`ParsedSyntax::Absent`] exactly when it consumed no input;
//! if it consumed anything it must return [`ParsedSyntax::Present`], possibly
//! of a partial node, so the caller can decide whether to recover.
//! [`ConditionalSyntax`] classifies a node that parsed structurally but may
//! be disallowed in the current grammar mode; an invalid node must be folded
//! into an unknown kind or abandoned, never left as a normal node.

use vstd::prelude::*;

use crate::diagnostic::ParseDiagnostic;
use crate::kind::SyntaxKind;
use crate::parser::{CompletedMarker, Marker, Parser};
use crate::recovery::{in_kind_set, ParseRecovery, RecoveryError, RecoveryResult};
use crate::text::TextRange;

verus! {

/// A language feature that the current parsing context may or may not
/// support.
#[derive(Clone, Copy, Debug, PartialEq, Eq, Structural)]
pub enum JsSyntaxFeature {
    StrictMode,
}

impl JsSyntaxFeature {
    pub open spec fn spec_is_supported(&self, p: &Parser) -> bool {
        match *self {
            JsSyntaxFeature::StrictMode => p.state.strict_mode,
        }
    }

    #[verifier::when_used_as_spec(spec_is_supported)]
    pub fn is_supported(&self, p: &Parser) -> (b: bool)
        ensures
            b == self.spec_is_supported(p),
    {
        match *self {
            JsSyntaxFeature::StrictMode => p.state.strict_mode,
        }
    }

    pub fn is_unsupported(&self, p: &Parser) -> (b: bool)
        ensures
            b == !self.spec_is_supported(p),
    {
        !self.is_supported(p)
    }
}

/// Result of a parse rule: the expected syntax was not present at all, or a
/// (possibly partial) node was produced.
#[must_use]
pub enum ParsedSyntax<T> {
    /// The rule consumed no input.
    Absent,
    /// The rule produced a node, complete or partial.
    Present(T),
}

impl<T> ParsedSyntax<T> {
    /// The produced node, when there is one.
    pub open spec fn spec_ok(self) -> Option<T> {
        match self {
            ParsedSyntax::Absent => None,
            ParsedSyntax::Present(t) => Some(t),
        }
    }

    pub open spec fn get(self) -> T
        recommends
            self is Present,
    {
        self.spec_ok().unwrap()
    }

    /// Converts into an `Option`, consuming `self`.
    pub fn ok(self) -> (r: Option<T>)
        ensures
            r == self.spec_ok(),
    {
        match self {
            ParsedSyntax::Absent => None,
            ParsedSyntax::Present(t) => Some(t),
        }
    }

    /// Applies `op` to a present node; `Absent` is passed through.
    pub fn and_then<F: FnOnce(T) -> T>(self, op: F) -> (r: ParsedSyntax<T>)
        requires
            forall|t: T| self == ParsedSyntax::Present(t) ==> call_requires(op, (t,)),
        ensures
            r is Present <==> self is Present,
            forall|t: T, u: T|
                self == ParsedSyntax::Present(t) && r == ParsedSyntax::Present(u)
                    ==> call_ensures(op, (t,), u),
    {
        match self {
            ParsedSyntax::Absent => ParsedSyntax::Absent,
            ParsedSyntax::Present(t) => ParsedSyntax::Present(op(t)),
        }
    }

    /// True when a node was produced.
    pub fn is_present(&self) -> (b: bool)
        ensures
            b == (*self is Present),
    {
        match self {
            ParsedSyntax::Present(_) => true,
            ParsedSyntax::Absent => false,
        }
    }

    /// True when nothing was consumed.
    pub fn is_absent(&self) -> (b: bool)
        ensures
            b == (*self is Absent),
    {
        match self {
            ParsedSyntax::Absent => true,
            ParsedSyntax::Present(_) => false,
        }
    }

    /// The produced node; the caller must know one is present.
    pub fn unwrap(self) -> (r: T)
        requires
            self is Present,
        ensures
            self == ParsedSyntax::Present(r),
    {
        match self {
            ParsedSyntax::Present(t) => t,
            ParsedSyntax::Absent => unreached(),
        }
    }

    /// Maps the produced node.
    pub fn map<U, F: FnOnce(T) -> U>(self, mapper: F) -> (r: ParsedSyntax<U>)
        requires
            forall|t: T| self == ParsedSyntax::Present(t) ==> call_requires(mapper, (t,)),
        ensures
            r is Present <==> self is Present,
            forall|t: T, u: U|
                self == ParsedSyntax::Present(t) && r == ParsedSyntax::Present(u)
                    ==> call_ensures(mapper, (t,), u),
    {
        match self {
            ParsedSyntax::Absent => ParsedSyntax::Absent,
            ParsedSyntax::Present(t) => ParsedSyntax::Present(mapper(t)),
        }
    }
}

impl ParsedSyntax<CompletedMarker> {
    /// The node's last events stand at the end of `p`'s log, so the marker
    /// operations of `p` accept it.
    pub open spec fn usable_in(self, p: &Parser) -> bool {
        self is Present ==> self.get().undoable_in(p)
    }

    /// Kind of the node, when one is present.
    pub fn kind(&self) -> (r: Option<SyntaxKind>)
        ensures
            r == match *self {
                ParsedSyntax::Absent => None::<SyntaxKind>,
                ParsedSyntax::Present(m) => Some(m.kind),
            },
    {
        match self {
            ParsedSyntax::Absent => None,
            ParsedSyntax::Present(m) => Some(m.kind),
        }
    }

    /// The node if present; otherwise records the slot as missing and emits a
    /// diagnostic with `message` at the current token.
    pub fn or_missing_with_error(self, p: &mut Parser, message: Vec<char>) -> (r: Option<
        CompletedMarker,
    >)
        requires
            old(p).wf(),
            old(p).open_markers@.len() > 0,
        ensures
            final(p).wf(),
            r == self.spec_ok(),
            final(p).open_markers@ == old(p).open_markers@,
            final(p).source@ == old(p).source@,
            final(p).tokens@ == old(p).tokens@,
            final(p).leading == old(p).leading,
            final(p).pos == old(p).pos,
            final(p).state == old(p).state,
            self is Present ==> *final(p) == *old(p),
            self is Absent ==> {
                &&& final(p).events@ == old(p).events@.push(crate::parser::Event::Missing)
                &&& final(p).diagnostics@ == old(p).diagnostics@.push(
                    (ParseDiagnostic {
                        range: old(p).cur_spec().range,
                        message,
                        secondary: None,
                    }),
                )
                &&& final(p).open_children@ == old(p).open_children@.update(
                    old(p).open_children@.len() - 1,
                    old(p).open_children@.last() + 1,
                )
            },
    {
        match self {
            ParsedSyntax::Present(m) => Some(m),
            ParsedSyntax::Absent => {
                p.missing();
                let range = p.cur_tok().range;
                p.error(ParseDiagnostic::new(range, message));
                None
            },
        }
    }

    /// The node if present; otherwise records the slot as missing.
    pub fn or_missing(self, p: &mut Parser) -> (r: Option<CompletedMarker>)
        requires
            old(p).wf(),
            old(p).open_markers@.len() > 0,
        ensures
            final(p).wf(),
            r == self.spec_ok(),
            final(p).open_markers@ == old(p).open_markers@,
            final(p).diagnostics@ == old(p).diagnostics@,
            final(p).source@ == old(p).source@,
            final(p).tokens@ == old(p).tokens@,
            final(p).leading == old(p).leading,
            final(p).pos == old(p).pos,
            final(p).state == old(p).state,
            self is Present ==> *final(p) == *old(p),
            self is Absent ==> {
                &&& final(p).events@ == old(p).events@.push(crate::parser::Event::Missing)
                &&& final(p).open_children@ == old(p).open_children@.update(
                    old(p).open_children@.len() - 1,
                    old(p).open_children@.last() + 1,
                )
            },
    {
        match self {
            ParsedSyntax::Present(m) => Some(m),
            ParsedSyntax::Absent => {
                p.missing();
                None
            },
        }
    }

    /// A marker wrapping the node if present; otherwise a fresh marker whose
    /// first slot is recorded missing, with a diagnostic.
    pub fn precede_or_missing_with_error(self, p: &mut Parser, message: Vec<char>) -> (m: Marker)
        requires
            old(p).wf(),
            self.usable_in(old(p)),
            self is Present && old(p).open_children@.len() > 0 ==> old(p).open_children@.last()
                >= 1,
        ensures
            final(p).wf(),
            m.is_top_of(final(p)),
            final(p).open_markers@ == old(p).open_markers@.push(m.pos),
            final(p).open_children@.len() == old(p).open_children@.len() + 1,
            final(p).open_children@ == (if self is Present && old(p).open_children@.len() > 0 {
                old(p).open_children@.update(
                    old(p).open_children@.len() - 1,
                    old(p).open_children@.last() - 1,
                ).push(1)
            } else {
                old(p).open_children@.push(1)
            }),
            final(p).source@ == old(p).source@,
            final(p).tokens@ == old(p).tokens@,
            final(p).leading == old(p).leading,
            final(p).pos == old(p).pos,
            final(p).state == old(p).state,
            final(p).last_end == old(p).last_end,
            m.text_start <= final(p).source@.len(),
            self is Present ==> m.text_start == self.get().range.start && final(p).diagnostics@
                == old(p).diagnostics@,
            self is Absent ==> m.text_start == old(p).cur_spec().range.start
                && final(p).diagnostics@ == old(p).diagnostics@.push(
                (ParseDiagnostic {
                    range: old(p).cur_spec().range,
                    message,
                    secondary: None,
                }),
            ),
    {
        match self {
            ParsedSyntax::Present(cm) => cm.precede(p),
            ParsedSyntax::Absent => {
                let range = p.cur_tok().range;
                p.error(ParseDiagnostic::new(range, message));
                let m = p.start();
                p.missing();
                proof {
                    assert(old(p).open_children@.push(0).update(
                        old(p).open_children@.len() as int,
                        1,
                    ) =~= old(p).open_children@.push(1));
                }
                m
            },
        }
    }

    /// A marker wrapping the node if present; otherwise a fresh marker whose
    /// first slot is recorded missing.
    pub fn precede_or_missing(self, p: &mut Parser) -> (m: Marker)
        requires
            old(p).wf(),
            self.usable_in(old(p)),
            self is Present && old(p).open_children@.len() > 0 ==> old(p).open_children@.last()
                >= 1,
        ensures
            final(p).wf(),
            m.is_top_of(final(p)),
            final(p).open_markers@ == old(p).open_markers@.push(m.pos),
            final(p).open_children@.len() == old(p).open_children@.len() + 1,
            final(p).open_children@ == (if self is Present && old(p).open_children@.len() > 0 {
                old(p).open_children@.update(
                    old(p).open_children@.len() - 1,
                    old(p).open_children@.last() - 1,
                ).push(1)
            } else {
                old(p).open_children@.push(1)
            }),
            final(p).diagnostics@ == old(p).diagnostics@,
            final(p).source@ == old(p).source@,
            final(p).tokens@ == old(p).tokens@,
            final(p).leading == old(p).leading,
            final(p).pos == old(p).pos,
            final(p).state == old(p).state,
            final(p).last_end == old(p).last_end,
            m.text_start <= final(p).source@.len(),
            self is Present ==> m.text_start == self.get().range.start,
            self is Absent ==> m.text_start == old(p).cur_spec().range.start,
    {
        match self {
            ParsedSyntax::Present(cm) => cm.precede(p),
            ParsedSyntax::Absent => {
                let m = p.start();
                p.missing();
                proof {
                    assert(old(p).open_children@.push(0).update(
                        old(p).open_children@.len() as int,
                        1,
                    ) =~= old(p).open_children@.push(1));
                }
                m
            },
        }
    }

    /// A marker wrapping the node if present; otherwise a fresh marker.
    pub fn precede(self, p: &mut Parser) -> (m: Marker)
        requires
            old(p).wf(),
            self.usable_in(old(p)),
            self is Present && old(p).open_children@.len() > 0 ==> old(p).open_children@.last()
                >= 1,
        ensures
            final(p).wf(),
            m.is_top_of(final(p)),
            final(p).open_markers@ == old(p).open_markers@.push(m.pos),
            final(p).open_children@.len() == old(p).open_children@.len() + 1,
            final(p).open_children@ == (if self is Present && old(p).open_children@.len() > 0 {
                old(p).open_children@.update(
                    old(p).open_children@.len() - 1,
                    old(p).open_children@.last() - 1,
                ).push(1)
            } else {
                old(p).open_children@.push(
                    if self is Present {
                        1int
                    } else {
                        0int
                    },
                )
            }),
            final(p).diagnostics@ == old(p).diagnostics@,
            final(p).source@ == old(p).source@,
            final(p).tokens@ == old(p).tokens@,
            final(p).leading == old(p).leading,
            final(p).pos == old(p).pos,
            final(p).state == old(p).state,
            final(p).last_end == old(p).last_end,
            m.text_start <= final(p).source@.len(),
            self is Present ==> m.text_start == self.get().range.start,
            self is Absent ==> m.text_start == old(p).cur_spec().range.start,
    {
        match self {
            ParsedSyntax::Present(cm) => cm.precede(p),
            ParsedSyntax::Absent => p.start(),
        }
    }

    /// The node if present; otherwise tries to recover, emitting a diagnostic
    /// with `message` either on the recovered span or at the current token.
    pub fn or_recover(self, p: &mut Parser, recovery: &ParseRecovery, message: Vec<char>) -> (r:
        RecoveryResult)
        requires
            old(p).wf(),
            recovery.unknown_kind != SyntaxKind::Tombstone,
        ensures
            final(p).wf(),
            final(p).source@ == old(p).source@,
            final(p).tokens@ == old(p).tokens@,
            final(p).leading == old(p).leading,
            final(p).state == old(p).state,
            final(p).open_markers@ == old(p).open_markers@,
            final(p).pos >= old(p).pos,
            r is Err ==> final(p).pos == old(p).pos,
            r is Err ==> final(p).open_children@ == old(p).open_children@,
            self is Absent && r is Ok ==> final(p).open_children@ == (if old(
                p,
            ).open_children@.len() >= 1 {
                old(p).open_children@.update(
                    old(p).open_children@.len() - 1,
                    old(p).open_children@.last() + 1,
                )
            } else {
                old(p).open_children@
            }),
            self is Present ==> r == Ok::<CompletedMarker, RecoveryError>(self.get()) && *final(p)
                == *old(p),
            self is Absent ==> {
                &&& (old(p).cur_spec().kind == SyntaxKind::Eof ==> r == Err::<
                    CompletedMarker,
                    RecoveryError,
                >(RecoveryError::Eof))
                &&& ((old(p).cur_spec().kind != SyntaxKind::Eof && in_kind_set(
                    recovery.recoverable@,
                    old(p).cur_spec().kind,
                )) ==> r == Err::<CompletedMarker, RecoveryError>(RecoveryError::AlreadyRecovered))
                &&& ((old(p).cur_spec().kind != SyntaxKind::Eof && !in_kind_set(
                    recovery.recoverable@,
                    old(p).cur_spec().kind,
                )) ==> r is Ok && final(p).pos > old(p).pos)
                &&& final(p).diagnostics@.len() == old(p).diagnostics@.len() + 1
                &&& final(p).diagnostics@.subrange(0, old(p).diagnostics@.len() as int)
                    == old(p).diagnostics@
                &&& final(p).diagnostics@.last().message@ == message@
                &&& (r is Err ==> final(p).diagnostics@.last().range == old(p).cur_spec().range)
                &&& (r matches Ok(cm) ==> cm.kind == recovery.unknown_kind
                    && final(p).diagnostics@.last().range == cm.range)
            },
    {
        match self {
            ParsedSyntax::Present(cm) => Ok(cm),
            ParsedSyntax::Absent => {
                let recovered = recovery.recover(p);
                match recovered {
                    Ok(cm) => {
                        p.error(ParseDiagnostic::new(cm.range, message));
                        proof {
                            assert(p.diagnostics@.subrange(
                                0,
                                old(p).diagnostics@.len() as int,
                            ) =~= old(p).diagnostics@);
                        }
                        Ok(cm)
                    },
                    Err(e) => {
                        let range = p.cur_tok().range;
                        p.error(ParseDiagnostic::new(range, message));
                        proof {
                            assert(p.diagnostics@.subrange(
                                0,
                                old(p).diagnostics@.len() as int,
                            ) =~= old(p).diagnostics@);
                        }
                        Err(e)
                    },
                }
            },
        }
    }

    /// Undoes the node's completion and abandons its marker, if present.
    pub fn abandon(self, p: &mut Parser)
        requires
            old(p).wf(),
            self.usable_in(old(p)),
            old(p).open_children@.len() > 0 ==> old(p).open_children@.last() >= 1,
        ensures
            final(p).wf(),
            final(p).open_markers@ == old(p).open_markers@,
            final(p).diagnostics@ == old(p).diagnostics@,
            final(p).source@ == old(p).source@,
            final(p).tokens@ == old(p).tokens@,
            final(p).leading == old(p).leading,
            final(p).pos == old(p).pos,
            final(p).state == old(p).state,
            self is Absent ==> *final(p) == *old(p),
            self is Present && old(p).open_children@.len() > 0 ==> final(p).open_children@ == old(
                p,
            ).open_children@.update(
                old(p).open_children@.len() - 1,
                old(p).open_children@.last() - 1 + self.get().child_slots@,
            ),
            self is Present && old(p).open_children@.len() == 0 ==> final(p).open_children@
                == old(p).open_children@,
            self is Present ==> final(p).events@ == old(p).events@.drop_last().update(
                self.get().start_pos as int,
                (crate::parser::Event::Start {
                    kind: SyntaxKind::Tombstone,
                    forward_parent: None,
                    range: (TextRange {
                        start: self.get().range.start,
                        end: self.get().range.start,
                    }),
                }),
            ),
    {
        match self {
            ParsedSyntax::Present(cm) => {
                let ghost markers0 = p.open_markers@;
                let ghost kids0 = p.open_children@;
                let m = cm.undo_completion(p);
                m.abandon(p);
                proof {
                    assert(markers0.push(m.pos).drop_last() =~= markers0);
                    if kids0.len() > 0 {
                        let adj = kids0.update(kids0.len() - 1, kids0.last() - 1);
                        assert(adj.push(cm.child_slots@).drop_last() =~= adj);
                        assert(p.open_children@ =~= kids0.update(
                            kids0.len() - 1,
                            kids0.last() - 1 + cm.child_slots@,
                        ));
                    } else {
                        assert(kids0.push(cm.child_slots@).drop_last() =~= kids0);
                    }
                }
            },
            ParsedSyntax::Absent => {},
        }
    }

    /// Classifies a present node as valid syntax.
    pub fn into_valid(self) -> (r: ParsedSyntax<ConditionalSyntax>)
        ensures
            r is Present <==> self is Present,
            self is Present ==> r == ParsedSyntax::Present(ConditionalSyntax::Valid(self.get())),
    {
        match self {
            ParsedSyntax::Absent => ParsedSyntax::Absent,
            ParsedSyntax::Present(cm) => ParsedSyntax::Present(ConditionalSyntax::Valid(cm)),
        }
    }

    /// Valid only if the context supports `feature`; else the node is marked
    /// invalid and a diagnostic with `message` is emitted on its range.
    pub fn exclusive_for(self, feature: JsSyntaxFeature, p: &mut Parser, message: Vec<char>) -> (r:
        ParsedSyntax<ConditionalSyntax>)
        requires
            old(p).wf(),
        ensures
            final(p).wf(),
            r is Present <==> self is Present,
            final(p).events@ == old(p).events@,
            final(p).open_markers@ == old(p).open_markers@,
            final(p).open_children@ == old(p).open_children@,
            final(p).source@ == old(p).source@,
            final(p).tokens@ == old(p).tokens@,
            final(p).leading == old(p).leading,
            final(p).pos == old(p).pos,
            final(p).state == old(p).state,
            final(p).last_end == old(p).last_end,
            self is Present ==> r == ParsedSyntax::Present(
                if feature.spec_is_supported(old(p)) {
                    ConditionalSyntax::Valid(self.get())
                } else {
                    ConditionalSyntax::Invalid(InvalidParsedSyntax(self.get()))
                },
            ),
            (self is Present && feature.spec_is_supported(old(p))) || self is Absent
                ==> final(p).diagnostics@ == old(p).diagnostics@,
            self is Present && !feature.spec_is_supported(old(p))
                ==> final(p).diagnostics@ == old(p).diagnostics@.push(
                (ParseDiagnostic { range: self.get().range, message, secondary: None }),
            ),
    {
        match self {
            ParsedSyntax::Present(cm) => {
                if feature.is_supported(p) {
                    ParsedSyntax::Present(ConditionalSyntax::Valid(cm))
                } else {
                    p.error(ParseDiagnostic::new(cm.range, message));
                    ParsedSyntax::Present(ConditionalSyntax::Invalid(InvalidParsedSyntax(cm)))
                }
            },
            ParsedSyntax::Absent => ParsedSyntax::Absent,
        }
    }

    /// Valid only if the context supports `feature`; no diagnostic.
    pub fn exclusive_for_no_error(self, feature: JsSyntaxFeature, p: &Parser) -> (r: ParsedSyntax<
        ConditionalSyntax,
    >)
        ensures
            r is Present <==> self is Present,
            self is Present ==> r == ParsedSyntax::Present(
                if feature.spec_is_supported(p) {
                    ConditionalSyntax::Valid(self.get())
                } else {
                    ConditionalSyntax::Invalid(InvalidParsedSyntax(self.get()))
                },
            ),
    {
        match self {
            ParsedSyntax::Present(cm) => {
                if feature.is_supported(p) {
                    ParsedSyntax::Present(ConditionalSyntax::Valid(cm))
                } else {
                    ParsedSyntax::Present(ConditionalSyntax::Invalid(InvalidParsedSyntax(cm)))
                }
            },
            ParsedSyntax::Absent => ParsedSyntax::Absent,
        }
    }

    /// Valid only if the context does *not* support `feature`; else the node
    /// is marked invalid and a diagnostic with `message` is emitted.
    pub fn excluding(self, feature: JsSyntaxFeature, p: &mut Parser, message: Vec<char>) -> (r:
        ParsedSyntax<ConditionalSyntax>)
        requires
            old(p).wf(),
        ensures
            final(p).wf(),
            r is Present <==> self is Present,
            final(p).events@ == old(p).events@,
            final(p).open_markers@ == old(p).open_markers@,
            final(p).open_children@ == old(p).open_children@,
            final(p).source@ == old(p).source@,
            final(p).tokens@ == old(p).tokens@,
            final(p).leading == old(p).leading,
            final(p).pos == old(p).pos,
            final(p).state == old(p).state,
            final(p).last_end == old(p).last_end,
            self is Present ==> r == ParsedSyntax::Present(
                if !feature.spec_is_supported(old(p)) {
                    ConditionalSyntax::Valid(self.get())
                } else {
                    ConditionalSyntax::Invalid(InvalidParsedSyntax(self.get()))
                },
            ),
            (self is Present && !feature.spec_is_supported(old(p))) || self is Absent
                ==> final(p).diagnostics@ == old(p).diagnostics@,
            self is Present && feature.spec_is_supported(old(p))
                ==> final(p).diagnostics@ == old(p).diagnostics@.push(
                (ParseDiagnostic { range: self.get().range, message, secondary: None }),
            ),
    {
        match self {
            ParsedSyntax::Present(cm) => {
                if feature.is_unsupported(p) {
                    ParsedSyntax::Present(ConditionalSyntax::Valid(cm))
                } else {
                    p.error(ParseDiagnostic::new(cm.range, message));
                    ParsedSyntax::Present(ConditionalSyntax::Invalid(InvalidParsedSyntax(cm)))
                }
            },
            ParsedSyntax::Absent => ParsedSyntax::Absent,
        }
    }

    /// Valid only if the context does not support `feature`; no diagnostic.
    pub fn excluding_no_error(self, feature: JsSyntaxFeature, p: &Parser) -> (r: ParsedSyntax<
        ConditionalSyntax,
    >)
        ensures
            r is Present <==> self is Present,
            self is Present ==> r == ParsedSyntax::Present(
                if !feature.spec_is_supported(p) {
                    ConditionalSyntax::Valid(self.get())
                } else {
                    ConditionalSyntax::Invalid(InvalidParsedSyntax(self.get()))
                },
            ),
    {
        match self {
            ParsedSyntax::Present(cm) => {
                if feature.is_unsupported(p) {
                    ParsedSyntax::Present(ConditionalSyntax::Valid(cm))
                } else {
                    ParsedSyntax::Present(ConditionalSyntax::Invalid(InvalidParsedSyntax(cm)))
                }
            },
            ParsedSyntax::Absent => ParsedSyntax::Absent,
        }
    }
}

/// A structurally parsed node that may be disallowed in the current context.
#[must_use]
pub enum ConditionalSyntax {
    /// Valid in the current parsing context.
    Valid(CompletedMarker),
    /// Invalid in the current parsing context; must be folded into an
    /// unknown node or abandoned.
    Invalid(InvalidParsedSyntax),
}

impl ConditionalSyntax {
    /// The underlying completed marker, valid or not.
    pub open spec fn spec_marker(self) -> CompletedMarker {
        match self {
            ConditionalSyntax::Valid(cm) => cm,
            ConditionalSyntax::Invalid(inv) => inv.0,
        }
    }

    /// True when the syntax is valid here.
    pub fn is_valid(&self) -> (b: bool)
        ensures
            b == (*self is Valid),
    {
        match self {
            ConditionalSyntax::Valid(_) => true,
            ConditionalSyntax::Invalid(_) => false,
        }
    }

    /// True when the syntax is invalid here.
    pub fn is_invalid(&self) -> (b: bool)
        ensures
            b == (*self is Invalid),
    {
        match self {
            ConditionalSyntax::Invalid(_) => true,
            ConditionalSyntax::Valid(_) => false,
        }
    }

    /// The underlying completed marker.
    pub fn completed_marker(&self) -> (cm: &CompletedMarker)
        ensures
            *cm == self.spec_marker(),
    {
        match self {
            ConditionalSyntax::Valid(cm) => cm,
            ConditionalSyntax::Invalid(inv) => &inv.0,
        }
    }

    /// A valid node is returned as is; an invalid one has its kind rewritten
    /// to `unknown_kind`, so it stays in the tree but is tagged unusable.
    pub fn or_invalid_to_unknown(self, p: &mut Parser, unknown_kind: SyntaxKind) -> (cm:
        CompletedMarker)
        requires
            old(p).wf(),
            self.spec_marker().complete_in(old(p)),
            unknown_kind != SyntaxKind::Tombstone,
        ensures
            final(p).wf(),
            cm.kind == (if self is Valid {
                self.spec_marker().kind
            } else {
                unknown_kind
            }),
            cm.range == self.spec_marker().range,
            cm.start_pos == self.spec_marker().start_pos,
            cm.finish_pos == self.spec_marker().finish_pos,
            cm.child_slots == self.spec_marker().child_slots,
            cm.complete_in(final(p)),
            self.spec_marker().undoable_in(old(p)) ==> cm.undoable_in(final(p)),
            self is Valid ==> *final(p) == *old(p),
            final(p).open_markers@ == old(p).open_markers@,
            final(p).open_children@ == old(p).open_children@,
            final(p).diagnostics@ == old(p).diagnostics@,
            final(p).source@ == old(p).source@,
            final(p).tokens@ == old(p).tokens@,
            final(p).leading == old(p).leading,
            final(p).pos == old(p).pos,
            final(p).last_end == old(p).last_end,
            final(p).state == old(p).state,
            final(p).events@.len() == old(p).events@.len(),
    {
        match self {
            ConditionalSyntax::Valid(cm) => cm,
            ConditionalSyntax::Invalid(inv) => inv.or_to_unknown(p, unknown_kind),
        }
    }

    /// The marker of a valid node; the caller must know it is valid.
    pub fn unwrap(self) -> (cm: CompletedMarker)
        requires
            self is Valid,
        ensures
            self == ConditionalSyntax::Valid(cm),
    {
        match self {
            ConditionalSyntax::Valid(cm) => cm,
            ConditionalSyntax::Invalid(_) => unreached(),
        }
    }
}

impl ParsedSyntax<ConditionalSyntax> {
    /// Folds a present invalid node into `unknown_kind`; `Absent` and valid
    /// nodes pass through.
    pub fn or_invalid_to_unknown(self, p: &mut Parser, unknown_kind: SyntaxKind) -> (r:
        ParsedSyntax<CompletedMarker>)
        requires
            old(p).wf(),
            self is Present ==> self.get().spec_marker().complete_in(old(p)),
            unknown_kind != SyntaxKind::Tombstone,
        ensures
            final(p).wf(),
            r is Present <==> self is Present,
            self is Absent ==> *final(p) == *old(p),
            final(p).open_markers@ == old(p).open_markers@,
            final(p).open_children@ == old(p).open_children@,
            final(p).diagnostics@ == old(p).diagnostics@,
            final(p).source@ == old(p).source@,
            final(p).tokens@ == old(p).tokens@,
            final(p).leading == old(p).leading,
            final(p).pos == old(p).pos,
            final(p).last_end == old(p).last_end,
            final(p).state == old(p).state,
            self is Present ==> {
                &&& r.get().kind == (if self.get() is Valid {
                    self.get().spec_marker().kind
                } else {
                    unknown_kind
                })
                &&& r.get().range == self.get().spec_marker().range
                &&& r.get().complete_in(final(p))
                &&& (self.get().spec_marker().undoable_in(old(p)) ==> r.get().undoable_in(
                    final(p),
                ))
            },
    {
        match self {
            ParsedSyntax::Absent => ParsedSyntax::Absent,
            ParsedSyntax::Present(syntax) => ParsedSyntax::Present(
                syntax.or_invalid_to_unknown(p, unknown_kind),
            ),
        }
    }
}

/// A parsed node that is invalid in this parsing context.
#[must_use]
pub struct InvalidParsedSyntax(pub CompletedMarker);

impl InvalidParsedSyntax {
    pub fn new(syntax: CompletedMarker) -> (r: InvalidParsedSyntax)
        ensures
            r.0 == syntax,
    {
        InvalidParsedSyntax(syntax)
    }

    /// Rewrites the node's kind to the given unknown kind, keeping it in the
    /// tree.
    pub fn or_to_unknown(self, p: &mut Parser, unknown_kind: SyntaxKind) -> (cm: CompletedMarker)
        requires
            old(p).wf(),
            self.0.complete_in(old(p)),
            unknown_kind != SyntaxKind::Tombstone,
        ensures
            final(p).wf(),
            cm.kind == unknown_kind,
            cm.range == self.0.range,
            cm.start_pos == self.0.start_pos,
            cm.finish_pos == self.0.finish_pos,
            cm.child_slots == self.0.child_slots,
            cm.complete_in(final(p)),
            self.0.undoable_in(old(p)) ==> cm.undoable_in(final(p)),
            final(p).open_markers@ == old(p).open_markers@,
            final(p).open_children@ == old(p).open_children@,
            final(p).diagnostics@ == old(p).diagnostics@,
            final(p).source@ == old(p).source@,
            final(p).tokens@ == old(p).tokens@,
            final(p).leading == old(p).leading,
            final(p).pos == old(p).pos,
            final(p).last_end == old(p).last_end,
            final(p).state == old(p).state,
            final(p).events@.len() == old(p).events@.len(),
    {
        let mut cm = self.0;
        cm.change_kind(p, unknown_kind);
        cm
    }

    /// Undoes the completion and abandons the node's marker.
    pub fn abandon(self, p: &mut Parser)
        requires
            old(p).wf(),
            self.0.undoable_in(old(p)),
            old(p).open_children@.len() > 0 ==> old(p).open_children@.last() >= 1,
        ensures
            final(p).wf(),
            final(p).open_markers@ == old(p).open_markers@,
            final(p).diagnostics@ == old(p).diagnostics@,
            final(p).source@ == old(p).source@,
            final(p).tokens@ == old(p).tokens@,
            final(p).leading == old(p).leading,
            final(p).pos == old(p).pos,
            final(p).state == old(p).state,
            old(p).open_children@.len() > 0 ==> final(p).open_children@ == old(
                p,
            ).open_children@.update(
                old(p).open_children@.len() - 1,
                old(p).open_children@.last() - 1 + self.0.child_slots@,
            ),
            old(p).open_children@.len() == 0 ==> final(p).open_children@ == old(
                p,
            ).open_children@,
    {
        let ghost markers0 = p.open_markers@;
        let ghost kids0 = p.open_children@;
        let m = self.0.undo_completion(p);
        m.abandon(p);
        proof {
            assert(markers0.push(m.pos).drop_last() =~= markers0);
            if kids0.len() > 0 {
                let adj = kids0.update(kids0.len() - 1, kids0.last() - 1);
                assert(adj.push(self.0.child_slots@).drop_last() =~= adj);
                assert(p.open_children@ =~= kids0.update(
                    kids0.len() - 1,
                    kids0.last() - 1 + self.0.child_slots@,
                ));
            } else {
                assert(kids0.push(self.0.child_slots@).drop_last() =~= kids0);
            }
        }
    }

    /// A new marker wrapping this invalid node.
    pub fn precede(self, p: &mut Parser) -> (m: Marker)
        requires
            old(p).wf(),
            self.0.complete_in(old(p)),
            old(p).open_children@.len() > 0 ==> old(p).open_children@.last() >= 1,
        ensures
            final(p).wf(),
            m.is_top_of(final(p)),
            m.text_start == self.0.range.start,
            final(p).open_markers@ == old(p).open_markers@.push(m.pos),
            final(p).diagnostics@ == old(p).diagnostics@,
            final(p).source@ == old(p).source@,
            final(p).tokens@ == old(p).tokens@,
            final(p).leading == old(p).leading,
            final(p).pos == old(p).pos,
            final(p).state == old(p).state,
    {
        self.0.precede(p)
    }
}

} // verus!

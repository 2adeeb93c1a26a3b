//! Error recovery: when a rule cannot parse, the unexpected tokens are
//! consumed into one synthetic unknown node until a safe token or the end of
//! the file is reached. Recovery either consumes at least one token or fails
//! without consuming anything, and always terminates.

use vstd::prelude::*;

use crate::kind::SyntaxKind;
use crate::parser::{CompletedMarker, Parser};

verus! {

/// Why recovery did nothing.
#[derive(Clone, Copy, Debug, PartialEq, Eq, Structural)]
pub enum RecoveryError {
    /// The parser already stands at the end of the file.
    Eof,
    /// The parser already stands at a safe token.
    AlreadyRecovered,
}

/// Outcome of [`ParsedSyntax::or_recover`]: the present or recovered node, or
/// the reason nothing could be recovered.
pub type RecoveryResult = Result<CompletedMarker, RecoveryError>;

/// The safe token kinds at which recovery stops, and the kind given to the
/// synthetic node holding the consumed tokens.
pub struct ParseRecovery {
    pub recoverable: Vec<SyntaxKind>,
    pub unknown_kind: SyntaxKind,
}

/// `k` is one of the safe kinds.
pub open spec fn in_kind_set(set: Seq<SyntaxKind>, k: SyntaxKind) -> bool {
    exists|i: int| 0 <= i < set.len() && set[i] == k
}

impl ParseRecovery {
    pub fn new(recoverable: Vec<SyntaxKind>, unknown_kind: SyntaxKind) -> (r: ParseRecovery)
        requires
            unknown_kind != SyntaxKind::Tombstone,
        ensures
            r.recoverable@ == recoverable@,
            r.unknown_kind == unknown_kind,
    {
        ParseRecovery { recoverable, unknown_kind }
    }

    fn at_safe(&self, p: &Parser) -> (b: bool)
        requires
            p.wf(),
        ensures
            b == in_kind_set(self.recoverable@, p.cur_spec().kind),
    {
        let k = p.cur();
        let mut i: usize = 0;
        while i < self.recoverable.len()
            invariant
                i <= self.recoverable@.len(),
                k == p.cur_spec().kind,
                forall|j: int| 0 <= j < i ==> self.recoverable@[j] != k,
            decreases self.recoverable@.len() - i,
        {
            if self.recoverable[i] == k {
                return true;
            }
            i = i + 1;
        }
        false
    }

    /// Consumes tokens into a synthetic node of `unknown_kind` until a safe
    /// token or the end of the file. Fails, consuming nothing, if the parser
    /// already stands at a safe token or at the end of the file; otherwise it
    /// consumes at least one token.
    pub fn recover(&self, p: &mut Parser) -> (r: RecoveryResult)
        requires
            old(p).wf(),
            self.unknown_kind != SyntaxKind::Tombstone,
        ensures
            final(p).wf(),
            final(p).source@ == old(p).source@,
            final(p).tokens@ == old(p).tokens@,
            final(p).leading == old(p).leading,
            final(p).diagnostics@ == old(p).diagnostics@,
            final(p).state == old(p).state,
            final(p).open_markers@ == old(p).open_markers@,
            old(p).cur_spec().kind == SyntaxKind::Eof ==> r == Err::<
                CompletedMarker,
                RecoveryError,
            >(RecoveryError::Eof) && *final(p) == *old(p),
            (old(p).cur_spec().kind != SyntaxKind::Eof && in_kind_set(
                self.recoverable@,
                old(p).cur_spec().kind,
            )) ==> r == Err::<CompletedMarker, RecoveryError>(RecoveryError::AlreadyRecovered)
                && *final(p) == *old(p),
            (old(p).cur_spec().kind != SyntaxKind::Eof && !in_kind_set(
                self.recoverable@,
                old(p).cur_spec().kind,
            )) ==> {
                &&& r is Ok
                &&& final(p).pos > old(p).pos
                &&& (final(p).cur_spec().kind == SyntaxKind::Eof || in_kind_set(
                    self.recoverable@,
                    final(p).cur_spec().kind,
                ))
            },
            r matches Ok(cm) ==> {
                &&& cm.kind == self.unknown_kind
                &&& cm.range.start == old(p).cur_spec().range.start
                &&& cm.complete_in(final(p))
                &&& cm.undoable_in(final(p))
                &&& final(p).open_children@ == (if old(p).open_children@.len() >= 1 {
                    old(p).open_children@.update(
                        old(p).open_children@.len() - 1,
                        old(p).open_children@.last() + 1,
                    )
                } else {
                    old(p).open_children@
                })
            },
    {
        if p.at(SyntaxKind::Eof) {
            return Err(RecoveryError::Eof);
        }
        if self.at_safe(p) {
            return Err(RecoveryError::AlreadyRecovered);
        }
        let m = p.start();
        let k = p.cur();
        p.bump(k);
        proof {
            assert(p.open_children@.drop_last() =~= old(p).open_children@);
        }
        while !p.at(SyntaxKind::Eof) && !self.at_safe(p)
            invariant
                p.wf(),
                p.source@ == old(p).source@,
                p.tokens@ == old(p).tokens@,
                p.leading == old(p).leading,
                p.diagnostics@ == old(p).diagnostics@,
                p.state == old(p).state,
                p.pos > old(p).pos,
                m.is_top_of(p),
                p.open_markers@ == old(p).open_markers@.push(m.pos),
                p.open_children@.len() == old(p).open_children@.len() + 1,
                p.open_children@.drop_last() == old(p).open_children@,
                m.text_start == old(p).cur_spec().range.start,
                m.text_start <= p.source@.len(),
            decreases p.tokens@.len() - p.pos,
        {
            let k = p.cur();
            p.bump(k);
            proof {
                assert(p.open_children@.drop_last() =~= old(p).open_children@);
            }
        }
        let ghost markers_before = p.open_markers@;
        let cm = m.complete(p, self.unknown_kind);
        proof {
            assert(markers_before.drop_last() =~= old(p).open_markers@);
        }
        Ok(cm)
    }
}

} // verus!

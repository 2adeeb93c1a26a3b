//! The closed set of token and node kinds the tooling core works with.
//!
//! The grammar covered here is the subset the analyzers and the binding rules
//! need: `let`/`const` declarations, identifier/array/object binding patterns
//! with optional defaults, and simple binary expressions.

use vstd::prelude::*;

verus! {

/// Kind of a token or of a syntax node.
///
/// `Tombstone` is internal to the event log: it marks a start event whose
/// marker was abandoned (or not yet completed) and never becomes a node.
/// `Missing` is the kind of the empty placeholder leaf that keeps every
/// production at its fixed arity when a child is absent.
#[derive(Clone, Copy, Debug, PartialEq, Eq, Structural, Hash)]
pub enum SyntaxKind {
    Tombstone,
    Eof,
    // Token kinds.
    Whitespace,
    Ident,
    LetKw,
    ConstKw,
    Number,
    Semicolon,
    Comma,
    Eq,
    Eq2,
    Eq3,
    LAngle,
    RAngle,
    LBrack,
    RBrack,
    LCurly,
    RCurly,
    Colon,
    DotDotDot,
    ErrorToken,
    // Node kinds.
    JsRoot,
    JsVariableDeclaration,
    JsVariableDeclarator,
    JsIdentifierExpression,
    JsNumberLiteralExpression,
    JsBinaryExpression,
    JsExpressionStatement,
    JsIdentifierBinding,
    JsArrayBinding,
    JsArrayRestBinding,
    JsObjectBinding,
    JsObjectRestBinding,
    JsPropertyBinding,
    JsShorthandPropertyBinding,
    JsBindingWithDefault,
    JsEqualValueClause,
    JsLiteralMemberName,
    JsUnknownBinding,
    JsUnknownStatement,
    Missing,
}

impl SyntaxKind {
    /// Trivia tokens are part of the text but of no production.
    pub open spec fn spec_is_trivia(&self) -> bool {
        *self == SyntaxKind::Whitespace
    }

    #[verifier::when_used_as_spec(spec_is_trivia)]
    pub fn is_trivia(&self) -> (b: bool)
        ensures
            b == self.spec_is_trivia(),
    {
        *self == SyntaxKind::Whitespace
    }
}

} // verus!

//! Diagnostics produced while parsing: a primary range and message, and at
//! most one secondary label (used e.g. to point a duplicate binding at the
//! first declaration).

use vstd::prelude::*;

use crate::text::TextRange;

verus! {

/// A secondary label of a parse diagnostic.
#[derive(Clone, Debug)]
pub struct Label {
    pub range: TextRange,
    pub message: Vec<char>,
}

/// A diagnostic attached to a precise range of the parsed text.
#[derive(Clone, Debug)]
pub struct ParseDiagnostic {
    pub range: TextRange,
    pub message: Vec<char>,
    pub secondary: Option<Label>,
}

/// Mathematical image of a [`Label`].
pub struct LabelView {
    pub range: TextRange,
    pub message: Seq<char>,
}

/// Mathematical image of a [`ParseDiagnostic`].
pub struct ParseDiagnosticView {
    pub range: TextRange,
    pub message: Seq<char>,
    pub secondary: Option<LabelView>,
}

impl View for Label {
    type V = LabelView;

    open spec fn view(&self) -> LabelView {
        LabelView { range: self.range, message: self.message@ }
    }
}

impl View for ParseDiagnostic {
    type V = ParseDiagnosticView;

    open spec fn view(&self) -> ParseDiagnosticView {
        ParseDiagnosticView {
            range: self.range,
            message: self.message@,
            secondary: match self.secondary {
                Some(l) => Some(l@),
                None => None,
            },
        }
    }
}

impl ParseDiagnostic {
    /// A diagnostic with no secondary label.
    pub fn new(range: TextRange, message: Vec<char>) -> (d: ParseDiagnostic)
        ensures
            d == (ParseDiagnostic { range, message, secondary: None }),
    {
        ParseDiagnostic { range, message, secondary: None }
    }

    /// A diagnostic with a secondary label.
    pub fn with_secondary(
        range: TextRange,
        message: Vec<char>,
        secondary_range: TextRange,
        secondary_message: Vec<char>,
    ) -> (d: ParseDiagnostic)
        ensures
            d == (ParseDiagnostic {
                range,
                message,
                secondary: Some(
                    Label { range: secondary_range, message: secondary_message },
                ),
            }),
    {
        ParseDiagnostic {
            range,
            message,
            secondary: Some(Label { range: secondary_range, message: secondary_message }),
        }
    }

    /// A copy of the diagnostic, equal in image.
    pub fn duplicate(&self) -> (r: ParseDiagnostic)
        ensures
            r@ == self@,
    {
        let message = crate::text::copy_chars(&self.message);
        let secondary = match &self.secondary {
            Some(l) => Some(
                Label { range: l.range, message: crate::text::copy_chars(&l.message) },
            ),
            None => None,
        };
        ParseDiagnostic { range: self.range, message, secondary }
    }

    /// Equality of diagnostics, decided by their mathematical images.
    pub fn equals(&self, other: &ParseDiagnostic) -> (r: bool)
        ensures
            r == (self@ == other@),
    {
        let ranges_eq = self.range == other.range && crate::text::chars_eq(
            &self.message,
            &other.message,
        );
        if !ranges_eq {
            return false;
        }
        match (&self.secondary, &other.secondary) {
            (Some(a), Some(b)) => a.range == b.range && crate::text::chars_eq(
                &a.message,
                &b.message,
            ),
            (None, None) => true,
            _ => false,
        }
    }
}

/// The images of a list of diagnostics.
pub open spec fn diags_view(s: Seq<ParseDiagnostic>) -> Seq<ParseDiagnosticView> {
    s.map(|i: int, d: ParseDiagnostic| d@)
}

/// Whether two diagnostic lists are equal, element for element.
pub fn diags_eq(a: &Vec<ParseDiagnostic>, b: &Vec<ParseDiagnostic>) -> (r: bool)
    ensures
        r == (diags_view(a@) == diags_view(b@)),
{
    if a.len() != b.len() {
        proof {
            assert(diags_view(a@).len() == a@.len());
            assert(diags_view(b@).len() == b@.len());
        }
        return false;
    }
    let mut i: usize = 0;
    while i < a.len()
        invariant
            i <= a@.len(),
            a@.len() == b@.len(),
            forall|k: int| 0 <= k < i ==> #[trigger] diags_view(a@)[k] == diags_view(b@)[k],
        decreases a@.len() - i,
    {
        if !a[i].equals(&b[i]) {
            proof {
                assert(diags_view(a@)[i as int] != diags_view(b@)[i as int]);
            }
            return false;
        }
        proof {
            assert(diags_view(a@)[i as int] == diags_view(b@)[i as int]);
        }
        i = i + 1;
    }
    proof {
        assert(diags_view(a@) =~= diags_view(b@));
    }
    true
}

/// A copy of a diagnostic list, equal in image.
pub fn copy_diags(a: &Vec<ParseDiagnostic>) -> (r: Vec<ParseDiagnostic>)
    ensures
        diags_view(r@) == diags_view(a@),
{
    let mut r: Vec<ParseDiagnostic> = Vec::new();
    let mut i: usize = 0;
    while i < a.len()
        invariant
            i <= a@.len(),
            diags_view(r@) == diags_view(a@.subrange(0, i as int)),
        decreases a@.len() - i,
    {
        let d = a[i].duplicate();
        let ghost before = r@;
        let ghost dv = d@;
        r.push(d);
        proof {
            assert(diags_view(r@) =~= diags_view(before).push(dv));
            assert(diags_view(a@.subrange(0, i + 1)) =~= diags_view(
                a@.subrange(0, i as int),
            ).push(a@[i as int]@));
        }
        i = i + 1;
    }
    proof {
        assert(a@.subrange(0, a@.len() as int) =~= a@);
    }
    r
}

} // verus!

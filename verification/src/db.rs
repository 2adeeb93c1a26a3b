//! The incremental query database: input cells hold file texts, derived
//! cells cache the parse, the node-kind index and the range-filtered index.
//!
//! Setting an input bumps the revision; derived values are revalidated
//! lazily on read. A recomputation whose result equals the cached value
//! keeps the cell's `changed_rev`, so queries layered on top see their
//! dependency as unchanged and are not recomputed — the early cutoff that
//! makes the engine incremental. The `*_count` counters record actual
//! recomputations, so the cutoff is observable.

use vstd::prelude::*;

use crate::diagnostic::{copy_diags, diags_eq, ParseDiagnostic};
use crate::grammar::{parse_text, Parse};
use crate::kind::SyntaxKind;
use crate::text::TextRange;
use crate::tree::{
    copy_refs, filter_refs_in_range, leaf_ranges, nodes_of_kind_view, ranges_partition, refs_eq,
    refs_in_range_view, refs_view, SyntaxNodeRef, SyntaxNodeRefView, SyntaxTree,
};

verus! {

/// Identity of a logical input file, stable for the process lifetime.
#[derive(Clone, Copy, Debug, PartialEq, Eq, Structural, Hash, PartialOrd, Ord)]
pub struct FileId(pub usize);

/// Cached parse of one file.
pub struct ParseEntry {
    pub value: Parse,
    /// Revision at which the entry was last seen valid.
    pub verified_rev: u64,
    /// Revision at which the value last actually changed.
    pub changed_rev: u64,
}

/// Cached node-kind index of one file.
pub struct NodesEntry {
    pub kind: SyntaxKind,
    pub value: Vec<SyntaxNodeRef>,
    pub verified_rev: u64,
    pub changed_rev: u64,
}

/// Cached range-filtered index of one file.
pub struct RangeEntry {
    pub kind: SyntaxKind,
    pub range: TextRange,
    pub value: Vec<SyntaxNodeRef>,
    pub verified_rev: u64,
    pub changed_rev: u64,
}

/// One file: its input text and the derived cells computed from it.
pub struct FileCell {
    pub text: Vec<char>,
    pub text_rev: u64,
    pub parse: Option<ParseEntry>,
    pub nodes: Vec<NodesEntry>,
    pub ranges: Vec<RangeEntry>,
}

/// The process-wide database of inputs and memoized derived values.
pub struct RootDatabase {
    pub files: Vec<FileCell>,
    pub revision: u64,
    pub parse_count: u64,
    pub nodes_count: u64,
    pub ranges_count: u64,
}

/// First cached node index for `kind`, if any.
pub open spec fn find_nodes_entry(entries: Seq<NodesEntry>, kind: SyntaxKind) -> Option<
    NodesEntry,
>
    decreases entries.len(),
{
    if entries.len() == 0 {
        None
    } else if entries[0].kind == kind {
        Some(entries[0])
    } else {
        find_nodes_entry(entries.drop_first(), kind)
    }
}

/// First cached range index for `(kind, range)`, if any.
pub open spec fn find_range_entry(
    entries: Seq<RangeEntry>,
    kind: SyntaxKind,
    range: TextRange,
) -> Option<RangeEntry>
    decreases entries.len(),
{
    if entries.len() == 0 {
        None
    } else if entries[0].kind == kind && entries[0].range == range {
        Some(entries[0])
    } else {
        find_range_entry(entries.drop_first(), kind, range)
    }
}

pub open spec fn parse_entry_wf(e: ParseEntry, cell: FileCell, revision: u64) -> bool {
    &&& e.verified_rev <= revision
    &&& e.changed_rev <= e.verified_rev
    &&& e.value.tree.wf()
    &&& e.value.tree.nodes@[0].kind == SyntaxKind::JsRoot
    &&& ranges_partition(leaf_ranges(e.value.tree.nodes@), e.value.tree.source@.len() as int)
    &&& (e.verified_rev >= cell.text_rev ==> e.value.tree.source@ == cell.text@)
}

pub open spec fn nodes_entry_wf(n: NodesEntry, cell: FileCell, revision: u64) -> bool {
    &&& n.verified_rev <= revision
    &&& n.changed_rev <= n.verified_rev
    &&& (cell.parse matches Some(pe) ==> n.verified_rev <= pe.verified_rev)
    &&& (cell.parse matches Some(pe) ==> (n.verified_rev >= pe.changed_rev ==> refs_view(
        n.value@,
    ) == nodes_of_kind_view(pe.value.tree.nodes@, n.kind)))
}

pub open spec fn range_entry_wf(r: RangeEntry, cell: FileCell, revision: u64) -> bool {
    &&& r.verified_rev <= revision
    &&& r.changed_rev <= r.verified_rev
    &&& (find_nodes_entry(cell.nodes@, r.kind) matches Some(ne) ==> r.verified_rev
        <= ne.verified_rev)
    &&& (find_nodes_entry(cell.nodes@, r.kind) matches Some(ne) ==> (r.verified_rev
        >= ne.changed_rev ==> refs_view(r.value@) == refs_in_range_view(
        refs_view(ne.value@),
        r.range,
    )))
}

pub open spec fn cell_wf(cell: FileCell, revision: u64) -> bool {
    &&& cell.text_rev <= revision
    &&& (cell.parse is None ==> cell.nodes@.len() == 0 && cell.ranges@.len() == 0)
    &&& forall|k: int|
        0 <= k < cell.ranges@.len() ==> find_nodes_entry(
            cell.nodes@,
            (#[trigger] cell.ranges@[k]).kind,
        ) is Some
    &&& (cell.parse matches Some(pe) ==> parse_entry_wf(pe, cell, revision))
    &&& forall|k: int|
        0 <= k < cell.nodes@.len() ==> nodes_entry_wf(#[trigger] cell.nodes@[k], cell, revision)
    &&& forall|k: int|
        0 <= k < cell.ranges@.len() ==> range_entry_wf(
            #[trigger] cell.ranges@[k],
            cell,
            revision,
        )
}

impl RootDatabase {
    pub open spec fn wf(&self) -> bool {
        forall|k: int|
            0 <= k < self.files@.len() ==> cell_wf(#[trigger] self.files@[k], self.revision)
    }

    /// The input file has been set.
    pub open spec fn file_set(&self, file_id: FileId) -> bool {
        file_id.0 < self.files@.len()
    }

    /// The current text of the input file.
    pub open spec fn text_of(&self, file_id: FileId) -> Seq<char> {
        self.files@[file_id.0 as int].text@
    }

    /// All input texts are as before.
    pub open spec fn same_inputs(&self, other: &RootDatabase) -> bool {
        &&& other.files@.len() == self.files@.len()
        &&& forall|k: int|
            0 <= k < self.files@.len() ==> (#[trigger] other.files@[k]).text@
                == self.files@[k].text@ && other.files@[k].text_rev == self.files@[k].text_rev
        &&& other.revision == self.revision
    }

    pub fn new() -> (db: RootDatabase)
        ensures
            db.wf(),
            db.files@.len() == 0,
            db.revision == 0,
            db.parse_count == 0,
            db.nodes_count == 0,
            db.ranges_count == 0,
    {
        RootDatabase {
            files: Vec::new(),
            revision: 0,
            parse_count: 0,
            nodes_count: 0,
            ranges_count: 0,
        }
    }

    /// Overwrites the input cell of `file_id` (creating it if new) and bumps
    /// the revision: every derived cell that read this input becomes stale
    /// and is revalidated lazily on its next read, not eagerly.
    pub fn set_file_text(&mut self, file_id: FileId, text: Vec<char>)
        requires
            old(self).wf(),
            old(self).revision < u64::MAX,
        ensures
            final(self).wf(),
            final(self).file_set(file_id),
            final(self).text_of(file_id) == text@,
            final(self).revision == old(self).revision + 1,
            final(self).parse_count == old(self).parse_count,
            final(self).nodes_count == old(self).nodes_count,
            final(self).ranges_count == old(self).ranges_count,
            final(self).files@.len() >= old(self).files@.len(),
            forall|k: int|
                0 <= k < old(self).files@.len() && k != file_id.0 ==> (
                #[trigger] final(self).files@[k]).text@ == old(self).files@[k].text@,
    {
        while self.files.len() <= file_id.0
            invariant
                self.wf(),
                self.revision == old(self).revision,
                self.files@.len() >= old(self).files@.len(),
                self.parse_count == old(self).parse_count,
                self.nodes_count == old(self).nodes_count,
                self.ranges_count == old(self).ranges_count,
                forall|k: int|
                    0 <= k < old(self).files@.len() ==> (#[trigger] self.files@[k]) == old(self).files@[k],
            decreases file_id.0 + 1 - self.files@.len(),
        {
            self.files.push(
                FileCell {
                    text: Vec::new(),
                    text_rev: 0,
                    parse: None,
                    nodes: Vec::new(),
                    ranges: Vec::new(),
                },
            );
        }
        self.revision = self.revision + 1;
        let mut cell = FileCell {
            text,
            text_rev: self.revision,
            parse: None,
            nodes: Vec::new(),
            ranges: Vec::new(),
        };
        let k = file_id.0;
        core::mem::swap(&mut self.files[k], &mut cell);
        let FileCell { text: _, text_rev: _, parse, nodes, ranges } = cell;
        let replaced = &mut self.files[k];
        replaced.parse = parse;
        replaced.nodes = nodes;
        replaced.ranges = ranges;
    }

    /// Revalidates the cached parse of the file: reuses it when the text did
    /// not change since it was verified; otherwise reparses, and — when the
    /// fresh result equals the cached one — keeps the old `changed_rev`, so
    /// dependent cells stay valid.
    fn ensure_parse(&mut self, file_id: FileId)
        requires
            old(self).wf(),
            old(self).file_set(file_id),
        ensures
            final(self).wf(),
            old(self).same_inputs(final(self)),
            final(self).files@.len() == old(self).files@.len(),
            forall|k: int|
                0 <= k < old(self).files@.len() && k != file_id.0 ==> #[trigger] final(self).files@[k] == old(self).files@[k],
            final(self).files@[file_id.0 as int].nodes@ == old(self).files@[file_id.0 as int].nodes@,
            final(self).files@[file_id.0 as int].ranges@ == old(self).files@[file_id.0 as int].ranges@,
            final(self).nodes_count == old(self).nodes_count,
            final(self).ranges_count == old(self).ranges_count,
            (final(self).files@[file_id.0 as int].parse matches Some(pe) && pe.verified_rev
                == final(self).revision && pe.value.tree.source@ == final(self).text_of(file_id)),
            (old(self).files@[file_id.0 as int].parse matches Some(pe) ==> (pe.verified_rev
                >= old(self).files@[file_id.0 as int].text_rev ==> {
                &&& final(self).parse_count == old(self).parse_count
                &&& (final(self).files@[file_id.0 as int].parse matches Some(pe2)
                    && pe2.value.tree.source@ == pe.value.tree.source@ && pe2.value.tree.nodes@
                    == pe.value.tree.nodes@ && crate::diagnostic::diags_view(
                    pe2.value.diagnostics@,
                ) == crate::diagnostic::diags_view(pe.value.diagnostics@) && pe2.changed_rev
                    == pe.changed_rev)
            })),
            (old(self).files@[file_id.0 as int].parse matches Some(pe) ==> (final(self).files@[file_id.0 as int].parse matches Some(pe2) ==> ((pe2.value.tree.nodes@
                == pe.value.tree.nodes@ && pe2.value.tree.source@ == pe.value.tree.source@
                && crate::diagnostic::diags_view(pe2.value.diagnostics@)
                == crate::diagnostic::diags_view(pe.value.diagnostics@)) ==> pe2.changed_rev
                == pe.changed_rev))),
            (old(self).files@[file_id.0 as int].parse is None ==> (final(self).files@[file_id.0 as int].parse matches Some(pe2) ==> pe2.changed_rev == final(self).revision)),
            (old(self).files@[file_id.0 as int].parse matches Some(pe) ==> (final(self).files@[file_id.0 as int].parse matches Some(pe2) ==> (pe2.changed_rev
                == pe.changed_rev || pe2.changed_rev == final(self).revision))),
            (old(self).files@[file_id.0 as int].parse matches Some(pe) ==> (final(self).files@[file_id.0 as int].parse matches Some(pe2) ==> (pe2.changed_rev
                == pe.changed_rev ==> (pe2.value.tree.nodes@ == pe.value.tree.nodes@
                && pe2.value.tree.source@ == pe.value.tree.source@
                && crate::diagnostic::diags_view(pe2.value.diagnostics@)
                == crate::diagnostic::diags_view(pe.value.diagnostics@))))),
    {
        let k = file_id.0;
        let revision = self.revision;
        let needs_recompute: bool;
        {
            let cell = &self.files[k];
            match &cell.parse {
                Some(pe) => {
                    if pe.verified_rev == revision {
                        return ;
                    }
                    needs_recompute = pe.verified_rev < cell.text_rev;
                },
                None => {
                    needs_recompute = true;
                },
            }
        }
        if !needs_recompute {
            let ghost oldcell = self.files@[k as int];
            let cell = &mut self.files[k];
            match &mut cell.parse {
                Some(pe) => {
                    pe.verified_rev = revision;
                },
                None => {},
            }
            proof {
                let newcell = self.files@[k as int];
                assert forall|j: int|
                    0 <= j < newcell.nodes@.len() implies nodes_entry_wf(
                    #[trigger] newcell.nodes@[j],
                    newcell,
                    self.revision,
                ) by {
                    assert(nodes_entry_wf(oldcell.nodes@[j], oldcell, self.revision));
                }
                assert forall|j: int|
                    0 <= j < newcell.ranges@.len() implies range_entry_wf(
                    #[trigger] newcell.ranges@[j],
                    newcell,
                    self.revision,
                ) by {
                    assert(range_entry_wf(oldcell.ranges@[j], oldcell, self.revision));
                }
                assert(cell_wf(newcell, self.revision));
                assert forall|j: int|
                    0 <= j < self.files@.len() implies cell_wf(
                    #[trigger] self.files@[j],
                    self.revision,
                ) by {
                    if j != k as int {
                        assert(self.files@[j] == old(self).files@[j]);
                    }
                }
            }
            return ;
        }
        let text = self.file_text(file_id);
        let fresh = parse_text(text);
        self.parse_count = bump_count(self.parse_count);
        let ghost oldcell = self.files@[k as int];
        let ghost fresh_nodes = fresh.tree.nodes@;
        let cell = &mut self.files[k];
        let changed_rev: u64;
        let mut value_equal = false;
        match &cell.parse {
            Some(pe) => {
                value_equal = fresh.tree.equals(&pe.value.tree) && diags_eq(
                    &fresh.diagnostics,
                    &pe.value.diagnostics,
                );
                changed_rev = if value_equal {
                    pe.changed_rev
                } else {
                    revision
                };
            },
            None => {
                changed_rev = revision;
            },
        }
        cell.parse = Some(ParseEntry { value: fresh, verified_rev: revision, changed_rev });
        proof {
            let newcell = self.files@[k as int];
            assert forall|j: int|
                0 <= j < newcell.nodes@.len() implies nodes_entry_wf(
                #[trigger] newcell.nodes@[j],
                newcell,
                self.revision,
            ) by {
                assert(nodes_entry_wf(oldcell.nodes@[j], oldcell, self.revision));
                let n = newcell.nodes@[j];
                match oldcell.parse {
                    Some(pe0) => {
                        if n.verified_rev >= changed_rev {
                            if value_equal {
                                assert(fresh_nodes == pe0.value.tree.nodes@);
                            } else {
                                assert(n.verified_rev <= pe0.verified_rev);
                                assert(pe0.verified_rev < oldcell.text_rev);
                                assert(false);
                            }
                        }
                    },
                    None => {
                        assert(oldcell.nodes@.len() == 0);
                        assert(false);
                    },
                }
            }
            assert forall|j: int|
                0 <= j < newcell.ranges@.len() implies range_entry_wf(
                #[trigger] newcell.ranges@[j],
                newcell,
                self.revision,
            ) by {
                assert(range_entry_wf(oldcell.ranges@[j], oldcell, self.revision));
            }
            assert(cell_wf(newcell, self.revision));
            assert forall|j: int|
                0 <= j < self.files@.len() implies cell_wf(
                #[trigger] self.files@[j],
                self.revision,
            ) by {
                if j != k as int {
                    assert(self.files@[j] == old(self).files@[j]);
                }
            }
        }
    }

    /// The parse tree of the file's current text (a copy of the cached
    /// tree).
    pub fn parse(&mut self, file_id: FileId) -> (r: SyntaxTree)
        requires
            old(self).wf(),
            old(self).file_set(file_id),
        ensures
            final(self).wf(),
            old(self).same_inputs(final(self)),
            final(self).files@.len() == old(self).files@.len(),
            r.wf(),
            r.source@ == old(self).text_of(file_id),
            r.nodes@[0].kind == SyntaxKind::JsRoot,
            ranges_partition(leaf_ranges(r.nodes@), r.source@.len() as int),
            (final(self).files@[file_id.0 as int].parse matches Some(pe) && pe.value.tree.nodes@
                == r.nodes@ && pe.value.tree.source@ == r.source@),
    {
        self.ensure_parse(file_id);
        let cell = &self.files[file_id.0];
        match &cell.parse {
            Some(pe) => pe.value.tree.duplicate(),
            None => unreached(),
        }
    }

    /// The diagnostics collected while parsing the file's current text.
    pub fn parse_diagnostics(&mut self, file_id: FileId) -> (r: Vec<ParseDiagnostic>)
        requires
            old(self).wf(),
            old(self).file_set(file_id),
        ensures
            final(self).wf(),
            old(self).same_inputs(final(self)),
            final(self).files@.len() == old(self).files@.len(),
            (final(self).files@[file_id.0 as int].parse matches Some(pe)
                && crate::diagnostic::diags_view(r@) == crate::diagnostic::diags_view(
                pe.value.diagnostics@,
            )),
    {
        self.ensure_parse(file_id);
        let cell = &self.files[file_id.0];
        match &cell.parse {
            Some(pe) => copy_diags(&pe.value.diagnostics),
            None => unreached(),
        }
    }

    /// All nodes of the given kind in the file, in source order, from the
    /// cached node-kind index. Two different kinds are independent cache
    /// entries.
    pub fn nodes(&mut self, file_id: FileId, kind: SyntaxKind) -> (r: Vec<SyntaxNodeRef>)
        requires
            old(self).wf(),
            old(self).file_set(file_id),
        ensures
            final(self).wf(),
            old(self).same_inputs(final(self)),
            final(self).files@.len() == old(self).files@.len(),
            forall|k: int|
                0 <= k < old(self).files@.len() && k != file_id.0 ==> #[trigger] final(self).files@[k] == old(self).files@[k],
            final(self).ranges_count == old(self).ranges_count,
            final(self).files@[file_id.0 as int].ranges@ == old(self).files@[file_id.0 as int].ranges@,
            (final(self).files@[file_id.0 as int].parse matches Some(pe) && pe.verified_rev
                == final(self).revision && pe.value.tree.source@ == final(self).text_of(file_id)
                && refs_view(r@) == nodes_of_kind_view(pe.value.tree.nodes@, kind)),
            (find_nodes_entry(final(self).files@[file_id.0 as int].nodes@, kind) matches Some(ne)
                && ne.verified_rev == final(self).revision && refs_view(ne.value@) == refs_view(
                r@,
            )),
            (old(self).files@[file_id.0 as int].parse matches Some(pe) ==> (pe.verified_rev
                >= old(self).files@[file_id.0 as int].text_rev ==> final(self).parse_count == old(self).parse_count)),
            (old(self).files@[file_id.0 as int].parse matches Some(pe) ==> (pe.verified_rev
                >= old(self).files@[file_id.0 as int].text_rev ==> (final(self).files@[file_id.0 as int].parse matches Some(pe2) && pe2.value.tree.nodes@
                == pe.value.tree.nodes@ && pe2.value.tree.source@ == pe.value.tree.source@
                && pe2.changed_rev == pe.changed_rev))),
            (old(self).files@[file_id.0 as int].parse matches Some(pe) ==> (find_nodes_entry(
                old(self).files@[file_id.0 as int].nodes@,
                kind,
            ) matches Some(ne) ==> ((ne.verified_rev >= pe.changed_rev && (final(self).files@[file_id.0 as int].parse matches Some(pe2) && pe2.changed_rev
                == pe.changed_rev)) ==> final(self).nodes_count == old(self).nodes_count))),
    {
        self.ensure_parse(file_id);
        let k = file_id.0;
        let revision = self.revision;
        let idx = find_nodes_index(&self.files[k].nodes, kind);
        let parse_changed: u64;
        {
            let cell = &self.files[k];
            match &cell.parse {
                Some(pe) => {
                    parse_changed = pe.changed_rev;
                },
                None => {
                    parse_changed = unreached();
                },
            }
        }
        match idx {
            Some(i) => {
                let entry_verified = self.files[k].nodes[i].verified_rev;
                if entry_verified == revision {
                    return copy_refs(&self.files[k].nodes[i].value);
                }
                if parse_changed <= entry_verified {
                    let cell = &mut self.files[k];
                    let ghost nodes0 = cell.nodes@;
                    let e = &mut cell.nodes[i];
                    e.verified_rev = revision;
                    proof {
                        lemma_find_nodes_update(nodes0, i as int, cell.nodes@[i as int], kind);
                    }
                    return copy_refs(&self.files[k].nodes[i].value);
                }
            },
            None => {},
        }
        // recompute from the cached tree
        let fresh: Vec<SyntaxNodeRef>;
        {
            let cell = &self.files[k];
            match &cell.parse {
                Some(pe) => {
                    fresh = pe.value.tree.nodes_of_kind(kind);
                },
                None => {
                    fresh = unreached();
                },
            }
        }
        self.nodes_count = bump_count(self.nodes_count);
        match idx {
            Some(i) => {
                let equal = refs_eq(&fresh, &self.files[k].nodes[i].value);
                let old_changed = self.files[k].nodes[i].changed_rev;
                let changed_rev = if equal {
                    old_changed
                } else {
                    revision
                };
                let cell = &mut self.files[k];
                let ghost nodes0 = cell.nodes@;
                cell.nodes[i] = NodesEntry {
                    kind,
                    value: fresh,
                    verified_rev: revision,
                    changed_rev,
                };
                proof {
                    lemma_find_nodes_update(nodes0, i as int, cell.nodes@[i as int], kind);
                }
                copy_refs(&self.files[k].nodes[i].value)
            },
            None => {
                let cell = &mut self.files[k];
                let ghost nodes0 = cell.nodes@;
                cell.nodes.push(
                    NodesEntry { kind, value: fresh, verified_rev: revision, changed_rev: revision },
                );
                proof {
                    lemma_find_nodes_push(nodes0, cell.nodes@.last(), kind);
                }
                let last = self.files[k].nodes.len() - 1;
                copy_refs(&self.files[k].nodes[last].value)
            },
        }
    }

    /// All nodes of the given kind whose range lies inside `range`, from the
    /// cached range-filtered index. The cell depends only on the node-kind
    /// index: as long as that index is unchanged, this query is not
    /// recomputed.
    pub fn nodes_in_range(&mut self, file_id: FileId, kind: SyntaxKind, range: TextRange) -> (r:
        Vec<SyntaxNodeRef>)
        requires
            old(self).wf(),
            old(self).file_set(file_id),
        ensures
            final(self).wf(),
            old(self).same_inputs(final(self)),
            final(self).files@.len() == old(self).files@.len(),
            (final(self).files@[file_id.0 as int].parse matches Some(pe) && pe.verified_rev
                == final(self).revision && pe.value.tree.source@ == final(self).text_of(file_id)
                && refs_view(r@) == refs_in_range_view(
                nodes_of_kind_view(pe.value.tree.nodes@, kind),
                range,
            )),
            (old(self).files@[file_id.0 as int].parse matches Some(pe) ==> (pe.verified_rev
                >= old(self).files@[file_id.0 as int].text_rev ==> final(self).parse_count == old(self).parse_count)),
            (old(self).files@[file_id.0 as int].parse matches Some(pe) ==> (pe.verified_rev
                >= old(self).files@[file_id.0 as int].text_rev ==> (final(self).files@[file_id.0 as int].parse matches Some(pe2) && pe2.value.tree.nodes@
                == pe.value.tree.nodes@ && pe2.value.tree.source@ == pe.value.tree.source@
                && pe2.changed_rev == pe.changed_rev))),
            (old(self).files@[file_id.0 as int].parse matches Some(pe) ==> (find_nodes_entry(
                old(self).files@[file_id.0 as int].nodes@,
                kind,
            ) matches Some(ne) ==> ((ne.verified_rev >= pe.changed_rev && (final(self).files@[file_id.0 as int].parse matches Some(pe2) && pe2.changed_rev
                == pe.changed_rev)) ==> final(self).nodes_count == old(self).nodes_count))),
            (find_nodes_entry(old(self).files@[file_id.0 as int].nodes@, kind) matches Some(ne)
                ==> (find_range_entry(
                old(self).files@[file_id.0 as int].ranges@,
                kind,
                range,
            ) matches Some(re) ==> ((re.verified_rev >= ne.changed_rev && (find_nodes_entry(
                final(self).files@[file_id.0 as int].nodes@,
                kind,
            ) matches Some(ne2) && ne2.changed_rev == ne.changed_rev)) ==> final(self).ranges_count == old(self).ranges_count))),
    {
        let base = self.nodes(file_id, kind);
        let k = file_id.0;
        let revision = self.revision;
        let nodes_changed: u64;
        {
            let idx = find_nodes_index(&self.files[k].nodes, kind);
            match idx {
                Some(i) => {
                    nodes_changed = self.files[k].nodes[i].changed_rev;
                },
                None => {
                    nodes_changed = unreached();
                },
            }
        }
        let ridx = find_range_index(&self.files[k].ranges, kind, range);
        match ridx {
            Some(i) => {
                let entry_verified = self.files[k].ranges[i].verified_rev;
                if entry_verified == revision {
                    return copy_refs(&self.files[k].ranges[i].value);
                }
                if nodes_changed <= entry_verified {
                    let ghost oldcell = self.files@[k as int];
                    let cell = &mut self.files[k];
                    let ghost ranges0 = cell.ranges@;
                    let e = &mut cell.ranges[i];
                    e.verified_rev = revision;
                    proof {
                        lemma_find_range_update(
                            ranges0,
                            i as int,
                            cell.ranges@[i as int],
                            kind,
                            range,
                        );
                        let newcell = self.files@[k as int];
                        assert forall|j: int|
                            0 <= j < newcell.ranges@.len() implies range_entry_wf(
                            #[trigger] newcell.ranges@[j],
                            newcell,
                            self.revision,
                        ) by {
                            assert(range_entry_wf(oldcell.ranges@[j], oldcell, self.revision));
                        }
                        assert(cell_wf(newcell, self.revision));
                        assert forall|j: int|
                            0 <= j < self.files@.len() implies cell_wf(
                            #[trigger] self.files@[j],
                            self.revision,
                        ) by {
                            if j != k as int {
                                assert(self.files@[j] == old(self).files@[j]);
                            }
                        }
                    }
                    return copy_refs(&self.files[k].ranges[i].value);
                }
            },
            None => {},
        }
        let fresh = filter_refs_in_range(&base, range);
        self.ranges_count = bump_count(self.ranges_count);
        match ridx {
            Some(i) => {
                let equal = refs_eq(&fresh, &self.files[k].ranges[i].value);
                let old_changed = self.files[k].ranges[i].changed_rev;
                let changed_rev = if equal {
                    old_changed
                } else {
                    revision
                };
                let ghost oldcell = self.files@[k as int];
                let cell = &mut self.files[k];
                let ghost ranges0 = cell.ranges@;
                cell.ranges[i] = RangeEntry {
                    kind,
                    range,
                    value: fresh,
                    verified_rev: revision,
                    changed_rev,
                };
                proof {
                    lemma_find_range_update(
                        ranges0,
                        i as int,
                        cell.ranges@[i as int],
                        kind,
                        range,
                    );
                    let newcell = self.files@[k as int];
                    assert forall|j: int|
                        0 <= j < newcell.ranges@.len() implies range_entry_wf(
                        #[trigger] newcell.ranges@[j],
                        newcell,
                        self.revision,
                    ) by {
                        assert(range_entry_wf(oldcell.ranges@[j], oldcell, self.revision));
                    }
                    assert(cell_wf(newcell, self.revision));
                    assert forall|j: int|
                        0 <= j < self.files@.len() implies cell_wf(
                        #[trigger] self.files@[j],
                        self.revision,
                    ) by {
                        if j != k as int {
                            assert(self.files@[j] == old(self).files@[j]);
                        }
                    }
                }
                copy_refs(&self.files[k].ranges[i].value)
            },
            None => {
                let ghost oldcell = self.files@[k as int];
                let cell = &mut self.files[k];
                let ghost ranges0 = cell.ranges@;
                cell.ranges.push(
                    RangeEntry {
                        kind,
                        range,
                        value: fresh,
                        verified_rev: revision,
                        changed_rev: revision,
                    },
                );
                proof {
                    lemma_find_range_push(ranges0, cell.ranges@.last(), kind, range);
                    let newcell = self.files@[k as int];
                    assert forall|j: int|
                        0 <= j < newcell.ranges@.len() implies range_entry_wf(
                        #[trigger] newcell.ranges@[j],
                        newcell,
                        self.revision,
                    ) by {
                        if j < oldcell.ranges@.len() {
                            assert(newcell.ranges@[j] == oldcell.ranges@[j]);
                            assert(range_entry_wf(oldcell.ranges@[j], oldcell, self.revision));
                        }
                    }
                    assert(cell_wf(newcell, self.revision));
                    assert forall|j: int|
                        0 <= j < self.files@.len() implies cell_wf(
                        #[trigger] self.files@[j],
                        self.revision,
                    ) by {
                        if j != k as int {
                            assert(self.files@[j] == old(self).files@[j]);
                        }
                    }
                }
                let last = self.files[k].ranges.len() - 1;
                copy_refs(&self.files[k].ranges[last].value)
            },
        }
    }

    /// The input text of the file.
    pub fn file_text(&self, file_id: FileId) -> (r: Vec<char>)
        requires
            self.wf(),
            self.file_set(file_id),
        ensures
            r@ == self.text_of(file_id),
    {
        let cell = &self.files[file_id.0];
        let mut r: Vec<char> = Vec::new();
        let mut i: usize = 0;
        while i < cell.text.len()
            invariant
                i <= cell.text@.len(),
                r@ == cell.text@.subrange(0, i as int),
                cell == &self.files@[file_id.0 as int],
            decreases cell.text@.len() - i,
        {
            r.push(cell.text[i]);
            proof {
                assert(r@ =~= cell.text@.subrange(0, i + 1));
            }
            i = i + 1;
        }
        proof {
            assert(cell.text@.subrange(0, cell.text@.len() as int) =~= cell.text@);
        }
        r
    }
}

/// The interface the analyzer layer needs of a query database: input cells
/// for file texts and derived queries for the parse and the node indices.
pub trait SourceDatabase: Sized {
    /// The database's internal invariant.
    spec fn inv(&self) -> bool;

    /// The input file has been set.
    spec fn file_known(&self, file_id: FileId) -> bool;

    /// Another input update can still be recorded.
    spec fn can_set(&self) -> bool;

    fn set_file_text(&mut self, file_id: FileId, text: Vec<char>)
        requires
            old(self).inv(),
            old(self).can_set(),
        ensures
            final(self).inv(),
            final(self).file_known(file_id),
    ;

    fn file_text(&self, file_id: FileId) -> Vec<char>
        requires
            self.inv(),
            self.file_known(file_id),
    ;

    fn parse(&mut self, file_id: FileId) -> (r: SyntaxTree)
        requires
            old(self).inv(),
            old(self).file_known(file_id),
        ensures
            final(self).inv(),
            final(self).file_known(file_id),
            r.wf(),
    ;

    fn nodes(&mut self, file_id: FileId, kind: SyntaxKind) -> (r: Vec<SyntaxNodeRef>)
        requires
            old(self).inv(),
            old(self).file_known(file_id),
        ensures
            final(self).inv(),
            final(self).file_known(file_id),
    ;

    fn nodes_in_range(&mut self, file_id: FileId, kind: SyntaxKind, range: TextRange) -> (r: Vec<
        SyntaxNodeRef,
    >)
        requires
            old(self).inv(),
            old(self).file_known(file_id),
        ensures
            final(self).inv(),
            final(self).file_known(file_id),
    ;
}

impl SourceDatabase for RootDatabase {
    open spec fn inv(&self) -> bool {
        self.wf()
    }

    open spec fn file_known(&self, file_id: FileId) -> bool {
        self.file_set(file_id)
    }

    open spec fn can_set(&self) -> bool {
        self.revision < u64::MAX
    }

    fn set_file_text(&mut self, file_id: FileId, text: Vec<char>) {
        RootDatabase::set_file_text(self, file_id, text);
    }

    fn file_text(&self, file_id: FileId) -> Vec<char> {
        RootDatabase::file_text(self, file_id)
    }

    fn parse(&mut self, file_id: FileId) -> (r: SyntaxTree) {
        RootDatabase::parse(self, file_id)
    }

    fn nodes(&mut self, file_id: FileId, kind: SyntaxKind) -> (r: Vec<SyntaxNodeRef>) {
        RootDatabase::nodes(self, file_id, kind)
    }

    fn nodes_in_range(&mut self, file_id: FileId, kind: SyntaxKind, range: TextRange) -> (r: Vec<
        SyntaxNodeRef,
    >) {
        RootDatabase::nodes_in_range(self, file_id, kind, range)
    }
}

/// Saturating recomputation counter.
fn bump_count(c: u64) -> (r: u64)
    ensures
        r == (if c == u64::MAX {
            c as int
        } else {
            c + 1
        }),
        r >= c,
{
    if c == u64::MAX {
        c
    } else {
        c + 1
    }
}

/// Index of the first cached node index for `kind`, if any.
fn find_nodes_index(entries: &Vec<NodesEntry>, kind: SyntaxKind) -> (r: Option<usize>)
    ensures
        (r matches Some(i) ==> i < entries@.len() && entries@[i as int].kind == kind
            && find_nodes_entry(entries@, kind) == Some(entries@[i as int]) && (forall|j: int|
            0 <= j < i ==> (#[trigger] entries@[j]).kind != kind)),
        r is None ==> find_nodes_entry(entries@, kind) is None,
{
    let mut i: usize = 0;
    proof {
        assert(entries@.skip(0) =~= entries@);
    }
    while i < entries.len()
        invariant
            i <= entries@.len(),
            find_nodes_entry(entries@, kind) == find_nodes_entry(entries@.skip(i as int), kind),
            forall|j: int| 0 <= j < i ==> (#[trigger] entries@[j]).kind != kind,
        decreases entries@.len() - i,
    {
        proof {
            assert(entries@.skip(i as int)[0] == entries@[i as int]);
            assert(entries@.skip(i as int).drop_first() =~= entries@.skip(i + 1));
        }
        if entries[i].kind == kind {
            return Some(i);
        }
        i = i + 1;
    }
    proof {
        assert(entries@.skip(entries@.len() as int).len() == 0);
    }
    None
}

/// Index of the first cached range index for `(kind, range)`, if any.
fn find_range_index(entries: &Vec<RangeEntry>, kind: SyntaxKind, range: TextRange) -> (r: Option<
    usize,
>)
    ensures
        (r matches Some(i) ==> i < entries@.len() && entries@[i as int].kind == kind
            && entries@[i as int].range == range && find_range_entry(entries@, kind, range)
            == Some(entries@[i as int]) && (forall|j: int|
            0 <= j < i ==> !((#[trigger] entries@[j]).kind == kind && entries@[j].range
                == range))),
        r is None ==> find_range_entry(entries@, kind, range) is None,
{
    let mut i: usize = 0;
    proof {
        assert(entries@.skip(0) =~= entries@);
    }
    while i < entries.len()
        invariant
            i <= entries@.len(),
            find_range_entry(entries@, kind, range) == find_range_entry(
                entries@.skip(i as int),
                kind,
                range,
            ),
            forall|j: int|
                0 <= j < i ==> !((#[trigger] entries@[j]).kind == kind && entries@[j].range
                    == range),
        decreases entries@.len() - i,
    {
        proof {
            assert(entries@.skip(i as int)[0] == entries@[i as int]);
            assert(entries@.skip(i as int).drop_first() =~= entries@.skip(i + 1));
        }
        if entries[i].kind == kind && entries[i].range == range {
            return Some(i);
        }
        i = i + 1;
    }
    proof {
        assert(entries@.skip(entries@.len() as int).len() == 0);
    }
    None
}

/// After replacing the first entry for `kind`, the lookup finds the new
/// entry; lookups for other kinds are untouched.
proof fn lemma_find_nodes_update(entries: Seq<NodesEntry>, i: int, e: NodesEntry, kind: SyntaxKind)
    requires
        0 <= i < entries.len(),
        entries[i].kind == kind,
        e.kind == kind,
        forall|j: int| 0 <= j < i ==> (#[trigger] entries[j]).kind != kind,
    ensures
        find_nodes_entry(entries.update(i, e), kind) == Some(e),
        forall|k2: SyntaxKind|
            k2 != kind ==> #[trigger] find_nodes_entry(entries.update(i, e), k2)
                == find_nodes_entry(entries, k2),
    decreases entries.len(),
{
    let updated = entries.update(i, e);
    if i == 0 {
        assert(updated[0] == e);
        assert forall|k2: SyntaxKind| k2 != kind implies #[trigger] find_nodes_entry(
            updated,
            k2,
        ) == find_nodes_entry(entries, k2) by {
            assert(updated.drop_first() =~= entries.drop_first());
            assert(find_nodes_entry(updated, k2) == find_nodes_entry(updated.drop_first(), k2));
            assert(find_nodes_entry(entries, k2) == find_nodes_entry(entries.drop_first(), k2));
        }
    } else {
        assert(updated[0] == entries[0]);
        assert(updated.drop_first() =~= entries.drop_first().update(i - 1, e));
        assert forall|j: int| 0 <= j < i - 1 implies (#[trigger] entries.drop_first()[j]).kind
            != kind by {
            assert(entries.drop_first()[j] == entries[j + 1]);
        }
        lemma_find_nodes_update(entries.drop_first(), i - 1, e, kind);
        assert(entries[0].kind != kind);
        assert(find_nodes_entry(updated, kind) == find_nodes_entry(updated.drop_first(), kind));
        assert forall|k2: SyntaxKind| k2 != kind implies #[trigger] find_nodes_entry(
            updated,
            k2,
        ) == find_nodes_entry(entries, k2) by {
            if entries[0].kind == k2 {
            } else {
                assert(find_nodes_entry(updated, k2) == find_nodes_entry(
                    updated.drop_first(),
                    k2,
                ));
                assert(find_nodes_entry(entries, k2) == find_nodes_entry(
                    entries.drop_first(),
                    k2,
                ));
            }
        }
    }
}

/// After appending an entry for a kind with no cached entry, the lookup
/// finds it; lookups for other kinds are untouched.
proof fn lemma_find_nodes_push(entries: Seq<NodesEntry>, e: NodesEntry, kind: SyntaxKind)
    requires
        e.kind == kind,
        find_nodes_entry(entries, kind) is None,
    ensures
        find_nodes_entry(entries.push(e), kind) == Some(e),
        forall|k2: SyntaxKind|
            k2 != kind ==> #[trigger] find_nodes_entry(entries.push(e), k2) == find_nodes_entry(
                entries,
                k2,
            ),
    decreases entries.len(),
{
    let pushed = entries.push(e);
    if entries.len() == 0 {
        assert(pushed[0] == e);
        assert forall|k2: SyntaxKind| k2 != kind implies #[trigger] find_nodes_entry(pushed, k2)
            == find_nodes_entry(entries, k2) by {
            assert(pushed.drop_first() =~= Seq::<NodesEntry>::empty());
            assert(find_nodes_entry(pushed, k2) == find_nodes_entry(pushed.drop_first(), k2));
            assert(find_nodes_entry(pushed.drop_first(), k2) is None);
        }
    } else {
        assert(pushed[0] == entries[0]);
        assert(pushed.drop_first() =~= entries.drop_first().push(e));
        assert(entries[0].kind != kind);
        lemma_find_nodes_push(entries.drop_first(), e, kind);
        assert(find_nodes_entry(pushed, kind) == find_nodes_entry(pushed.drop_first(), kind));
        assert forall|k2: SyntaxKind| k2 != kind implies #[trigger] find_nodes_entry(pushed, k2)
            == find_nodes_entry(entries, k2) by {
            if entries[0].kind == k2 {
            } else {
                assert(find_nodes_entry(pushed, k2) == find_nodes_entry(
                    pushed.drop_first(),
                    k2,
                ));
                assert(find_nodes_entry(entries, k2) == find_nodes_entry(
                    entries.drop_first(),
                    k2,
                ));
            }
        }
    }
}

/// After replacing the first entry for `(kind, range)`, the lookup finds the
/// new entry; other keys are untouched.
proof fn lemma_find_range_update(
    entries: Seq<RangeEntry>,
    i: int,
    e: RangeEntry,
    kind: SyntaxKind,
    range: TextRange,
)
    requires
        0 <= i < entries.len(),
        entries[i].kind == kind && entries[i].range == range,
        e.kind == kind && e.range == range,
        forall|j: int|
            0 <= j < i ==> !((#[trigger] entries[j]).kind == kind && entries[j].range == range),
    ensures
        find_range_entry(entries.update(i, e), kind, range) == Some(e),
        forall|k2: SyntaxKind, r2: TextRange|
            !(k2 == kind && r2 == range) ==> #[trigger] find_range_entry(
                entries.update(i, e),
                k2,
                r2,
            ) == find_range_entry(entries, k2, r2),
    decreases entries.len(),
{
    let updated = entries.update(i, e);
    if i == 0 {
        assert(updated[0] == e);
        assert forall|k2: SyntaxKind, r2: TextRange| !(k2 == kind && r2 == range) implies
            #[trigger] find_range_entry(updated, k2, r2) == find_range_entry(entries, k2, r2) by {
            assert(updated.drop_first() =~= entries.drop_first());
            assert(find_range_entry(updated, k2, r2) == find_range_entry(
                updated.drop_first(),
                k2,
                r2,
            ));
            assert(find_range_entry(entries, k2, r2) == find_range_entry(
                entries.drop_first(),
                k2,
                r2,
            ));
        }
    } else {
        assert(updated[0] == entries[0]);
        assert(updated.drop_first() =~= entries.drop_first().update(i - 1, e));
        assert forall|j: int|
            0 <= j < i - 1 implies !((#[trigger] entries.drop_first()[j]).kind == kind
            && entries.drop_first()[j].range == range) by {
            assert(entries.drop_first()[j] == entries[j + 1]);
        }
        lemma_find_range_update(entries.drop_first(), i - 1, e, kind, range);
        assert(!(entries[0].kind == kind && entries[0].range == range));
        assert(find_range_entry(updated, kind, range) == find_range_entry(
            updated.drop_first(),
            kind,
            range,
        ));
        assert forall|k2: SyntaxKind, r2: TextRange| !(k2 == kind && r2 == range) implies
            #[trigger] find_range_entry(updated, k2, r2) == find_range_entry(entries, k2, r2) by {
            if entries[0].kind == k2 && entries[0].range == r2 {
            } else {
                assert(find_range_entry(updated, k2, r2) == find_range_entry(
                    updated.drop_first(),
                    k2,
                    r2,
                ));
                assert(find_range_entry(entries, k2, r2) == find_range_entry(
                    entries.drop_first(),
                    k2,
                    r2,
                ));
            }
        }
    }
}

/// After appending an entry for a key with no cached entry, the lookup finds
/// it; other keys are untouched.
proof fn lemma_find_range_push(
    entries: Seq<RangeEntry>,
    e: RangeEntry,
    kind: SyntaxKind,
    range: TextRange,
)
    requires
        e.kind == kind && e.range == range,
        find_range_entry(entries, kind, range) is None,
    ensures
        find_range_entry(entries.push(e), kind, range) == Some(e),
        forall|k2: SyntaxKind, r2: TextRange|
            !(k2 == kind && r2 == range) ==> #[trigger] find_range_entry(entries.push(e), k2, r2)
                == find_range_entry(entries, k2, r2),
    decreases entries.len(),
{
    let pushed = entries.push(e);
    if entries.len() == 0 {
        assert(pushed[0] == e);
        assert forall|k2: SyntaxKind, r2: TextRange| !(k2 == kind && r2 == range) implies
            #[trigger] find_range_entry(pushed, k2, r2) == find_range_entry(entries, k2, r2) by {
            assert(pushed.drop_first() =~= Seq::<RangeEntry>::empty());
            assert(find_range_entry(pushed, k2, r2) == find_range_entry(
                pushed.drop_first(),
                k2,
                r2,
            ));
            assert(find_range_entry(pushed.drop_first(), k2, r2) is None);
        }
    } else {
        assert(pushed[0] == entries[0]);
        assert(pushed.drop_first() =~= entries.drop_first().push(e));
        assert(!(entries[0].kind == kind && entries[0].range == range));
        lemma_find_range_push(entries.drop_first(), e, kind, range);
        assert(find_range_entry(pushed, kind, range) == find_range_entry(
            pushed.drop_first(),
            kind,
            range,
        ));
        assert forall|k2: SyntaxKind, r2: TextRange| !(k2 == kind && r2 == range) implies
            #[trigger] find_range_entry(pushed, k2, r2) == find_range_entry(entries, k2, r2) by {
            if entries[0].kind == k2 && entries[0].range == r2 {
            } else {
                assert(find_range_entry(pushed, k2, r2) == find_range_entry(
                    pushed.drop_first(),
                    k2,
                    r2,
                ));
                assert(find_range_entry(entries, k2, r2) == find_range_entry(
                    entries.drop_first(),
                    k2,
                    r2,
                ));
            }
        }
    }
}

} // verus!

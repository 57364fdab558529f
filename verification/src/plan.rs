//! Per-entry extraction planning.
//!
//! For each archive entry the extractor makes one decision: skip the
//! entry (unsafe name), create a directory (name ends in a separator),
//! or write a file.  The decision, the output lines, and the permission
//! mode to restore are planned here as plain values; performing the
//! filesystem writes is left to the caller.

use vstd::prelude::*;

use crate::render::{
    build_comment_line, build_dir_line, build_file_line, comment_line_of, dir_line_of,
    file_line_of,
};
use crate::sanitize::{
    join_path, join_prefix, parent_path_of, safe_components, sanitize_components, SLASH,
};

verus! {

/// The mathematical model of one archive entry: name, declared
/// uncompressed size, comment, stored Unix mode, decompressed content.
pub type EntryModel = (Seq<u8>, u64, Seq<u8>, Option<u32>, Seq<u8>);

/// One archive entry, materialized as plain values.
pub struct RawEntry {
    /// The untrusted entry name.
    pub name: Vec<u8>,
    /// The declared uncompressed size.
    pub size: u64,
    /// The entry comment; empty when absent.
    pub comment: Vec<u8>,
    /// The Unix permission bits stored for the entry, if any.
    pub unix_mode: Option<u32>,
    /// The decompressed content.
    pub data: Vec<u8>,
}

impl RawEntry {
    /// The entry as plain mathematical values.
    pub open spec fn model(self) -> EntryModel {
        (self.name@, self.size, self.comment@, self.unix_mode, self.data@)
    }
}

/// The filesystem operation planned for one entry.
pub enum FsOp {
    /// Create the directory at `path`, with all missing ancestors.
    MkDirAll { path: Vec<u8> },
    /// Create the directory at `parent` if missing, then create or
    /// truncate the file at `path` and write `data` into it.
    WriteFile { parent: Option<Vec<u8>>, path: Vec<u8>, data: Vec<u8> },
}

/// The model of a planned filesystem operation.
pub enum OpModel {
    MkDirAll { path: Seq<u8> },
    WriteFile { parent: Option<Seq<u8>>, path: Seq<u8>, data: Seq<u8> },
}

impl FsOp {
    /// The operation as plain mathematical values.
    pub open spec fn model(self) -> OpModel {
        match self {
            FsOp::MkDirAll { path } => OpModel::MkDirAll { path: path@ },
            FsOp::WriteFile { parent, path, data } => OpModel::WriteFile {
                parent: match parent {
                    Some(p) => Some(p@),
                    None => None,
                },
                path: path@,
                data: data@,
            },
        }
    }
}

/// Everything the extractor decides about one entry: the output lines,
/// the filesystem operation, and the permission mode to restore.  A
/// skipped entry has no lines, no operation and no mode.
pub struct EntryOutcome {
    /// The lines to print, in order.
    pub lines: Vec<Vec<u8>>,
    /// The filesystem operation, or `None` for a skipped entry.
    pub op: Option<FsOp>,
    /// The Unix mode to restore on the destination, or `None`.
    pub mode: Option<u32>,
}

/// The model of an entry outcome.
pub struct OutcomeModel {
    pub lines: Seq<Seq<u8>>,
    pub op: Option<OpModel>,
    pub mode: Option<u32>,
}

impl EntryOutcome {
    /// The outcome as plain mathematical values.
    pub open spec fn model(self) -> OutcomeModel {
        OutcomeModel {
            lines: self.lines.deep_view(),
            op: match self.op {
                Some(op) => Some(op.model()),
                None => None,
            },
            mode: self.mode,
        }
    }
}

/// Whether a name marks a directory entry: it ends in a separator.
pub open spec fn is_dir_name(name: Seq<u8>) -> bool {
    name.len() > 0 && name.last() == SLASH
}

/// The outcome planned for entry `i`.  An entry whose name fails the
/// safety filter is skipped silently; a directory entry is created at
/// its sanitized path; a file entry is written at its sanitized path
/// with its decompressed content.
pub open spec fn outcome_of(i: nat, e: EntryModel) -> OutcomeModel {
    match safe_components(e.0) {
        None => OutcomeModel { lines: Seq::empty(), op: None, mode: None },
        Some(comps) => {
            let path = join_path(comps);
            let head = if e.2.len() > 0 {
                seq![comment_line_of(i, e.2)]
            } else {
                Seq::<Seq<u8>>::empty()
            };
            if is_dir_name(e.0) {
                OutcomeModel {
                    lines: head.push(dir_line_of(i, path)),
                    op: Some(OpModel::MkDirAll { path }),
                    mode: e.3,
                }
            } else {
                OutcomeModel {
                    lines: head.push(file_line_of(i, path, e.1)),
                    op: Some(
                        OpModel::WriteFile { parent: parent_path_of(comps), path, data: e.4 },
                    ),
                    mode: e.3,
                }
            }
        },
    }
}

/// The outcomes planned for a whole sequence of entries, in archive
/// order.
pub open spec fn plan_seq(es: Seq<EntryModel>) -> Seq<OutcomeModel> {
    Seq::new(es.len(), |k: int| outcome_of(k as nat, es[k]))
}

/// The models of a vector of outcomes.
pub open spec fn models_of(v: Seq<EntryOutcome>) -> Seq<OutcomeModel> {
    Seq::new(v.len(), |k: int| v[k].model())
}

/// Plans the extraction of entry `i`.
pub fn plan_entry(i: u64, e: &RawEntry) -> (r: EntryOutcome)
    ensures
        r.model() == outcome_of(i as nat, e.model()),
{
    let comps = match sanitize_components(&e.name) {
        None => {
            let r = EntryOutcome { lines: Vec::new(), op: None, mode: None };
            proof {
                assert(r.model().lines =~~= Seq::<Seq<u8>>::empty());
                assert(r.model() == outcome_of(i as nat, e.model()));
            }
            return r;
        },
        Some(comps) => comps,
    };
    let path = join_prefix(&comps, comps.len());
    proof {
        assert(comps.deep_view().take(comps@.len() as int) =~~= comps.deep_view());
    }
    let mut lines: Vec<Vec<u8>> = Vec::new();
    if e.comment.len() > 0 {
        lines.push(build_comment_line(i, &e.comment));
    }
    let is_dir = e.name.len() > 0 && e.name[e.name.len() - 1] == SLASH;
    proof {
        assert(is_dir == is_dir_name(e.name@));
    }
    let ghost head = lines.deep_view();
    proof {
        if e.comment@.len() > 0 {
            assert(head =~~= seq![comment_line_of(i as nat, e.comment@)]);
        } else {
            assert(head =~~= Seq::<Seq<u8>>::empty());
        }
    }
    if is_dir {
        let line = build_dir_line(i, &path);
        lines.push(line);
        let r = EntryOutcome {
            lines,
            op: Some(FsOp::MkDirAll { path }),
            mode: e.unix_mode,
        };
        proof {
            assert(r.model().lines =~~= head.push(
                dir_line_of(i as nat, join_path(safe_components(e.name@).unwrap())),
            ));
            assert(r.model() == outcome_of(i as nat, e.model()));
        }
        r
    } else {
        let parent = if comps.len() <= 1 {
            None
        } else {
            Some(join_prefix(&comps, comps.len() - 1))
        };
        proof {
            assert(comps.deep_view().take(comps@.len() - 1) =~~= comps.deep_view().drop_last());
        }
        let line = build_file_line(i, &path, e.size);
        lines.push(line);
        let data = crate::sanitize::copy_bytes(&e.data);
        let r = EntryOutcome {
            lines,
            op: Some(FsOp::WriteFile { parent, path, data }),
            mode: e.unix_mode,
        };
        proof {
            assert(r.model().lines =~~= head.push(
                file_line_of(i as nat, join_path(safe_components(e.name@).unwrap()), e.size),
            ));
            assert(r.model() == outcome_of(i as nat, e.model()));
        }
        r
    }
}

/// An archive with no entries plans no output and no filesystem
/// operation at all.
pub proof fn lemma_empty_archive_plans_nothing(es: Seq<EntryModel>)
    requires
        es.len() == 0,
    ensures
        plan_seq(es).len() == 0,
{
}

/// An entry whose name fails the safety filter is skipped in silence:
/// no line is printed, nothing is written, no mode is restored, and the
/// run goes on with the next entry.
pub proof fn lemma_unsafe_name_is_skipped(i: nat, e: EntryModel)
    requires
        safe_components(e.0) is None,
    ensures
        outcome_of(i, e).op is None,
        outcome_of(i, e).lines.len() == 0,
        outcome_of(i, e).mode is None,
{
}

/// A directory entry with a safe name is planned as a directory
/// creation at exactly the sanitized path, and its extraction line
/// reports that path.
pub proof fn lemma_dir_entry_outcome(i: nat, e: EntryModel)
    requires
        safe_components(e.0) is Some,
        is_dir_name(e.0),
    ensures
        outcome_of(i, e).op == Some(
            OpModel::MkDirAll { path: join_path(safe_components(e.0).unwrap()) },
        ),
        outcome_of(i, e).lines.last() == dir_line_of(
            i,
            join_path(safe_components(e.0).unwrap()),
        ),
{
}

/// A file entry with a safe name is planned as a file write at exactly
/// the sanitized path, carrying exactly the entry's decompressed
/// content, and its extraction line reports that path and the declared
/// uncompressed size.
pub proof fn lemma_file_entry_outcome(i: nat, e: EntryModel)
    requires
        safe_components(e.0) is Some,
        !is_dir_name(e.0),
    ensures
        outcome_of(i, e).op == Some(
            OpModel::WriteFile {
                parent: parent_path_of(safe_components(e.0).unwrap()),
                path: join_path(safe_components(e.0).unwrap()),
                data: e.4,
            },
        ),
        outcome_of(i, e).lines.last() == file_line_of(
            i,
            join_path(safe_components(e.0).unwrap()),
            e.1,
        ),
{
}

/// An entry that is not skipped has exactly the mode stored in the
/// archive restored on its destination; an entry without a stored mode
/// has none restored.
pub proof fn lemma_mode_restored(i: nat, e: EntryModel)
    requires
        safe_components(e.0) is Some,
    ensures
        outcome_of(i, e).mode == e.3,
{
}

/// The path named by a planned operation.
pub open spec fn op_path(op: OpModel) -> Seq<u8> {
    match op {
        OpModel::MkDirAll { path } => path,
        OpModel::WriteFile { path, .. } => path,
    }
}

/// Every filesystem operation ever planned names a path joined from
/// the entry's resolved components, and each of those components is
/// clean: non-empty, never `.` or `..`, and free of separators on any
/// supported host (`/` and `\`), of drive-prefix markers (`:`), and of
/// NUL bytes.  No planned path is absolute or escapes the extraction
/// root.
pub proof fn lemma_planned_path_is_safe(i: nat, e: EntryModel)
    ensures
        outcome_of(i, e).op matches Some(op) ==> (safe_components(e.0) matches Some(cs)
            && op_path(op) == join_path(cs) && cs.len() >= 1 && (forall|j: int|
            0 <= j < cs.len() ==> crate::sanitize::clean_component(#[trigger] cs[j]))),
{
    crate::sanitize::lemma_safe_components_clean(e.0);
}

/// An entry with a comment and a safe name has the comment line printed
/// first, before its extraction line; an entry without a comment prints
/// its extraction line alone.
pub proof fn lemma_comment_line_first(i: nat, e: EntryModel)
    requires
        safe_components(e.0) is Some,
    ensures
        e.2.len() > 0 ==> outcome_of(i, e).lines.len() == 2 && outcome_of(i, e).lines[0]
            == comment_line_of(i, e.2),
        e.2.len() == 0 ==> outcome_of(i, e).lines.len() == 1,
{
}

} // verus!

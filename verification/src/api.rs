//! The three capability layers of the engine, as traits.
//!
//! [`Inputs`] writes and reads the input cells, [`Syntax`] derives models and
//! references from file text, [`Semantic`] resolves references and reports
//! diagnostics. A higher layer may call a lower one, never the reverse.
//! [`crate::Database`] implements all three.
//!
//! Every query method promises the value that the spec functions of
//! [`crate::queries`] give at the current store, whatever the cache holds;
//! that repeated reads without intervening writes recompute nothing
//! (`memo_fresh` held before the call implies the database is left exactly
//! as it was); and that one call recomputes the asked query at most once.
//!
//! The incremental cost is also part of the contracts. A cached entry whose
//! recorded dependencies all still have their recorded values (`memo_valid`)
//! is never recomputed by any read, and the writes promise to leave an entry
//! valid whenever everything its query may read is unchanged
//! ([`crate::queries::reads_unchanged`]). Together these give early cutoff:
//! overwriting one file's text with text that derives the same values leaves
//! every downstream entry cached, and re-reading the registry after a write
//! re-runs extraction only for files whose text changed.

use vstd::prelude::*;

use crate::data::{DbError, Diagnostic, Model};
use crate::queries::{
    files_written, reads_unchanged, spec_all_models, spec_file_diagnostics, spec_model_refs,
    spec_parse_model, spec_resolve_ref, text_of, QueryKeyView, StoreView,
};

verus! {

/// Input capability: the per-file text cells and the file set.
pub trait Inputs: Sized {
    /// The current value of every input cell.
    spec fn store(&self) -> StoreView;

    /// The engine's internal invariant; every operation preserves it.
    spec fn wf(&self) -> bool;

    /// The current revision: how many writes have happened so far.
    spec fn revision(&self) -> nat;

    /// How many times the query behind `k` has been recomputed.
    spec fn query_count(&self, k: QueryKeyView) -> nat;

    /// Whether a cached entry for `k` exists that was already verified at the
    /// current revision. A read of `k` in this state changes nothing.
    spec fn memo_fresh(&self, k: QueryKeyView) -> bool;

    /// Whether a cached entry for `k` exists all of whose recorded
    /// dependencies still have, at the current store, the values they were
    /// read with. Such an entry is served on the next read of `k` without
    /// recomputing it, even when the revision has advanced in between: this
    /// is early cutoff, visible in the contracts.
    spec fn memo_valid(&self, k: QueryKeyView) -> bool;

    /// Replaces the text for `path`, creating the cell if absent, and bumps
    /// the revision. The file set and all query counts are untouched.
    fn set_file_text(&mut self, path: String, text: String)
        requires
            old(self).wf(),
            old(self).revision() + 1 < u64::MAX,
        ensures
            final(self).wf(),
            final(self).store().texts == old(self).store().texts.insert(path@, text@),
            final(self).store().files == old(self).store().files,
            final(self).revision() == old(self).revision() + 1,
            forall|k: QueryKeyView| final(self).query_count(k) == old(self).query_count(k),
            forall|k: QueryKeyView|
                old(self).memo_valid(k) && reads_unchanged(
                    k,
                    old(self).store(),
                    final(self).store(),
                ) ==> final(self).memo_valid(k),
    ;

    /// Replaces the authoritative file set and bumps the revision. The text
    /// cells and all query counts are untouched, and so are the cached
    /// entries of the per-file queries, which read no file set.
    fn set_all_files(&mut self, files: Vec<String>)
        requires
            old(self).wf(),
            old(self).revision() + 1 < u64::MAX,
        ensures
            final(self).wf(),
            final(self).store().files == files.deep_view(),
            final(self).store().texts == old(self).store().texts,
            final(self).revision() == old(self).revision() + 1,
            forall|k: QueryKeyView| final(self).query_count(k) == old(self).query_count(k),
            forall|k: QueryKeyView|
                old(self).memo_valid(k) && reads_unchanged(
                    k,
                    old(self).store(),
                    final(self).store(),
                ) ==> final(self).memo_valid(k),
    ;

    /// The current text of `path`, or [`DbError::NotFound`] when that cell
    /// was never written.
    fn file_text(&self, path: &String) -> (r: Result<String, DbError>)
        requires
            self.wf(),
        ensures
            match r {
                Ok(t) => text_of(self.store(), path@) == Some(t@),
                Err(e) => text_of(self.store(), path@) is None && e == DbError::NotFound,
            },
    ;

    /// The current file set.
    fn all_files(&self) -> (r: Vec<String>)
        requires
            self.wf(),
        ensures
            r.deep_view() == self.store().files,
    ;
}

/// Syntax capability: what single files say, and the registry built from all
/// of them.
pub trait Syntax: Inputs {
    /// The model defined by the file at `path`, if its text qualifies.
    fn parse_model(&mut self, path: String) -> (r: Option<Model>)
        requires
            old(self).wf(),
            old(self).store().texts.contains_key(path@),
        ensures
            final(self).wf(),
            final(self).store() == old(self).store(),
            final(self).revision() == old(self).revision(),
            r.deep_view() == spec_parse_model(final(self).store(), path@),
            final(self).memo_fresh(QueryKeyView::ParseModel(path@)),
            final(self).memo_valid(QueryKeyView::ParseModel(path@)),
            old(self).memo_fresh(QueryKeyView::ParseModel(path@)) ==> *final(self) == *old(self),
            old(self).memo_valid(QueryKeyView::ParseModel(path@)) ==> final(self).query_count(QueryKeyView::ParseModel(path@)) == old(self).query_count(QueryKeyView::ParseModel(path@)),
            final(self).query_count(QueryKeyView::ParseModel(path@)) <= old(self).query_count(
                QueryKeyView::ParseModel(path@),
            ) + 1,
            forall|k: QueryKeyView| old(self).query_count(k) <= final(self).query_count(k),
            forall|k: QueryKeyView|
                old(self).memo_valid(k) ==> final(self).memo_valid(k) && final(self).query_count(
                    k,
                ) == old(self).query_count(k),
    ;

    /// The reference names in the file at `path`, in order of appearance,
    /// duplicates kept.
    fn model_refs(&mut self, path: String) -> (r: Vec<String>)
        requires
            old(self).wf(),
            old(self).store().texts.contains_key(path@),
        ensures
            final(self).wf(),
            final(self).store() == old(self).store(),
            final(self).revision() == old(self).revision(),
            r.deep_view() == spec_model_refs(final(self).store(), path@),
            final(self).memo_fresh(QueryKeyView::ModelRefs(path@)),
            final(self).memo_valid(QueryKeyView::ModelRefs(path@)),
            old(self).memo_fresh(QueryKeyView::ModelRefs(path@)) ==> *final(self) == *old(self),
            old(self).memo_valid(QueryKeyView::ModelRefs(path@)) ==> final(self).query_count(QueryKeyView::ModelRefs(path@)) == old(self).query_count(QueryKeyView::ModelRefs(path@)),
            final(self).query_count(QueryKeyView::ModelRefs(path@)) <= old(self).query_count(
                QueryKeyView::ModelRefs(path@),
            ) + 1,
            forall|k: QueryKeyView| old(self).query_count(k) <= final(self).query_count(k),
            forall|k: QueryKeyView|
                old(self).memo_valid(k) ==> final(self).memo_valid(k) && final(self).query_count(
                    k,
                ) == old(self).query_count(k),
    ;

    /// The model registry: every model the current file set defines, one
    /// entry per defining path, in file-set order.
    fn all_models(&mut self) -> (r: Vec<Model>)
        requires
            old(self).wf(),
            files_written(old(self).store()),
        ensures
            final(self).wf(),
            final(self).store() == old(self).store(),
            final(self).revision() == old(self).revision(),
            r.deep_view() == spec_all_models(final(self).store()),
            final(self).memo_fresh(QueryKeyView::AllModels),
            final(self).memo_valid(QueryKeyView::AllModels),
            old(self).memo_fresh(QueryKeyView::AllModels) ==> *final(self) == *old(self),
            old(self).memo_valid(QueryKeyView::AllModels) ==> final(self).query_count(QueryKeyView::AllModels) == old(self).query_count(QueryKeyView::AllModels),
            final(self).query_count(QueryKeyView::AllModels) <= old(self).query_count(
                QueryKeyView::AllModels,
            ) + 1,
            forall|k: QueryKeyView| old(self).query_count(k) <= final(self).query_count(k),
            forall|k: QueryKeyView|
                old(self).memo_valid(k) ==> final(self).memo_valid(k) && final(self).query_count(
                    k,
                ) == old(self).query_count(k),
    ;
}

/// Semantic capability: name resolution and diagnostics.
pub trait Semantic: Syntax {
    /// The path defining the model named `model_name`, if any; on duplicate
    /// names, the first defining path in file-set order.
    fn resolve_ref(&mut self, model_name: String) -> (r: Option<String>)
        requires
            old(self).wf(),
            files_written(old(self).store()),
        ensures
            final(self).wf(),
            final(self).store() == old(self).store(),
            final(self).revision() == old(self).revision(),
            r.deep_view() == spec_resolve_ref(final(self).store(), model_name@),
            final(self).memo_fresh(QueryKeyView::ResolveRef(model_name@)),
            final(self).memo_valid(QueryKeyView::ResolveRef(model_name@)),
            old(self).memo_fresh(QueryKeyView::ResolveRef(model_name@)) ==> *final(self) == *old(self),
            old(self).memo_valid(QueryKeyView::ResolveRef(model_name@)) ==> final(self).query_count(QueryKeyView::ResolveRef(model_name@)) == old(self).query_count(QueryKeyView::ResolveRef(model_name@)),
            final(self).query_count(QueryKeyView::ResolveRef(model_name@)) <= old(self).query_count(
                QueryKeyView::ResolveRef(model_name@),
            ) + 1,
            forall|k: QueryKeyView| old(self).query_count(k) <= final(self).query_count(k),
            forall|k: QueryKeyView|
                old(self).memo_valid(k) ==> final(self).memo_valid(k) && final(self).query_count(
                    k,
                ) == old(self).query_count(k),
    ;

    /// The diagnostics for the file at `path`: a lone warning when it is no
    /// model but lies under `models/`, otherwise one error per unresolved
    /// reference. Possibly empty, never a failure.
    fn file_diagnostics(&mut self, path: String) -> (r: Vec<Diagnostic>)
        requires
            old(self).wf(),
            old(self).store().texts.contains_key(path@),
            files_written(old(self).store()),
        ensures
            final(self).wf(),
            final(self).store() == old(self).store(),
            final(self).revision() == old(self).revision(),
            r.deep_view() == spec_file_diagnostics(final(self).store(), path@),
            final(self).memo_fresh(QueryKeyView::FileDiagnostics(path@)),
            final(self).memo_valid(QueryKeyView::FileDiagnostics(path@)),
            old(self).memo_fresh(QueryKeyView::FileDiagnostics(path@)) ==> *final(self) == *old(self),
            old(self).memo_valid(QueryKeyView::FileDiagnostics(path@)) ==> final(self).query_count(QueryKeyView::FileDiagnostics(path@)) == old(self).query_count(QueryKeyView::FileDiagnostics(path@)),
            final(self).query_count(QueryKeyView::FileDiagnostics(path@)) <= old(self).query_count(
                QueryKeyView::FileDiagnostics(path@),
            ) + 1,
            forall|k: QueryKeyView| old(self).query_count(k) <= final(self).query_count(k),
            forall|k: QueryKeyView|
                old(self).memo_valid(k) ==> final(self).memo_valid(k) && final(self).query_count(
                    k,
                ) == old(self).query_count(k),
    ;
}

} // verus!

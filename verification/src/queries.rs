//! The mathematical model of the inputs and of the five derived queries.
//!
//! A [`StoreView`] is a point-in-time value of every input cell. Each derived
//! query has a spec function giving its value as a pure function of a store;
//! the engine's contracts promise exactly these values, whatever the cache
//! holds. The lemmas at the end unfold the recursive definitions one element
//! at a time, the shape the engine's loops consume them in.

use vstd::prelude::*;

use crate::data::{DiagnosticSeverity, DiagnosticView, ModelView};
use crate::text::{has_select, in_models_dir, refs_in, stem_of};

verus! {

/// A point-in-time value of all input cells: the text of every written file
/// and the authoritative file set.
pub struct StoreView {
    pub texts: Map<Seq<char>, Seq<char>>,
    pub files: Seq<Seq<char>>,
}

/// The key of a derived query: which query, applied to which argument.
pub enum QueryKeyView {
    ParseModel(Seq<char>),
    ModelRefs(Seq<char>),
    AllModels,
    ResolveRef(Seq<char>),
    FileDiagnostics(Seq<char>),
}

/// The value of a derived query.
pub enum QueryValView {
    Parsed(Option<ModelView>),
    Refs(Seq<Seq<char>>),
    Registry(Seq<ModelView>),
    Resolved(Option<Seq<char>>),
    Diags(Seq<DiagnosticView>),
}

/// What a computation may read: an input cell or another derived query.
pub enum DepKeyView {
    Text(Seq<char>),
    Files,
    Query(QueryKeyView),
}

/// The value a dependency had when it was read.
pub enum DepValView {
    Text(Option<Seq<char>>),
    Files(Seq<Seq<char>>),
    Val(QueryValView),
}

/// The text of `p` in store `s`, or nothing when `p` was never written.
pub open spec fn text_of(s: StoreView, p: Seq<char>) -> Option<Seq<char>> {
    if s.texts.contains_key(p) {
        Some(s.texts[p])
    } else {
        None
    }
}

/// Model extraction: the file at `p` defines a model when its path has a
/// stem and its text contains a `SELECT` token; the model's name is the stem.
pub open spec fn spec_parse_model(s: StoreView, p: Seq<char>) -> Option<ModelView> {
    match text_of(s, p) {
        None => None,
        Some(t) => match stem_of(p) {
            None => None,
            Some(name) => if has_select(t) {
                Some(ModelView { name, path: p })
            } else {
                None
            },
        },
    }
}

/// Reference extraction: the names between `{{ ref('` and `')` in the text
/// at `p`, in order of appearance, duplicates kept.
pub open spec fn spec_model_refs(s: StoreView, p: Seq<char>) -> Seq<Seq<char>> {
    match text_of(s, p) {
        None => Seq::empty(),
        Some(t) => refs_in(t),
    }
}

/// The registry built from a file list: for each path, in order, the model
/// it defines, if any; a path repeated in the list counts once.
pub open spec fn registry_of(s: StoreView, files: Seq<Seq<char>>) -> Seq<ModelView>
    decreases files.len(),
{
    if files.len() == 0 {
        Seq::empty()
    } else {
        let rest = registry_of(s, files.drop_last());
        let p = files.last();
        if files.drop_last().contains(p) {
            rest
        } else {
            match spec_parse_model(s, p) {
                Some(m) => rest.push(m),
                None => rest,
            }
        }
    }
}

/// The model registry: the models defined by the current file set.
pub open spec fn spec_all_models(s: StoreView) -> Seq<ModelView> {
    registry_of(s, s.files)
}

/// The path of the first model in the list carrying `name`, if any.
pub open spec fn first_with_name(models: Seq<ModelView>, name: Seq<char>) -> Option<Seq<char>>
    decreases models.len(),
{
    if models.len() == 0 {
        None
    } else if models[0].name == name {
        Some(models[0].path)
    } else {
        first_with_name(models.subrange(1, models.len() as int), name)
    }
}

/// Reference resolution: the path of the first registry entry named `name`.
pub open spec fn spec_resolve_ref(s: StoreView, name: Seq<char>) -> Option<Seq<char>> {
    first_with_name(spec_all_models(s), name)
}

/// The message of the warning on a non-model file under `models/`.
pub open spec fn warning_message() -> Seq<char> {
    "File does not contain a valid SQL query"@
}

/// The message of the error on an unresolved reference to `name`.
pub open spec fn undefined_ref_message(name: Seq<char>) -> Seq<char> {
    "Undefined model reference: '"@ + name + "'"@
}

/// The warning diagnostic on a non-model file under `models/`.
pub open spec fn warning_diag() -> DiagnosticView {
    DiagnosticView {
        severity: DiagnosticSeverity::Warning,
        message: warning_message(),
        line: 0,
        column: 0,
    }
}

/// The error diagnostic on an unresolved reference to `name`.
pub open spec fn undefined_ref_diag(name: Seq<char>) -> DiagnosticView {
    DiagnosticView {
        severity: DiagnosticSeverity::Error,
        message: undefined_ref_message(name),
        line: 0,
        column: 0,
    }
}

/// One error diagnostic for each name in `refs` that resolves to nothing,
/// in order, duplicates kept.
pub open spec fn undef_diags(s: StoreView, refs: Seq<Seq<char>>) -> Seq<DiagnosticView>
    decreases refs.len(),
{
    if refs.len() == 0 {
        Seq::empty()
    } else {
        let head: Seq<DiagnosticView> = if spec_resolve_ref(s, refs[0]) is None {
            seq![undefined_ref_diag(refs[0])]
        } else {
            Seq::empty()
        };
        head + undef_diags(s, refs.subrange(1, refs.len() as int))
    }
}

/// Diagnostics for a file: a lone warning when it is no model but lies under
/// a directory named `models`; otherwise one error per unresolved reference.
pub open spec fn spec_file_diagnostics(s: StoreView, p: Seq<char>) -> Seq<DiagnosticView> {
    match spec_parse_model(s, p) {
        None => if in_models_dir(p) {
            seq![warning_diag()]
        } else {
            Seq::empty()
        },
        Some(_) => undef_diags(s, spec_model_refs(s, p)),
    }
}

/// The value of the query `k` at store `s`.
pub open spec fn spec_eval(k: QueryKeyView, s: StoreView) -> QueryValView {
    match k {
        QueryKeyView::ParseModel(p) => QueryValView::Parsed(spec_parse_model(s, p)),
        QueryKeyView::ModelRefs(p) => QueryValView::Refs(spec_model_refs(s, p)),
        QueryKeyView::AllModels => QueryValView::Registry(spec_all_models(s)),
        QueryKeyView::ResolveRef(n) => QueryValView::Resolved(spec_resolve_ref(s, n)),
        QueryKeyView::FileDiagnostics(p) => QueryValView::Diags(spec_file_diagnostics(s, p)),
    }
}

/// The value of a dependency at store `s`.
pub open spec fn dep_val(s: StoreView, d: DepKeyView) -> DepValView {
    match d {
        DepKeyView::Text(p) => DepValView::Text(text_of(s, p)),
        DepKeyView::Files => DepValView::Files(s.files),
        DepKeyView::Query(k) => DepValView::Val(spec_eval(k, s)),
    }
}

/// Queries are ranked so that every dependency of a query has a strictly
/// smaller rank. The graph of possible dependencies is therefore acyclic,
/// which is what makes evaluation terminate and rules dependency cycles out
/// by construction.
pub open spec fn rank(k: QueryKeyView) -> int {
    match k {
        QueryKeyView::ParseModel(_) => 1,
        QueryKeyView::ModelRefs(_) => 1,
        QueryKeyView::AllModels => 2,
        QueryKeyView::ResolveRef(_) => 3,
        QueryKeyView::FileDiagnostics(_) => 4,
    }
}

/// Whether evaluating `k` may read the file set and every file's text.
pub open spec fn needs_files(k: QueryKeyView) -> bool {
    match k {
        QueryKeyView::ParseModel(_) => false,
        QueryKeyView::ModelRefs(_) => false,
        QueryKeyView::AllModels => true,
        QueryKeyView::ResolveRef(_) => true,
        QueryKeyView::FileDiagnostics(_) => true,
    }
}

/// The path argument of `k`, for the queries that read one file's text.
pub open spec fn text_arg(k: QueryKeyView) -> Option<Seq<char>> {
    match k {
        QueryKeyView::ParseModel(p) => Some(p),
        QueryKeyView::ModelRefs(p) => Some(p),
        QueryKeyView::AllModels => None,
        QueryKeyView::ResolveRef(_) => None,
        QueryKeyView::FileDiagnostics(p) => Some(p),
    }
}

/// Every path of the file set has written text.
pub open spec fn files_written(s: StoreView) -> bool {
    forall|i: int| 0 <= i < s.files.len() ==> s.texts.contains_key(s.files[i])
}

/// What must have been written before `k` can be evaluated: the argument
/// file's text, and — for the registry and what builds on it — the text of
/// every file in the set.
pub open spec fn key_written(k: QueryKeyView, s: StoreView) -> bool {
    &&& match text_arg(k) {
        Some(p) => s.texts.contains_key(p),
        None => true,
    }
    &&& needs_files(k) ==> files_written(s)
}

/// The store changes that cannot disturb a cached entry for `k`: everything
/// the query behind `k` may read has the same value in both stores. Writes
/// promise to keep an entry valid under this condition, which is what makes
/// early cutoff visible in the contracts: a write that leaves the read
/// values unchanged leaves every dependent cached entry reusable.
pub open spec fn reads_unchanged(k: QueryKeyView, s1: StoreView, s2: StoreView) -> bool {
    match k {
        QueryKeyView::ParseModel(p) => text_of(s1, p) == text_of(s2, p),
        QueryKeyView::ModelRefs(p) => text_of(s1, p) == text_of(s2, p),
        QueryKeyView::AllModels => s1.files == s2.files && (forall|p: Seq<char>|
            spec_parse_model(s1, p) == spec_parse_model(s2, p)),
        QueryKeyView::ResolveRef(_) => spec_all_models(s1) == spec_all_models(s2),
        QueryKeyView::FileDiagnostics(p) => {
            &&& spec_parse_model(s1, p) == spec_parse_model(s2, p)
            &&& spec_model_refs(s1, p) == spec_model_refs(s2, p)
            &&& forall|n: Seq<char>| spec_resolve_ref(s1, n) == spec_resolve_ref(s2, n)
        },
    }
}

/// The registry over a fixed file list reads only those files' parses: two
/// stores whose parses agree on the listed files give the same registry.
pub proof fn lemma_registry_frame(s1: StoreView, s2: StoreView, files: Seq<Seq<char>>)
    requires
        forall|i: int| 0 <= i < files.len() ==> spec_parse_model(s1, files[i])
            == spec_parse_model(s2, files[i]),
    ensures
        registry_of(s1, files) == registry_of(s2, files),
    decreases files.len(),
{
    if files.len() > 0 {
        assert(forall|i: int| 0 <= i < files.drop_last().len() ==> files.drop_last()[i]
            == files[i]);
        lemma_registry_frame(s1, s2, files.drop_last());
    }
}

/// What the registry holds: exactly one entry per listed path whose parse
/// succeeds, and each entry is that path's parse.
pub proof fn lemma_registry_mem(s: StoreView, files: Seq<Seq<char>>)
    ensures
        forall|q: int|
            0 <= q < registry_of(s, files).len() ==> files.contains(
                #[trigger] registry_of(s, files)[q].path,
            ) && spec_parse_model(s, registry_of(s, files)[q].path) == Some(
                registry_of(s, files)[q],
            ),
        forall|pp: Seq<char>| #![auto]
            files.contains(pp) && spec_parse_model(s, pp) is Some ==> exists|q: int|
                0 <= q < registry_of(s, files).len() && registry_of(s, files)[q].path == pp,
    decreases files.len(),
{
    if files.len() > 0 {
        let rest = files.drop_last();
        let p = files.last();
        lemma_registry_mem(s, rest);
        assert(forall|j: int| 0 <= j < rest.len() ==> rest[j] == files[j]);
        assert(forall|pp: Seq<char>| #![auto]
            rest.contains(pp) ==> files.contains(pp));
        assert(files.contains(p)) by {
            assert(files[files.len() - 1] == p);
        }
        let reg = registry_of(s, files);
        let reg0 = registry_of(s, rest);
        if rest.contains(p) {
            assert(reg == reg0);
        } else {
            match spec_parse_model(s, p) {
                Some(m) => {
                    assert(reg == reg0.push(m));
                    assert(m.path == p);
                    assert(reg[reg.len() - 1] == m);
                    assert forall|pp: Seq<char>| #![auto]
                        files.contains(pp) && spec_parse_model(s, pp) is Some implies exists|q: int|
                        0 <= q < reg.len() && reg[q].path == pp by {
                        if pp == p {
                            assert(reg[reg.len() - 1].path == pp);
                        } else {
                            let w = choose|w: int| 0 <= w < files.len() && files[w] == pp;
                            assert(w < files.len() - 1);
                            assert(rest[w] == pp);
                            assert(rest.contains(pp));
                            let q = choose|q: int| 0 <= q < reg0.len() && reg0[q].path == pp;
                            assert(reg[q].path == pp);
                        }
                    }
                },
                None => {
                    assert(reg == reg0);
                    assert forall|pp: Seq<char>| #![auto]
                        files.contains(pp) && spec_parse_model(s, pp) is Some implies exists|q: int|
                        0 <= q < reg.len() && reg[q].path == pp by {
                        if pp != p {
                            let w = choose|w: int| 0 <= w < files.len() && files[w] == pp;
                            assert(w < files.len() - 1);
                            assert(rest[w] == pp);
                            assert(rest.contains(pp));
                        }
                    }
                },
            }
        }
        assert forall|pp: Seq<char>| #![auto]
            files.contains(pp) && rest.contains(pp) == false && pp != p implies false by {
            let w = choose|w: int| 0 <= w < files.len() && files[w] == pp;
            if w < files.len() - 1 {
                assert(rest[w] == pp);
            }
        }
    }
}

/// The registry is a map keyed by path: no two entries share one.
pub proof fn lemma_registry_keys_unique(s: StoreView, files: Seq<Seq<char>>)
    ensures
        forall|a: int, b: int|
            0 <= a < b < registry_of(s, files).len() ==> registry_of(s, files)[a].path
                != registry_of(s, files)[b].path,
    decreases files.len(),
{
    if files.len() > 0 {
        let rest = files.drop_last();
        let p = files.last();
        lemma_registry_keys_unique(s, rest);
        lemma_registry_mem(s, rest);
        let reg0 = registry_of(s, rest);
        let reg = registry_of(s, files);
        if !rest.contains(p) {
            match spec_parse_model(s, p) {
                Some(m) => {
                    assert(m.path == p);
                    assert forall|a: int, b: int| 0 <= a < b < reg.len() implies reg[a].path
                        != reg[b].path by {
                        if b == reg.len() - 1 {
                            assert(reg[a] == reg0[a]);
                            assert(rest.contains(reg0[a].path));
                        } else {
                            assert(reg[a] == reg0[a] && reg[b] == reg0[b]);
                        }
                    }
                },
                None => {},
            }
        }
    }
}

/// Unfolding the registry one file at a time, front to back.
pub proof fn lemma_registry_step(s: StoreView, files: Seq<Seq<char>>, i: int)
    requires
        0 <= i < files.len(),
    ensures
        files.subrange(0, i).contains(files[i]) ==> registry_of(s, files.subrange(0, i + 1))
            == registry_of(s, files.subrange(0, i)),
        !files.subrange(0, i).contains(files[i]) && spec_parse_model(s, files[i]) is None
            ==> registry_of(s, files.subrange(0, i + 1)) == registry_of(s, files.subrange(0, i)),
        !files.subrange(0, i).contains(files[i]) && spec_parse_model(s, files[i]) is Some
            ==> registry_of(s, files.subrange(0, i + 1)) == registry_of(
            s,
            files.subrange(0, i),
        ).push(spec_parse_model(s, files[i]).unwrap()),
{
    let pre = files.subrange(0, i + 1);
    assert(pre.drop_last() =~= files.subrange(0, i));
    assert(pre.last() == files[i]);
}

/// Unfolding the unresolved-reference diagnostics one name at a time.
pub proof fn lemma_undef_diags_step(s: StoreView, refs: Seq<Seq<char>>, i: int)
    requires
        0 <= i < refs.len(),
    ensures
        undef_diags(s, refs.subrange(i, refs.len() as int)) == (if spec_resolve_ref(s, refs[i])
            is None {
            seq![undefined_ref_diag(refs[i])]
        } else {
            Seq::<DiagnosticView>::empty()
        }) + undef_diags(s, refs.subrange(i + 1, refs.len() as int)),
{
    let suf = refs.subrange(i, refs.len() as int);
    assert(suf[0] == refs[i]);
    assert(suf.subrange(1, suf.len() as int) =~= refs.subrange(i + 1, refs.len() as int));
}

/// Unfolding the first-name search one model at a time.
pub proof fn lemma_first_with_name_step(models: Seq<ModelView>, name: Seq<char>, i: int)
    requires
        0 <= i < models.len(),
    ensures
        models[i].name == name ==> first_with_name(
            models.subrange(i, models.len() as int),
            name,
        ) == Some(models[i].path),
        models[i].name != name ==> first_with_name(
            models.subrange(i, models.len() as int),
            name,
        ) == first_with_name(models.subrange(i + 1, models.len() as int), name),
{
    let suf = models.subrange(i, models.len() as int);
    assert(suf[0] == models[i]);
    assert(suf.subrange(1, suf.len() as int) =~= models.subrange(i + 1, models.len() as int));
}

} // verus!

//! Executable keys, values and dependency records of the engine, with their
//! views, and helpers that compare and copy them by value.

use vstd::prelude::*;

use crate::data::{Diagnostic, Model};
use crate::queries::{DepKeyView, DepValView, QueryKeyView, QueryValView};

verus! {

/// The key of a derived query: which query, applied to which argument.
pub enum QueryKey {
    ParseModel(String),
    ModelRefs(String),
    AllModels,
    ResolveRef(String),
    FileDiagnostics(String),
}

impl View for QueryKey {
    type V = QueryKeyView;

    open spec fn view(&self) -> QueryKeyView {
        match self {
            QueryKey::ParseModel(p) => QueryKeyView::ParseModel(p@),
            QueryKey::ModelRefs(p) => QueryKeyView::ModelRefs(p@),
            QueryKey::AllModels => QueryKeyView::AllModels,
            QueryKey::ResolveRef(n) => QueryKeyView::ResolveRef(n@),
            QueryKey::FileDiagnostics(p) => QueryKeyView::FileDiagnostics(p@),
        }
    }
}

/// The cached value of a derived query.
pub enum QueryValue {
    Parsed(Option<Model>),
    Refs(Vec<String>),
    Registry(Vec<Model>),
    Resolved(Option<String>),
    Diags(Vec<Diagnostic>),
}

impl View for QueryValue {
    type V = QueryValView;

    open spec fn view(&self) -> QueryValView {
        match self {
            QueryValue::Parsed(o) => QueryValView::Parsed(o.deep_view()),
            QueryValue::Refs(v) => QueryValView::Refs(v.deep_view()),
            QueryValue::Registry(v) => QueryValView::Registry(v.deep_view()),
            QueryValue::Resolved(o) => QueryValView::Resolved(o.deep_view()),
            QueryValue::Diags(v) => QueryValView::Diags(v.deep_view()),
        }
    }
}

/// What a computation read: an input cell or another derived query.
pub enum DepKey {
    Text(String),
    Files,
    Query(QueryKey),
}

impl View for DepKey {
    type V = DepKeyView;

    open spec fn view(&self) -> DepKeyView {
        match self {
            DepKey::Text(p) => DepKeyView::Text(p@),
            DepKey::Files => DepKeyView::Files,
            DepKey::Query(k) => DepKeyView::Query(k@),
        }
    }
}

/// The value a dependency had when it was read.
pub enum DepSeen {
    Text(Option<String>),
    Files(Vec<String>),
    Val(QueryValue),
}

impl View for DepSeen {
    type V = DepValView;

    open spec fn view(&self) -> DepValView {
        match self {
            DepSeen::Text(o) => DepValView::Text(o.deep_view()),
            DepSeen::Files(v) => DepValView::Files(v.deep_view()),
            DepSeen::Val(q) => DepValView::Val(q@),
        }
    }
}

/// One recorded dependency: what was read and the value it had.
pub struct DepEdge {
    pub key: DepKey,
    pub seen: DepSeen,
}

/// Whether two strings hold the same characters.
pub(crate) fn string_eq(a: &String, b: &String) -> (r: bool)
    ensures
        r == (a@ == b@),
{
    *a == *b
}

/// A copy of a string.
pub(crate) fn clone_string(s: &String) -> (r: String)
    ensures
        r == *s,
{
    s.clone()
}

/// Whether two optional strings hold the same value.
pub(crate) fn opt_string_eq(a: &Option<String>, b: &Option<String>) -> (r: bool)
    ensures
        r == (a.deep_view() == b.deep_view()),
{
    match (a, b) {
        (Some(x), Some(y)) => string_eq(x, y),
        (None, None) => true,
        _ => false,
    }
}

/// A copy of an optional string.
pub(crate) fn clone_opt_string(o: &Option<String>) -> (r: Option<String>)
    ensures
        r.deep_view() == o.deep_view(),
        r == *o,
{
    match o {
        Some(s) => Some(clone_string(s)),
        None => None,
    }
}

/// Whether two string lists hold the same sequences.
pub(crate) fn vec_string_eq(a: &Vec<String>, b: &Vec<String>) -> (r: bool)
    ensures
        r == (a.deep_view() == b.deep_view()),
{
    if a.len() != b.len() {
        assert(a.deep_view().len() != b.deep_view().len());
        return false;
    }
    let n = a.len();
    let mut i: usize = 0;
    while i < n
        invariant
            n == a.len() == b.len(),
            i <= n,
            forall|j: int| 0 <= j < i ==> a.deep_view()[j] == b.deep_view()[j],
        decreases n - i,
    {
        if !string_eq(&a[i], &b[i]) {
            assert(a.deep_view()[i as int] != b.deep_view()[i as int]);
            return false;
        }
        i += 1;
    }
    proof {
        assert(a.deep_view() =~= b.deep_view());
    }
    true
}

/// A copy of a string list.
pub(crate) fn clone_vec_string(v: &Vec<String>) -> (r: Vec<String>)
    ensures
        r@ == v@,
{
    let mut out: Vec<String> = Vec::new();
    let mut i: usize = 0;
    while i < v.len()
        invariant
            i <= v.len(),
            out@.len() == i,
            forall|j: int| 0 <= j < i ==> out@[j] == v@[j],
        decreases v.len() - i,
    {
        out.push(clone_string(&v[i]));
        i += 1;
    }
    proof {
        assert(out@ =~= v@);
    }
    out
}

/// Whether two models are the same model: both fields equal.
pub(crate) fn model_eq(a: &Model, b: &Model) -> (r: bool)
    ensures
        r == (a@ == b@),
{
    string_eq(&a.name, &b.name) && string_eq(&a.path, &b.path)
}

/// A copy of a model.
pub(crate) fn clone_model(m: &Model) -> (r: Model)
    ensures
        r == *m,
{
    Model { name: clone_string(&m.name), path: clone_string(&m.path) }
}

/// Whether two optional models hold the same value.
pub(crate) fn opt_model_eq(a: &Option<Model>, b: &Option<Model>) -> (r: bool)
    ensures
        r == (a.deep_view() == b.deep_view()),
{
    match (a, b) {
        (Some(x), Some(y)) => model_eq(x, y),
        (None, None) => true,
        _ => false,
    }
}

/// A copy of an optional model.
pub(crate) fn clone_opt_model(o: &Option<Model>) -> (r: Option<Model>)
    ensures
        r == *o,
{
    match o {
        Some(m) => Some(clone_model(m)),
        None => None,
    }
}

/// Whether two model lists hold the same models in the same order.
pub(crate) fn vec_model_eq(a: &Vec<Model>, b: &Vec<Model>) -> (r: bool)
    ensures
        r == (a.deep_view() == b.deep_view()),
{
    if a.len() != b.len() {
        assert(a.deep_view().len() != b.deep_view().len());
        return false;
    }
    let n = a.len();
    let mut i: usize = 0;
    while i < n
        invariant
            n == a.len() == b.len(),
            i <= n,
            forall|j: int| 0 <= j < i ==> a.deep_view()[j] == b.deep_view()[j],
        decreases n - i,
    {
        if !model_eq(&a[i], &b[i]) {
            assert(a.deep_view()[i as int] != b.deep_view()[i as int]);
            return false;
        }
        i += 1;
    }
    proof {
        assert(a.deep_view() =~= b.deep_view());
    }
    true
}

/// A copy of a model list.
pub(crate) fn clone_vec_model(v: &Vec<Model>) -> (r: Vec<Model>)
    ensures
        r@ == v@,
{
    let mut out: Vec<Model> = Vec::new();
    let mut i: usize = 0;
    while i < v.len()
        invariant
            i <= v.len(),
            out@.len() == i,
            forall|j: int| 0 <= j < i ==> out@[j] == v@[j],
        decreases v.len() - i,
    {
        out.push(clone_model(&v[i]));
        i += 1;
    }
    proof {
        assert(out@ =~= v@);
    }
    out
}

/// Whether two diagnostics are the same finding.
pub(crate) fn diag_eq(a: &Diagnostic, b: &Diagnostic) -> (r: bool)
    ensures
        r == (a@ == b@),
{
    a.severity == b.severity && a.line == b.line && a.column == b.column && string_eq(
        &a.message,
        &b.message,
    )
}

/// A copy of a diagnostic.
pub(crate) fn clone_diag(d: &Diagnostic) -> (r: Diagnostic)
    ensures
        r == *d,
{
    Diagnostic {
        severity: d.severity,
        message: clone_string(&d.message),
        line: d.line,
        column: d.column,
    }
}

/// Whether two diagnostic lists hold the same findings in the same order.
pub(crate) fn vec_diag_eq(a: &Vec<Diagnostic>, b: &Vec<Diagnostic>) -> (r: bool)
    ensures
        r == (a.deep_view() == b.deep_view()),
{
    if a.len() != b.len() {
        assert(a.deep_view().len() != b.deep_view().len());
        return false;
    }
    let n = a.len();
    let mut i: usize = 0;
    while i < n
        invariant
            n == a.len() == b.len(),
            i <= n,
            forall|j: int| 0 <= j < i ==> a.deep_view()[j] == b.deep_view()[j],
        decreases n - i,
    {
        if !diag_eq(&a[i], &b[i]) {
            assert(a.deep_view()[i as int] != b.deep_view()[i as int]);
            return false;
        }
        i += 1;
    }
    proof {
        assert(a.deep_view() =~= b.deep_view());
    }
    true
}

/// A copy of a diagnostic list.
pub(crate) fn clone_vec_diag(v: &Vec<Diagnostic>) -> (r: Vec<Diagnostic>)
    ensures
        r@ == v@,
{
    let mut out: Vec<Diagnostic> = Vec::new();
    let mut i: usize = 0;
    while i < v.len()
        invariant
            i <= v.len(),
            out@.len() == i,
            forall|j: int| 0 <= j < i ==> out@[j] == v@[j],
        decreases v.len() - i,
    {
        out.push(clone_diag(&v[i]));
        i += 1;
    }
    proof {
        assert(out@ =~= v@);
    }
    out
}

/// Whether two query keys name the same query and argument.
pub(crate) fn key_eq(a: &QueryKey, b: &QueryKey) -> (r: bool)
    ensures
        r == (a@ == b@),
{
    match (a, b) {
        (QueryKey::ParseModel(x), QueryKey::ParseModel(y)) => string_eq(x, y),
        (QueryKey::ModelRefs(x), QueryKey::ModelRefs(y)) => string_eq(x, y),
        (QueryKey::AllModels, QueryKey::AllModels) => true,
        (QueryKey::ResolveRef(x), QueryKey::ResolveRef(y)) => string_eq(x, y),
        (QueryKey::FileDiagnostics(x), QueryKey::FileDiagnostics(y)) => string_eq(x, y),
        _ => false,
    }
}

/// A copy of a query key.
pub(crate) fn clone_key(k: &QueryKey) -> (r: QueryKey)
    ensures
        r == *k,
{
    match k {
        QueryKey::ParseModel(p) => QueryKey::ParseModel(clone_string(p)),
        QueryKey::ModelRefs(p) => QueryKey::ModelRefs(clone_string(p)),
        QueryKey::AllModels => QueryKey::AllModels,
        QueryKey::ResolveRef(n) => QueryKey::ResolveRef(clone_string(n)),
        QueryKey::FileDiagnostics(p) => QueryKey::FileDiagnostics(clone_string(p)),
    }
}

/// Whether two query values are value-equal. Value equality is what decides
/// dependency staleness and early cutoff.
pub(crate) fn value_eq(a: &QueryValue, b: &QueryValue) -> (r: bool)
    ensures
        r == (a@ == b@),
{
    match (a, b) {
        (QueryValue::Parsed(x), QueryValue::Parsed(y)) => opt_model_eq(x, y),
        (QueryValue::Refs(x), QueryValue::Refs(y)) => vec_string_eq(x, y),
        (QueryValue::Registry(x), QueryValue::Registry(y)) => vec_model_eq(x, y),
        (QueryValue::Resolved(x), QueryValue::Resolved(y)) => opt_string_eq(x, y),
        (QueryValue::Diags(x), QueryValue::Diags(y)) => vec_diag_eq(x, y),
        _ => false,
    }
}

/// A copy of a query value.
pub(crate) fn clone_value(v: &QueryValue) -> (r: QueryValue)
    ensures
        r@ == v@,
{
    match v {
        QueryValue::Parsed(o) => QueryValue::Parsed(clone_opt_model(o)),
        QueryValue::Refs(x) => QueryValue::Refs(clone_vec_string(x)),
        QueryValue::Registry(x) => QueryValue::Registry(clone_vec_model(x)),
        QueryValue::Resolved(o) => QueryValue::Resolved(clone_opt_string(o)),
        QueryValue::Diags(x) => QueryValue::Diags(clone_vec_diag(x)),
    }
}

} // verus!

//! The memoization engine: input cells, revision, cache, and evaluation.
//!
//! A cache entry records, for one query, the value produced, the revision at
//! which it was last verified, how often it was recomputed, and one edge per
//! dependency read during the computation, each annotated with the value the
//! dependency had when read. The entry's invariant [`memo_wf`] carries the
//! two facts that make reuse sound: the recorded edges agreed with the store
//! of the verification revision, and *any* store agreeing with all edges
//! gives the query the recorded value. A ghost history of stores, one per
//! revision, ties both to the inputs.
//!
//! [`fetch`] is the single entry point for reading a derived query. It
//! serves an entry already verified at the current revision without any
//! work; otherwise it revalidates the entry by comparing every recorded
//! dependency's current value with the recorded one — bringing a dependency
//! query up to date through `fetch` itself, so an unchanged dependency value
//! stops the recursion there (early cutoff) — and only when some dependency
//! really changed does it run the query function again, recording a fresh
//! dependency list as it executes. Each query function threads its recording
//! context (the growing edge list) explicitly; there is no hidden tracking.

use vstd::prelude::*;

use crate::api::{Inputs, Semantic, Syntax};
use crate::data::{DbError, Diagnostic, DiagnosticSeverity, Model};
use crate::queries::{
    dep_val, files_written, key_written, lemma_first_with_name_step, lemma_registry_mem,
    lemma_registry_step, lemma_undef_diags_step, needs_files, rank, spec_all_models,
    spec_eval, spec_file_diagnostics, spec_model_refs, spec_parse_model, spec_resolve_ref,
    text_arg, text_of, undef_diags, DepKeyView, DepValView, QueryKeyView, QueryValView, StoreView,
};
use crate::text::{check_models_dir, check_select, scan_refs, stem};
use crate::values::{
    clone_key, clone_opt_string, clone_string, clone_value, clone_vec_string, string_eq,
    value_eq, vec_string_eq, opt_string_eq, DepEdge, DepKey, DepSeen, QueryKey, QueryValue,
};

verus! {

/// One input cell: a file's current text and the revision that wrote it.
pub struct TextCell {
    pub path: String,
    pub text: String,
    pub changed_at: u64,
}

/// One cache entry.
pub struct MemoEntry {
    pub key: QueryKey,
    pub value: QueryValue,
    pub verified_at: u64,
    pub deps: Vec<DepEdge>,
    pub count: u64,
}

/// The incremental database: the only mutable state of the core. Owned by
/// the host and passed by reference; never a global.
pub struct Database {
    pub(crate) texts: Vec<TextCell>,
    pub(crate) files: Vec<String>,
    pub(crate) files_changed_at: u64,
    pub(crate) rev: u64,
    pub(crate) memos: Vec<MemoEntry>,
    pub(crate) hist: Ghost<Seq<StoreView>>,
}

/// The map from path to text that a cell list holds; later cells win.
pub(crate) open spec fn cells_map(cells: Seq<TextCell>) -> Map<Seq<char>, Seq<char>>
    decreases cells.len(),
{
    if cells.len() == 0 {
        Map::empty()
    } else {
        cells_map(cells.drop_last()).insert(cells.last().path@, cells.last().text@)
    }
}

/// No two cells share a path.
pub(crate) open spec fn cells_unique(cells: Seq<TextCell>) -> bool {
    forall|i: int, j: int| 0 <= i < j < cells.len() ==> cells[i].path@ != cells[j].path@
}

/// The cell map holds exactly the cells' paths.
pub(crate) proof fn lemma_cells_map_contains(cells: Seq<TextCell>, p: Seq<char>)
    ensures
        cells_map(cells).contains_key(p) <==> exists|i: int|
            0 <= i < cells.len() && cells[i].path@ == p,
    decreases cells.len(),
{
    if cells.len() > 0 {
        lemma_cells_map_contains(cells.drop_last(), p);
        if cells.last().path@ == p {
            assert(cells[cells.len() - 1].path@ == p);
        } else if cells_map(cells).contains_key(p) {
            let i = choose|i: int| 0 <= i < cells.drop_last().len() && cells.drop_last()[i].path@
                == p;
            assert(cells[i].path@ == p);
        } else if exists|i: int| 0 <= i < cells.len() && cells[i].path@ == p {
            let i = choose|i: int| 0 <= i < cells.len() && cells[i].path@ == p;
            assert(i < cells.len() - 1);
            assert(cells.drop_last()[i].path@ == p);
        }
    }
}

/// With unique paths, each cell's text is what the map gives its path.
pub(crate) proof fn lemma_cells_map_value(cells: Seq<TextCell>, i: int)
    requires
        cells_unique(cells),
        0 <= i < cells.len(),
    ensures
        cells_map(cells).contains_key(cells[i].path@),
        cells_map(cells)[cells[i].path@] == cells[i].text@,
    decreases cells.len(),
{
    if i < cells.len() - 1 {
        assert(forall|a: int, b: int|
            0 <= a < b < cells.drop_last().len() ==> cells.drop_last()[a].path@
                != cells.drop_last()[b].path@);
        lemma_cells_map_value(cells.drop_last(), i);
        assert(cells.last().path@ != cells[i].path@);
    }
}

/// Updating the cell that holds a path updates the map at that path.
pub(crate) proof fn lemma_cells_map_update(cells: Seq<TextCell>, i: int, c: TextCell)
    requires
        cells_unique(cells),
        0 <= i < cells.len(),
        c.path@ == cells[i].path@,
    ensures
        cells_map(cells.update(i, c)) == cells_map(cells).insert(c.path@, c.text@),
    decreases cells.len(),
{
    let upd = cells.update(i, c);
    if i == cells.len() - 1 {
        assert(upd.drop_last() =~= cells.drop_last());
        assert(upd.last() == c);
        assert(cells_map(cells.drop_last()).insert(c.path@, c.text@) =~= cells_map(
            cells,
        ).insert(c.path@, c.text@));
    } else {
        assert(forall|a: int, b: int|
            0 <= a < b < cells.drop_last().len() ==> cells.drop_last()[a].path@
                != cells.drop_last()[b].path@);
        lemma_cells_map_update(cells.drop_last(), i, c);
        assert(upd.drop_last() =~= cells.drop_last().update(i, c));
        assert(upd.last() == cells.last());
        assert(cells.last().path@ != c.path@);
        assert(cells_map(cells.drop_last()).insert(c.path@, c.text@).insert(
            cells.last().path@,
            cells.last().text@,
        ) =~= cells_map(cells).insert(c.path@, c.text@));
    }
}

/// The first cached entry whose key is `k`.
pub(crate) open spec fn memo_of(memos: Seq<MemoEntry>, k: QueryKeyView) -> Option<MemoEntry>
    decreases memos.len(),
{
    if memos.len() == 0 {
        None
    } else if memos[0].key@ == k {
        Some(memos[0])
    } else {
        memo_of(memos.subrange(1, memos.len() as int), k)
    }
}

/// How often the query behind `k` was recomputed.
pub(crate) open spec fn count_of(memos: Seq<MemoEntry>, k: QueryKeyView) -> nat {
    match memo_of(memos, k) {
        Some(e) => e.count as nat,
        None => 0,
    }
}

/// No two cached entries share a key.
pub(crate) open spec fn memo_keys_unique(m: Seq<MemoEntry>) -> bool {
    forall|i: int, j: int| 0 <= i < j < m.len() ==> m[i].key@ != m[j].key@
}

/// An index holding `k` before which no index holds `k` is what `memo_of`
/// finds.
pub(crate) proof fn lemma_memo_of_first(memos: Seq<MemoEntry>, k: QueryKeyView, i: int)
    requires
        0 <= i < memos.len(),
        memos[i].key@ == k,
        forall|j: int| 0 <= j < i ==> memos[j].key@ != k,
    ensures
        memo_of(memos, k) == Some(memos[i]),
    decreases memos.len(),
{
    if i > 0 {
        let rest = memos.subrange(1, memos.len() as int);
        assert(forall|j: int| 0 <= j < rest.len() ==> rest[j] == memos[j + 1]);
        lemma_memo_of_first(rest, k, i - 1);
    }
}

/// When no entry holds `k`, `memo_of` finds nothing.
pub(crate) proof fn lemma_memo_of_none(memos: Seq<MemoEntry>, k: QueryKeyView)
    requires
        forall|j: int| 0 <= j < memos.len() ==> memos[j].key@ != k,
    ensures
        memo_of(memos, k) is None,
    decreases memos.len(),
{
    if memos.len() > 0 {
        let rest = memos.subrange(1, memos.len() as int);
        assert(forall|j: int| 0 <= j < rest.len() ==> rest[j] == memos[j + 1]);
        lemma_memo_of_none(rest, k);
    }
}

/// What `memo_of` finds is an entry of the list with key `k`; when it finds
/// nothing, no entry holds `k`.
pub(crate) proof fn lemma_memo_of_char(memos: Seq<MemoEntry>, k: QueryKeyView)
    ensures
        match memo_of(memos, k) {
            Some(e) => exists|i: int| 0 <= i < memos.len() && memos[i] == e && memos[i].key@ == k,
            None => forall|i: int| 0 <= i < memos.len() ==> memos[i].key@ != k,
        },
    decreases memos.len(),
{
    if memos.len() == 0 {
    } else if memos[0].key@ == k {
        let e = memos[0];
        assert(0 <= 0 < memos.len() && memos[0] == e && memos[0].key@ == k);
    } else {
        let rest = memos.subrange(1, memos.len() as int);
        assert(forall|j: int| 0 <= j < rest.len() ==> rest[j] == memos[j + 1]);
        lemma_memo_of_char(rest, k);
        match memo_of(rest, k) {
            Some(e) => {
                let i = choose|i: int| 0 <= i < rest.len() && rest[i] == e && rest[i].key@ == k;
                assert(0 <= i + 1 < memos.len() && memos[i + 1] == e && memos[i + 1].key@ == k);
            },
            None => {
                assert forall|i: int| 0 <= i < memos.len() implies memos[i].key@ != k by {
                    if i > 0 {
                        assert(rest[i - 1].key@ != k);
                    }
                }
            },
        }
    }
}

/// Inserting an entry with another key leaves `memo_of` for `k2` unchanged.
pub(crate) proof fn lemma_memo_of_insert_other(
    m: Seq<MemoEntry>,
    i: int,
    e: MemoEntry,
    k2: QueryKeyView,
)
    requires
        0 <= i <= m.len(),
        e.key@ != k2,
    ensures
        memo_of(m.insert(i, e), k2) == memo_of(m, k2),
    decreases m.len(),
{
    let ins = m.insert(i, e);
    if i == 0 {
        assert(ins[0] == e);
        assert(ins.subrange(1, ins.len() as int) =~= m);
    } else {
        assert(ins[0] == m[0]);
        if m[0].key@ == k2 {
        } else {
            assert(ins.subrange(1, ins.len() as int) =~= m.subrange(1, m.len() as int).insert(
                i - 1,
                e,
            ));
            lemma_memo_of_insert_other(m.subrange(1, m.len() as int), i - 1, e, k2);
        }
    }
}

/// Removing an entry with another key leaves `memo_of` for `k2` unchanged.
pub(crate) proof fn lemma_memo_of_remove_other(m: Seq<MemoEntry>, i: int, k2: QueryKeyView)
    requires
        0 <= i < m.len(),
        m[i].key@ != k2,
    ensures
        memo_of(m.remove(i), k2) == memo_of(m, k2),
    decreases m.len(),
{
    let rem = m.remove(i);
    if i == 0 {
        assert(rem =~= m.subrange(1, m.len() as int));
    } else {
        assert(rem[0] == m[0]);
        if m[0].key@ == k2 {
        } else {
            assert(rem.subrange(1, rem.len() as int) =~= m.subrange(1, m.len() as int).remove(
                i - 1,
            ));
            lemma_memo_of_remove_other(m.subrange(1, m.len() as int), i - 1, k2);
        }
    }
}

/// A state change that leaves the cache untouched and everything a query
/// reads unchanged cannot disturb that query's cached entry.
proof fn lemma_valid_memo_preserved(db0: Database, db1: Database, k: QueryKeyView)
    requires
        db0.wf(),
        db1.memos@ == db0.memos@,
        db1.hist@.len() == db1.rev + 1,
        db0.memo_valid(k),
        crate::queries::reads_unchanged(
            k,
            db0.hist@[db0.rev as int],
            db1.hist@[db1.rev as int],
        ),
    ensures
        db1.memo_valid(k),
{
    let s0 = db0.hist@[db0.rev as int];
    let s1 = db1.hist@[db1.rev as int];
    lemma_memo_of_char(db0.memos@, k);
    let e = memo_of(db0.memos@, k).unwrap();
    let w = choose|w: int|
        0 <= w < db0.memos@.len() && db0.memos@[w] == e && db0.memos@[w].key@ == k;
    assert(memo_wf(e, db0.rev, db0.hist@));
    assert forall|q: int| 0 <= q < e.deps@.len() implies dep_val(s1, e.deps@[q].key@)
        == e.deps@[q].seen@ by {
        assert(dep_val(s0, e.deps@[q].key@) == e.deps@[q].seen@);
        match k {
            QueryKeyView::ParseModel(p) => {
                assert(e.deps@[q].key@ == DepKeyView::Text(p));
            },
            QueryKeyView::ModelRefs(p) => {
                assert(e.deps@[q].key@ == DepKeyView::Text(p));
            },
            QueryKeyView::AllModels => {
                if e.deps@[q].key@ != DepKeyView::Files {
                    let pp = choose|pp: Seq<char>|
                        e.deps@[q].key@ == DepKeyView::Query(QueryKeyView::ParseModel(pp));
                    assert(spec_parse_model(s0, pp) == spec_parse_model(s1, pp));
                }
            },
            QueryKeyView::ResolveRef(_) => {
                assert(e.deps@[q].key@ == DepKeyView::Query(QueryKeyView::AllModels));
            },
            QueryKeyView::FileDiagnostics(p) => {
                if e.deps@[q].key@ == DepKeyView::Query(QueryKeyView::ParseModel(p)) {
                } else if e.deps@[q].key@ == DepKeyView::Query(QueryKeyView::ModelRefs(p)) {
                } else {
                    let n = choose|n: Seq<char>|
                        e.deps@[q].key@ == DepKeyView::Query(QueryKeyView::ResolveRef(n));
                    assert(spec_resolve_ref(s0, n) == spec_resolve_ref(s1, n));
                }
            },
        }
    }
}

/// One input cell is consistent with the history: its text has been the
/// store's value for its path ever since the revision that wrote it.
pub(crate) open spec fn cell_ok(c: TextCell, rev: u64, hist: Seq<StoreView>) -> bool {
    &&& c.changed_at <= rev
    &&& forall|r: int|
        c.changed_at <= r <= rev ==> hist[r].texts.contains_key(c.path@) && hist[r].texts[c.path@]
            == c.text@
}

/// Every recorded edge has, in store `s`, the value it was recorded with.
pub(crate) open spec fn agree_vals(s: StoreView, deps: Seq<DepEdge>) -> bool {
    forall|i: int| 0 <= i < deps.len() ==> dep_val(s, deps[i].key@) == deps[i].seen@
}

/// A recorded edge is well-formed under its parent key: a query dependency
/// has smaller rank, needs the file set only if the parent may, and its
/// argument file was written in the store it was verified against.
pub(crate) open spec fn edge_wf(e: DepEdge, parent: QueryKeyView, s_at: StoreView) -> bool {
    match e.key@ {
        DepKeyView::Text(_) => true,
        DepKeyView::Files => true,
        DepKeyView::Query(k2) => {
            &&& rank(k2) < rank(parent)
            &&& (needs_files(k2) ==> needs_files(parent))
            &&& match text_arg(k2) {
                Some(p) => s_at.texts.contains_key(p),
                None => true,
            }
        },
    }
}

/// A cache entry is well-formed: verified at a past revision, its edges
/// agreed with the store of that revision, any store agreeing with all its
/// edges gives the query its value, its edges are well-formed there, and it
/// was recomputed at most once per revision it saw.
/// The queries that read one file's text alone record only that cell: their
/// recorded dependencies name no other input and no other query, so a write
/// to any other cell cannot disturb their entries.
pub(crate) open spec fn deps_shape(k: QueryKeyView, deps: Seq<DepEdge>) -> bool {
    match k {
        QueryKeyView::ParseModel(p) => forall|i: int|
            0 <= i < deps.len() ==> deps[i].key@ == DepKeyView::Text(p),
        QueryKeyView::ModelRefs(p) => forall|i: int|
            0 <= i < deps.len() ==> deps[i].key@ == DepKeyView::Text(p),
        QueryKeyView::AllModels => forall|i: int| #![auto]
            0 <= i < deps.len() ==> (deps[i].key@ == DepKeyView::Files || (exists|pp: Seq<char>|
                deps[i].key@ == DepKeyView::Query(QueryKeyView::ParseModel(pp)))),
        QueryKeyView::ResolveRef(_) => forall|i: int|
            0 <= i < deps.len() ==> deps[i].key@ == DepKeyView::Query(QueryKeyView::AllModels),
        QueryKeyView::FileDiagnostics(p) => forall|i: int| #![auto]
            0 <= i < deps.len() ==> (deps[i].key@ == DepKeyView::Query(
                QueryKeyView::ParseModel(p),
            ) || deps[i].key@ == DepKeyView::Query(QueryKeyView::ModelRefs(p)) || (exists|
                n: Seq<char>,
            |
                deps[i].key@ == DepKeyView::Query(QueryKeyView::ResolveRef(n)))),
    }
}

pub(crate) open spec fn memo_wf(e: MemoEntry, rev: u64, hist: Seq<StoreView>) -> bool {
    &&& e.verified_at <= rev
    &&& agree_vals(hist[e.verified_at as int], e.deps@)
    &&& (forall|s: StoreView| agree_vals(s, e.deps@) ==> spec_eval(e.key@, s) == e.value@)
    &&& (forall|i: int|
        0 <= i < e.deps@.len() ==> edge_wf(e.deps@[i], e.key@, hist[e.verified_at as int]))
    &&& deps_shape(e.key@, e.deps@)
    &&& e.count <= e.verified_at + 1
}

/// The cell holding `path`, if any.
pub(crate) fn find_cell(cells: &Vec<TextCell>, path: &String) -> (r: Option<usize>)
    ensures
        match r {
            Some(i) => 0 <= i < cells@.len() && cells@[i as int].path@ == path@,
            None => forall|j: int| 0 <= j < cells@.len() ==> cells@[j].path@ != path@,
        },
{
    let n = cells.len();
    let mut i: usize = 0;
    while i < n
        invariant
            n == cells@.len(),
            i <= n,
            forall|j: int| 0 <= j < i ==> cells@[j].path@ != path@,
        decreases n - i,
    {
        if string_eq(&cells[i].path, path) {
            return Some(i);
        }
        i += 1;
    }
    None
}

/// A copy of the current text of `path`, if its cell exists.
pub(crate) fn lookup_text(cells: &Vec<TextCell>, path: &String) -> (r: Option<String>)
    requires
        cells_unique(cells@),
    ensures
        r.deep_view() == (if cells_map(cells@).contains_key(path@) {
            Some(cells_map(cells@)[path@])
        } else {
            None::<Seq<char>>
        }),
{
    proof {
        lemma_cells_map_contains(cells@, path@);
    }
    match find_cell(cells, path) {
        Some(i) => {
            proof {
                lemma_cells_map_value(cells@, i as int);
            }
            Some(clone_string(&cells[i].text))
        },
        None => None,
    }
}

/// The index of the first cached entry for `k`, if any.
pub(crate) fn find_memo(memos: &Vec<MemoEntry>, k: &QueryKey) -> (r: Option<usize>)
    ensures
        match r {
            Some(i) => 0 <= i < memos@.len() && memos@[i as int].key@ == k@ && (forall|j: int|
                0 <= j < i ==> memos@[j].key@ != k@),
            None => forall|j: int| 0 <= j < memos@.len() ==> memos@[j].key@ != k@,
        },
{
    let n = memos.len();
    let mut i: usize = 0;
    while i < n
        invariant
            n == memos@.len(),
            i <= n,
            forall|j: int| 0 <= j < i ==> memos@[j].key@ != k@,
        decreases n - i,
    {
        if crate::values::key_eq(&memos[i].key, k) {
            return Some(i);
        }
        i += 1;
    }
    None
}

impl Database {
    /// How often the query behind `key` has been recomputed since this
    /// database was created. Reads that are served from a valid cache entry
    /// leave it unchanged; it exists so that memoization and early cutoff
    /// are observable.
    pub fn recompute_count(&self, key: &QueryKey) -> (r: u64)
        ensures
            r as nat == self.query_count(key@),
    {
        match find_memo(&self.memos, key) {
            Some(i) => {
                proof {
                    lemma_memo_of_first(self.memos@, key@, i as int);
                }
                self.memos[i].count
            },
            None => {
                proof {
                    lemma_memo_of_none(self.memos@, key@);
                }
                0
            },
        }
    }
}

impl Default for Database {
    /// An empty database: no cells, an empty file set, revision zero.
    fn default() -> (d: Database)
        ensures
            d.wf(),
            d.store().texts == Map::<Seq<char>, Seq<char>>::empty(),
            d.store().files == Seq::<Seq<char>>::empty(),
            d.revision() == 0,
            forall|k: QueryKeyView| d.query_count(k) == 0,
    {
        let ghost s0 = StoreView { texts: Map::empty(), files: Seq::empty() };
        let ghost h0: Seq<StoreView> = seq![s0];
        let d = Database {
            texts: Vec::new(),
            files: Vec::new(),
            files_changed_at: 0,
            rev: 0,
            memos: Vec::new(),
            hist: Ghost(h0),
        };
        proof {
            assert(cells_map(d.texts@) =~= s0.texts);
            assert(d.files.deep_view() =~= s0.files);
            assert(forall|k: QueryKeyView| memo_of(d.memos@, k) is None);
        }
        d
    }
}

impl Inputs for Database {
    closed spec fn store(&self) -> StoreView {
        self.hist@[self.rev as int]
    }

    closed spec fn wf(&self) -> bool {
        &&& self.hist@.len() == self.rev + 1
        &&& self.rev < u64::MAX
        &&& cells_unique(self.texts@)
        &&& cells_map(self.texts@) == self.hist@[self.rev as int].texts
        &&& self.files.deep_view() == self.hist@[self.rev as int].files
        &&& self.files_changed_at <= self.rev
        &&& (forall|r: int|
            self.files_changed_at <= r <= self.rev ==> #[trigger] self.hist@[r].files
                == self.hist@[self.rev as int].files)
        &&& (forall|i: int| 0 <= i < self.texts@.len() ==> cell_ok(self.texts@[i], self.rev, self.hist@))
        &&& (forall|r1: int, r2: int|
            0 <= r1 <= r2 <= self.rev ==> self.hist@[r1].texts.dom().subset_of(
                self.hist@[r2].texts.dom(),
            ))
        &&& memo_keys_unique(self.memos@)
        &&& (forall|i: int| 0 <= i < self.memos@.len() ==> memo_wf(self.memos@[i], self.rev, self.hist@))
    }

    closed spec fn revision(&self) -> nat {
        self.rev as nat
    }

    closed spec fn query_count(&self, k: QueryKeyView) -> nat {
        count_of(self.memos@, k)
    }

    closed spec fn memo_fresh(&self, k: QueryKeyView) -> bool {
        match memo_of(self.memos@, k) {
            Some(e) => e.verified_at == self.rev,
            None => false,
        }
    }

    closed spec fn memo_valid(&self, k: QueryKeyView) -> bool {
        match memo_of(self.memos@, k) {
            Some(e) => agree_vals(self.hist@[self.rev as int], e.deps@),
            None => false,
        }
    }

    fn set_file_text(&mut self, path: String, text: String) {
        let ghost old_db = *old(self);
        let new_rev = self.rev + 1;
        let ghost new_store = StoreView {
            texts: old_db.store().texts.insert(path@, text@),
            files: old_db.store().files,
        };
        let idx = find_cell(&self.texts, &path);
        let ghost pv = path@;
        let cell = TextCell { path, text, changed_at: new_rev };
        match idx {
            Some(i) => {
                self.texts[i] = cell;
                proof {
                    lemma_cells_map_update(old_db.texts@, i as int, cell);
                }
            },
            None => {
                self.texts.push(cell);
                proof {
                    assert(self.texts@.drop_last() =~= old_db.texts@);
                    assert(forall|a: int, b: int|
                        0 <= a < b < self.texts@.len() ==> self.texts@[a].path@
                            != self.texts@[b].path@);
                }
            },
        }
        self.rev = new_rev;
        let ghost h2 = old_db.hist@.push(new_store);
        proof {
            self.hist@ = h2;
        }
        proof {
            let r = new_rev as int;
            assert(self.hist@[r] == new_store);
            assert forall|i: int| 0 <= i < self.texts@.len() implies cell_ok(
                self.texts@[i],
                self.rev,
                self.hist@,
            ) by {
                let c = self.texts@[i];
                if c.changed_at == new_rev {
                    assert(self.hist@[r].texts.contains_key(c.path@) && self.hist@[r].texts[c.path@]
                        == c.text@);
                } else {
                    assert(cell_ok(old_db.texts@[i], old_db.rev, old_db.hist@));
                    assert(c == old_db.texts@[i]);
                    assert(c.path@ != pv);
                    assert forall|rr: int| c.changed_at <= rr <= self.rev implies self.hist@[rr].texts.contains_key(
                        c.path@,
                    ) && self.hist@[rr].texts[c.path@] == c.text@ by {
                        if rr < r {
                            assert(self.hist@[rr] == old_db.hist@[rr]);
                        } else {
                            assert(self.hist@[rr] == new_store);
                        }
                    }
                }
            }
            assert forall|r1: int, r2: int| 0 <= r1 <= r2 <= self.rev implies self.hist@[r1].texts.dom().subset_of(
                self.hist@[r2].texts.dom(),
            ) by {
                if r2 < r {
                    assert(self.hist@[r1] == old_db.hist@[r1]);
                    assert(self.hist@[r2] == old_db.hist@[r2]);
                } else if r1 < r {
                    assert(self.hist@[r1] == old_db.hist@[r1]);
                    assert(old_db.hist@[r1].texts.dom().subset_of(old_db.store().texts.dom()));
                    assert(new_store.texts.dom() =~= old_db.store().texts.dom().insert(pv));
                } else {
                    assert(self.hist@[r1] == new_store);
                }
            }
            assert forall|i: int| 0 <= i < self.memos@.len() implies memo_wf(
                self.memos@[i],
                self.rev,
                self.hist@,
            ) by {
                let e = self.memos@[i];
                assert(memo_wf(e, old_db.rev, old_db.hist@));
                assert(self.hist@[e.verified_at as int] == old_db.hist@[e.verified_at as int]);
            }
            assert(cells_map(self.texts@) == new_store.texts);
            assert forall|k2: QueryKeyView|
                old_db.memo_valid(k2) && crate::queries::reads_unchanged(
                    k2,
                    old_db.store(),
                    new_store,
                ) implies self.memo_valid(k2) by {
                lemma_valid_memo_preserved(old_db, *self, k2);
            }
        }
    }

    fn set_all_files(&mut self, files: Vec<String>) {
        let ghost old_db = *old(self);
        let new_rev = self.rev + 1;
        let ghost new_store = StoreView {
            texts: old_db.store().texts,
            files: files.deep_view(),
        };
        self.files = files;
        self.files_changed_at = new_rev;
        self.rev = new_rev;
        let ghost h2 = old_db.hist@.push(new_store);
        proof {
            self.hist@ = h2;
        }
        proof {
            let r = new_rev as int;
            assert(self.hist@[r] == new_store);
            assert forall|i: int| 0 <= i < self.texts@.len() implies cell_ok(
                self.texts@[i],
                self.rev,
                self.hist@,
            ) by {
                let c = self.texts@[i];
                assert(cell_ok(c, old_db.rev, old_db.hist@));
                assert forall|rr: int| c.changed_at <= rr <= self.rev implies self.hist@[rr].texts.contains_key(
                    c.path@,
                ) && self.hist@[rr].texts[c.path@] == c.text@ by {
                    if rr < r {
                        assert(self.hist@[rr] == old_db.hist@[rr]);
                    } else {
                        assert(self.hist@[rr] == new_store);
                    }
                }
            }
            assert forall|r1: int, r2: int| 0 <= r1 <= r2 <= self.rev implies self.hist@[r1].texts.dom().subset_of(
                self.hist@[r2].texts.dom(),
            ) by {
                if r2 < r {
                    assert(self.hist@[r1] == old_db.hist@[r1]);
                    assert(self.hist@[r2] == old_db.hist@[r2]);
                } else if r1 < r {
                    assert(self.hist@[r1] == old_db.hist@[r1]);
                    assert(old_db.hist@[r1].texts.dom().subset_of(old_db.store().texts.dom()));
                } else {
                    assert(self.hist@[r1] == new_store);
                }
            }
            assert forall|i: int| 0 <= i < self.memos@.len() implies memo_wf(
                self.memos@[i],
                self.rev,
                self.hist@,
            ) by {
                let e = self.memos@[i];
                assert(memo_wf(e, old_db.rev, old_db.hist@));
                assert(self.hist@[e.verified_at as int] == old_db.hist@[e.verified_at as int]);
            }
            assert forall|k2: QueryKeyView|
                old_db.memo_valid(k2) && crate::queries::reads_unchanged(
                    k2,
                    old_db.store(),
                    new_store,
                ) implies self.memo_valid(k2) by {
                lemma_valid_memo_preserved(old_db, *self, k2);
            }
        }
    }

    fn file_text(&self, path: &String) -> (r: Result<String, DbError>) {
        proof {
            lemma_cells_map_contains(self.texts@, path@);
        }
        match find_cell(&self.texts, path) {
            Some(i) => {
                proof {
                    lemma_cells_map_value(self.texts@, i as int);
                }
                Ok(clone_string(&self.texts[i].text))
            },
            None => Err(DbError::NotFound),
        }
    }

    fn all_files(&self) -> (r: Vec<String>) {
        clone_vec_string(&self.files)
    }
}



/// The diagnostic on a file under `models/` that defines no model.
fn make_warning_diag() -> (d: Diagnostic)
    ensures
        d@ == crate::queries::warning_diag(),
{
    Diagnostic {
        severity: DiagnosticSeverity::Warning,
        message: String::from_str("File does not contain a valid SQL query"),
        line: 0,
        column: 0,
    }
}

/// The diagnostic on a reference to `name` that resolves to nothing.
fn make_undef_diag(name: &String) -> (d: Diagnostic)
    ensures
        d@ == crate::queries::undefined_ref_diag(name@),
{
    let mut msg = String::from_str("Undefined model reference: '");
    msg.append(name.as_str());
    msg.append("'");
    Diagnostic { severity: DiagnosticSeverity::Error, message: msg, line: 0, column: 0 }
}

/// Whether some model in the list has path `p`.
fn models_contain_path(acc: &Vec<Model>, p: &String) -> (r: bool)
    ensures
        r == exists|q: int| 0 <= q < acc.deep_view().len() && acc.deep_view()[q].path == p@,
{
    let n = acc.len();
    let mut i: usize = 0;
    while i < n
        invariant
            n == acc.len(),
            i <= n,
            forall|q: int| 0 <= q < i ==> acc.deep_view()[q].path != p@,
        decreases n - i,
    {
        if string_eq(&acc[i].path, p) {
            assert(acc.deep_view()[i as int].path == p@);
            return true;
        }
        i += 1;
    }
    false
}

/// The path of the first model in the list named `name`, if any.
fn find_name(models: &Vec<Model>, name: &String) -> (r: Option<String>)
    ensures
        r.deep_view() == crate::queries::first_with_name(models.deep_view(), name@),
{
    let ghost ms = models.deep_view();
    let n = models.len();
    proof {
        assert(ms.subrange(0, ms.len() as int) =~= ms);
    }
    let mut i: usize = 0;
    while i < n
        invariant
            n == models.len(),
            ms == models.deep_view(),
            i <= n,
            crate::queries::first_with_name(ms, name@) == crate::queries::first_with_name(
                ms.subrange(i as int, ms.len() as int),
                name@,
            ),
        decreases n - i,
    {
        proof {
            lemma_first_with_name_step(ms, name@, i as int);
        }
        if string_eq(&models[i].name, name) {
            return Some(clone_string(&models[i].path));
        }
        i += 1;
    }
    proof {
        assert(ms.subrange(n as int, ms.len() as int).len() == 0);
    }
    None
}

/// Runs model extraction, recording what it reads.
fn eval_parse_model(db: &mut Database, path: &String) -> (r: (QueryValue, Vec<DepEdge>))
    requires
        old(db).wf(),
        old(db).store().texts.contains_key(path@),
    ensures
        *final(db) == *old(db),
        r.0@ == spec_eval(QueryKeyView::ParseModel(path@), old(db).store()),
        agree_vals(old(db).store(), r.1@),
        forall|s: StoreView| #[trigger] agree_vals(s, r.1@) ==> spec_eval(
            QueryKeyView::ParseModel(path@),
            s,
        ) == r.0@,
        forall|q: int| 0 <= q < r.1@.len() ==> edge_wf(
            r.1@[q],
            QueryKeyView::ParseModel(path@),
            old(db).store(),
        ),
        forall|q: int| 0 <= q < r.1@.len() ==> r.1@[q].key@ == DepKeyView::Text(path@),
        deps_shape(QueryKeyView::ParseModel(path@), r.1@),
{
    let text_opt = lookup_text(&db.texts, path);
    let mut deps: Vec<DepEdge> = Vec::new();
    deps.push(
        DepEdge { key: DepKey::Text(clone_string(path)), seen: DepSeen::Text(clone_opt_string(&text_opt)) },
    );
    let ghost s0 = db.store();
    proof {
        assert(text_of(s0, path@) == text_opt.deep_view());
        assert(deps@[0].key@ == DepKeyView::Text(path@));
        assert(deps@[0].seen@ == DepValView::Text(text_opt.deep_view()));
    }
    let value = match &text_opt {
        None => QueryValue::Parsed(None),
        Some(t) => {
            match stem(path.as_str()) {
                None => QueryValue::Parsed(None),
                Some(name) => {
                    if check_select(t.as_str()) {
                        QueryValue::Parsed(Some(Model { name, path: clone_string(path) }))
                    } else {
                        QueryValue::Parsed(None)
                    }
                },
            }
        },
    };
    proof {
        assert(value@ == QueryValView::Parsed(spec_parse_model(s0, path@)));
        assert forall|s: StoreView| #[trigger] agree_vals(s, deps@) implies spec_eval(
            QueryKeyView::ParseModel(path@),
            s,
        ) == value@ by {
            assert(dep_val(s, deps@[0].key@) == deps@[0].seen@);
            assert(text_of(s, path@) == text_opt.deep_view());
        }
    }
    (value, deps)
}

/// Runs reference extraction, recording what it reads.
fn eval_model_refs(db: &mut Database, path: &String) -> (r: (QueryValue, Vec<DepEdge>))
    requires
        old(db).wf(),
        old(db).store().texts.contains_key(path@),
    ensures
        *final(db) == *old(db),
        r.0@ == spec_eval(QueryKeyView::ModelRefs(path@), old(db).store()),
        agree_vals(old(db).store(), r.1@),
        forall|s: StoreView| #[trigger] agree_vals(s, r.1@) ==> spec_eval(
            QueryKeyView::ModelRefs(path@),
            s,
        ) == r.0@,
        forall|q: int| 0 <= q < r.1@.len() ==> edge_wf(
            r.1@[q],
            QueryKeyView::ModelRefs(path@),
            old(db).store(),
        ),
        forall|q: int| 0 <= q < r.1@.len() ==> r.1@[q].key@ == DepKeyView::Text(path@),
        deps_shape(QueryKeyView::ModelRefs(path@), r.1@),
{
    let text_opt = lookup_text(&db.texts, path);
    let mut deps: Vec<DepEdge> = Vec::new();
    deps.push(
        DepEdge { key: DepKey::Text(clone_string(path)), seen: DepSeen::Text(clone_opt_string(&text_opt)) },
    );
    let ghost s0 = db.store();
    proof {
        assert(text_of(s0, path@) == text_opt.deep_view());
        assert(deps@[0].key@ == DepKeyView::Text(path@));
        assert(deps@[0].seen@ == DepValView::Text(text_opt.deep_view()));
    }
    let value = match &text_opt {
        None => QueryValue::Refs(Vec::new()),
        Some(t) => QueryValue::Refs(scan_refs(t.as_str())),
    };
    proof {
        assert(value@ == QueryValView::Refs(spec_model_refs(s0, path@)));
        assert forall|s: StoreView| #[trigger] agree_vals(s, deps@) implies spec_eval(
            QueryKeyView::ModelRefs(path@),
            s,
        ) == value@ by {
            assert(dep_val(s, deps@[0].key@) == deps@[0].seen@);
            assert(text_of(s, path@) == text_opt.deep_view());
        }
    }
    (value, deps)
}

/// Runs the registry query: the file set, then every file's parse, each read
/// through the engine and recorded.
fn eval_all_models(db: &mut Database) -> (r: (QueryValue, Vec<DepEdge>))
    requires
        old(db).wf(),
        files_written(old(db).store()),
    ensures
        final(db).wf(),
        final(db).rev == old(db).rev,
        final(db).hist == old(db).hist,
        final(db).texts == old(db).texts,
        final(db).files == old(db).files,
        final(db).files_changed_at == old(db).files_changed_at,
        r.0@ == spec_eval(QueryKeyView::AllModels, old(db).store()),
        agree_vals(old(db).store(), r.1@),
        forall|s: StoreView| #[trigger] agree_vals(s, r.1@) ==> spec_eval(
            QueryKeyView::AllModels,
            s,
        ) == r.0@,
        forall|q: int| 0 <= q < r.1@.len() ==> edge_wf(
            r.1@[q],
            QueryKeyView::AllModels,
            old(db).store(),
        ),
        deps_shape(QueryKeyView::AllModels, r.1@),
        forall|k2: QueryKeyView|
            rank(k2) >= rank(QueryKeyView::AllModels) ==> memo_of(final(db).memos@, k2) == memo_of(
                old(db).memos@,
                k2,
            ),
        forall|k2: QueryKeyView| count_of(old(db).memos@, k2) <= count_of(final(db).memos@, k2),
        forall|k2: QueryKeyView|
            old(db).memo_valid(k2) ==> final(db).memo_valid(k2) && count_of(final(db).memos@, k2)
                == count_of(old(db).memos@, k2),
        final(db).memos@.len() >= old(db).memos@.len(),
        forall|j: int|
            0 <= j < old(db).memos@.len() ==> final(db).memos@[j].key == old(db).memos@[j].key,
    decreases 2int, 0int,
{
    let ghost s0 = old(db).store();
    let files = clone_vec_string(&db.files);
    let mut deps: Vec<DepEdge> = Vec::new();
    deps.push(DepEdge { key: DepKey::Files, seen: DepSeen::Files(clone_vec_string(&files)) });
    let mut acc: Vec<Model> = Vec::new();
    let n = files.len();
    proof {
        assert(files.deep_view() == s0.files);
        assert(deps@[0].key@ == DepKeyView::Files);
        assert(deps@[0].seen@ == DepValView::Files(s0.files));
        assert(s0.files.subrange(0, 0) =~= Seq::<Seq<char>>::empty());
        assert(acc.deep_view() =~= Seq::<crate::data::ModelView>::empty());
        assert(crate::queries::registry_of(s0, s0.files.subrange(0, 0)).len() == 0);
    }
    let mut i: usize = 0;
    while i < n
        invariant
            db.wf(),
            db.rev == old(db).rev,
            db.hist == old(db).hist,
            db.texts == old(db).texts,
            db.files == old(db).files,
            db.files_changed_at == old(db).files_changed_at,
            s0 == db.store(),
            files_written(s0),
            files.deep_view() == s0.files,
            n == files.len(),
            i <= n,
            acc.deep_view() == crate::queries::registry_of(s0, s0.files.subrange(0, i as int)),
            agree_vals(s0, deps@),
            forall|s: StoreView| #[trigger] agree_vals(s, deps@) ==> s.files == s0.files
                && crate::queries::registry_of(s, s0.files.subrange(0, i as int))
                == acc.deep_view(),
            forall|q: int| 0 <= q < deps@.len() ==> edge_wf(deps@[q], QueryKeyView::AllModels, s0),
            deps_shape(QueryKeyView::AllModels, deps@),
            forall|k2: QueryKeyView|
                rank(k2) >= 2 ==> memo_of(db.memos@, k2) == memo_of(old(db).memos@, k2),
            forall|k2: QueryKeyView| count_of(old(db).memos@, k2) <= count_of(db.memos@, k2),
            forall|k2: QueryKeyView|
                old(db).memo_valid(k2) ==> db.memo_valid(k2) && count_of(db.memos@, k2)
                    == count_of(old(db).memos@, k2),
            db.memos@.len() >= old(db).memos@.len(),
            forall|j: int|
                0 <= j < old(db).memos@.len() ==> db.memos@[j].key == old(db).memos@[j].key,
        decreases n - i,
    {
        let ghost prefix = s0.files.subrange(0, i as int);
        let ghost prefix2 = s0.files.subrange(0, i + 1);
        let p = &files[i];
        proof {
            assert(s0.files[i as int] == p@);
            lemma_registry_mem(s0, prefix);
            lemma_registry_step(s0, s0.files, i as int);
        }
        if models_contain_path(&acc, p) {
            proof {
                assert(prefix.contains(p@));
                assert forall|s: StoreView| #[trigger] agree_vals(s, deps@) implies s.files
                    == s0.files && crate::queries::registry_of(s, prefix2) == acc.deep_view() by {
                    lemma_registry_step(s, s0.files, i as int);
                }
            }
        } else {
            let key = QueryKey::ParseModel(clone_string(p));
            proof {
                assert(s0.files.contains(p@)) by {
                    assert(s0.files[i as int] == p@);
                }
                assert(key_written(key@, db.store()));
            }
            let v = fetch(db, &key);
            let ghost old_deps = deps@;
            deps.push(DepEdge { key: DepKey::Query(clone_key(&key)), seen: DepSeen::Val(clone_value(&v)) });
            proof {
                assert(deps@ == old_deps.push(deps@[deps@.len() - 1]));
                assert(deps@[deps@.len() - 1].key@ == DepKeyView::Query(QueryKeyView::ParseModel(p@)));
                assert(deps@[deps@.len() - 1].seen@ == DepValView::Val(v@));
                assert(forall|q: int| 0 <= q < old_deps.len() ==> deps@[q] == old_deps[q]);
                assert(dep_val(s0, deps@[deps@.len() - 1].key@) == deps@[deps@.len() - 1].seen@);
            }
            match v {
                QueryValue::Parsed(m_opt) => {
                    let ghost old_acc = acc.deep_view();
                    match m_opt {
                        Some(m) => {
                            proof {
                                assert(m_opt.deep_view() == spec_parse_model(s0, p@));
                            }
                            acc.push(m);
                            proof {
                                assert(acc.deep_view() =~= old_acc.push(
                                    spec_parse_model(s0, p@).unwrap(),
                                ));
                            }
                        },
                        None => {},
                    }
                    proof {
                        // the asked path is new: were it in the prefix with a
                        // successful parse, the accumulator would hold it
                        if prefix.contains(p@) && spec_parse_model(s0, p@) is Some {
                            assert(exists|q: int|
                                0 <= q < old_acc.len() && old_acc[q].path == p@);
                            assert(false);
                        }
                        assert(acc.deep_view() == crate::queries::registry_of(s0, prefix2));
                        assert forall|s: StoreView| #[trigger] agree_vals(s, deps@) implies s.files
                            == s0.files && crate::queries::registry_of(s, prefix2)
                            == acc.deep_view() by {
                            assert(agree_vals(s, old_deps));
                            assert(dep_val(s, DepKeyView::Query(QueryKeyView::ParseModel(p@)))
                                == DepValView::Val(v@));
                            assert(spec_parse_model(s, p@) == spec_parse_model(s0, p@));
                            lemma_registry_step(s, s0.files, i as int);
                        }
                    }
                },
                _ => {
                    proof {
                        assert(false);
                    }
                },
            }
        }
        i += 1;
    }
    proof {
        assert(s0.files.subrange(0, n as int) =~= s0.files);
    }
    let value = QueryValue::Registry(acc);
    proof {
        assert(value@ == QueryValView::Registry(spec_all_models(s0)));
        assert forall|s: StoreView| #[trigger] agree_vals(s, deps@) implies spec_eval(
            QueryKeyView::AllModels,
            s,
        ) == value@ by {
            assert(s.files.subrange(0, n as int) =~= s.files);
        }
    }
    (value, deps)
}

/// Runs reference resolution: one read of the registry, recorded.
fn eval_resolve_ref(db: &mut Database, name: &String) -> (r: (QueryValue, Vec<DepEdge>))
    requires
        old(db).wf(),
        files_written(old(db).store()),
    ensures
        final(db).wf(),
        final(db).rev == old(db).rev,
        final(db).hist == old(db).hist,
        final(db).texts == old(db).texts,
        final(db).files == old(db).files,
        final(db).files_changed_at == old(db).files_changed_at,
        r.0@ == spec_eval(QueryKeyView::ResolveRef(name@), old(db).store()),
        agree_vals(old(db).store(), r.1@),
        forall|s: StoreView| #[trigger] agree_vals(s, r.1@) ==> spec_eval(
            QueryKeyView::ResolveRef(name@),
            s,
        ) == r.0@,
        forall|q: int| 0 <= q < r.1@.len() ==> edge_wf(
            r.1@[q],
            QueryKeyView::ResolveRef(name@),
            old(db).store(),
        ),
        deps_shape(QueryKeyView::ResolveRef(name@), r.1@),
        forall|k2: QueryKeyView|
            rank(k2) >= rank(QueryKeyView::ResolveRef(name@)) ==> memo_of(final(db).memos@, k2)
                == memo_of(old(db).memos@, k2),
        forall|k2: QueryKeyView| count_of(old(db).memos@, k2) <= count_of(final(db).memos@, k2),
        forall|k2: QueryKeyView|
            old(db).memo_valid(k2) ==> final(db).memo_valid(k2) && count_of(final(db).memos@, k2)
                == count_of(old(db).memos@, k2),
        final(db).memos@.len() >= old(db).memos@.len(),
        forall|j: int|
            0 <= j < old(db).memos@.len() ==> final(db).memos@[j].key == old(db).memos@[j].key,
    decreases 3int, 0int,
{
    let ghost s0 = old(db).store();
    let key = QueryKey::AllModels;
    let v = fetch(db, &key);
    let mut deps: Vec<DepEdge> = Vec::new();
    deps.push(DepEdge { key: DepKey::Query(QueryKey::AllModels), seen: DepSeen::Val(clone_value(&v)) });
    proof {
        assert(deps@[0].key@ == DepKeyView::Query(QueryKeyView::AllModels));
        assert(deps@[0].seen@ == DepValView::Val(v@));
    }
    match v {
        QueryValue::Registry(models) => {
            let res = find_name(&models, name);
            let value = QueryValue::Resolved(res);
            proof {
                assert(models.deep_view() == spec_all_models(s0));
                assert(value@ == QueryValView::Resolved(spec_resolve_ref(s0, name@)));
                assert forall|s: StoreView| #[trigger] agree_vals(s, deps@) implies spec_eval(
                    QueryKeyView::ResolveRef(name@),
                    s,
                ) == value@ by {
                    assert(dep_val(s, deps@[0].key@) == deps@[0].seen@);
                    assert(spec_all_models(s) == models.deep_view());
                }
            }
            (value, deps)
        },
        _ => {
            proof {
                assert(false);
            }
            (QueryValue::Resolved(None), deps)
        },
    }
}

/// Runs diagnostics: the file's parse, then — for a model — its references
/// and each reference's resolution, all read through the engine and
/// recorded.
fn eval_file_diagnostics(db: &mut Database, path: &String) -> (r: (QueryValue, Vec<DepEdge>))
    requires
        old(db).wf(),
        old(db).store().texts.contains_key(path@),
        files_written(old(db).store()),
    ensures
        final(db).wf(),
        final(db).rev == old(db).rev,
        final(db).hist == old(db).hist,
        final(db).texts == old(db).texts,
        final(db).files == old(db).files,
        final(db).files_changed_at == old(db).files_changed_at,
        r.0@ == spec_eval(QueryKeyView::FileDiagnostics(path@), old(db).store()),
        agree_vals(old(db).store(), r.1@),
        forall|s: StoreView| #[trigger] agree_vals(s, r.1@) ==> spec_eval(
            QueryKeyView::FileDiagnostics(path@),
            s,
        ) == r.0@,
        forall|q: int| 0 <= q < r.1@.len() ==> edge_wf(
            r.1@[q],
            QueryKeyView::FileDiagnostics(path@),
            old(db).store(),
        ),
        deps_shape(QueryKeyView::FileDiagnostics(path@), r.1@),
        forall|k2: QueryKeyView|
            rank(k2) >= rank(QueryKeyView::FileDiagnostics(path@)) ==> memo_of(
                final(db).memos@,
                k2,
            ) == memo_of(old(db).memos@, k2),
        forall|k2: QueryKeyView| count_of(old(db).memos@, k2) <= count_of(final(db).memos@, k2),
        forall|k2: QueryKeyView|
            old(db).memo_valid(k2) ==> final(db).memo_valid(k2) && count_of(final(db).memos@, k2)
                == count_of(old(db).memos@, k2),
        final(db).memos@.len() >= old(db).memos@.len(),
        forall|j: int|
            0 <= j < old(db).memos@.len() ==> final(db).memos@[j].key == old(db).memos@[j].key,
    decreases 4int, 0int,
{
    let ghost s0 = old(db).store();
    let kp = QueryKey::ParseModel(clone_string(path));
    let vp = fetch(db, &kp);
    let mut deps: Vec<DepEdge> = Vec::new();
    deps.push(DepEdge { key: DepKey::Query(clone_key(&kp)), seen: DepSeen::Val(clone_value(&vp)) });
    proof {
        assert(deps@[0].key@ == DepKeyView::Query(QueryKeyView::ParseModel(path@)));
        assert(deps@[0].seen@ == DepValView::Val(vp@));
    }
    let is_model = match &vp {
        QueryValue::Parsed(m_opt) => m_opt.is_some(),
        _ => {
            proof {
                assert(false);
            }
            false
        },
    };
    if !is_model {
        let value = if check_models_dir(path.as_str()) {
            let mut ds: Vec<Diagnostic> = Vec::new();
            ds.push(make_warning_diag());
            proof {
                assert(ds.deep_view() =~= seq![crate::queries::warning_diag()]);
            }
            QueryValue::Diags(ds)
        } else {
            let ds: Vec<Diagnostic> = Vec::new();
            proof {
                assert(ds.deep_view() =~= Seq::<crate::data::DiagnosticView>::empty());
            }
            QueryValue::Diags(ds)
        };
        proof {
            assert(spec_parse_model(s0, path@) is None);
            assert(value@ == QueryValView::Diags(spec_file_diagnostics(s0, path@)));
            assert forall|s: StoreView| #[trigger] agree_vals(s, deps@) implies spec_eval(
                QueryKeyView::FileDiagnostics(path@),
                s,
            ) == value@ by {
                assert(dep_val(s, deps@[0].key@) == deps@[0].seen@);
                assert(spec_parse_model(s, path@) == spec_parse_model(s0, path@));
            }
        }
        return (value, deps);
    }
    let kr = QueryKey::ModelRefs(clone_string(path));
    let vr = fetch(db, &kr);
    let ghost deps1 = deps@;
    deps.push(DepEdge { key: DepKey::Query(clone_key(&kr)), seen: DepSeen::Val(clone_value(&vr)) });
    proof {
        assert(forall|q: int| 0 <= q < deps1.len() ==> deps@[q] == deps1[q]);
        assert(deps@[1].key@ == DepKeyView::Query(QueryKeyView::ModelRefs(path@)));
        assert(deps@[1].seen@ == DepValView::Val(vr@));
    }
    let names = match vr {
        QueryValue::Refs(names) => names,
        _ => {
            proof {
                assert(false);
            }
            Vec::new()
        },
    };
    let ghost nsq = names.deep_view();
    proof {
        assert(nsq == spec_model_refs(s0, path@));
    }
    let mut out: Vec<Diagnostic> = Vec::new();
    let n = names.len();
    proof {
        assert(nsq.subrange(0, nsq.len() as int) =~= nsq);
        assert(out.deep_view() =~= Seq::<crate::data::DiagnosticView>::empty());
    }
    let mut j: usize = 0;
    while j < n
        invariant
            db.wf(),
            db.rev == old(db).rev,
            db.hist == old(db).hist,
            db.texts == old(db).texts,
            db.files == old(db).files,
            db.files_changed_at == old(db).files_changed_at,
            s0 == db.store(),
            files_written(s0),
            s0.texts.contains_key(path@),
            n == names.len(),
            nsq == names.deep_view(),
            j <= n,
            agree_vals(s0, deps@),
            undef_diags(s0, nsq) == out.deep_view() + undef_diags(
                s0,
                nsq.subrange(j as int, nsq.len() as int),
            ),
            forall|s: StoreView| #[trigger] agree_vals(s, deps@) ==> spec_parse_model(s, path@)
                is Some && spec_model_refs(s, path@) == nsq && undef_diags(s, nsq)
                == out.deep_view() + undef_diags(s, nsq.subrange(j as int, nsq.len() as int)),
            forall|q: int| 0 <= q < deps@.len() ==> edge_wf(
                deps@[q],
                QueryKeyView::FileDiagnostics(path@),
                s0,
            ),
            deps_shape(QueryKeyView::FileDiagnostics(path@), deps@),
            forall|k2: QueryKeyView|
                rank(k2) >= 4 ==> memo_of(db.memos@, k2) == memo_of(old(db).memos@, k2),
            forall|k2: QueryKeyView| count_of(old(db).memos@, k2) <= count_of(db.memos@, k2),
            forall|k2: QueryKeyView|
                old(db).memo_valid(k2) ==> db.memo_valid(k2) && count_of(db.memos@, k2)
                    == count_of(old(db).memos@, k2),
            db.memos@.len() >= old(db).memos@.len(),
            forall|jj: int|
                0 <= jj < old(db).memos@.len() ==> db.memos@[jj].key == old(db).memos@[jj].key,
        decreases n - j,
    {
        let name = &names[j];
        let kx = QueryKey::ResolveRef(clone_string(name));
        let vx = fetch(db, &kx);
        let ghost deps_before = deps@;
        deps.push(DepEdge { key: DepKey::Query(clone_key(&kx)), seen: DepSeen::Val(clone_value(&vx)) });
        proof {
            assert(forall|q: int| 0 <= q < deps_before.len() ==> deps@[q] == deps_before[q]);
            assert(deps@[deps@.len() - 1].key@ == DepKeyView::Query(
                QueryKeyView::ResolveRef(name@),
            ));
            assert(deps@[deps@.len() - 1].seen@ == DepValView::Val(vx@));
            assert(nsq[j as int] == name@);
            lemma_undef_diags_step(s0, nsq, j as int);
        }
        let missing = match &vx {
            QueryValue::Resolved(o) => o.is_none(),
            _ => {
                proof {
                    assert(false);
                }
                false
            },
        };
        let ghost out_before = out.deep_view();
        if missing {
            out.push(make_undef_diag(name));
            proof {
                assert(out.deep_view() =~= out_before.push(
                    crate::queries::undefined_ref_diag(name@),
                ));
                assert(out.deep_view() =~= out_before + seq![
                    crate::queries::undefined_ref_diag(name@),
                ]);
            }
        }
        proof {
            assert forall|s: StoreView| #[trigger] agree_vals(s, deps@) implies spec_parse_model(
                s,
                path@,
            ) is Some && spec_model_refs(s, path@) == nsq && undef_diags(s, nsq)
                == out.deep_view() + undef_diags(s, nsq.subrange(j + 1, nsq.len() as int)) by {
                assert(agree_vals(s, deps_before));
                assert(dep_val(s, DepKeyView::Query(QueryKeyView::ResolveRef(name@)))
                    == DepValView::Val(vx@));
                assert(spec_resolve_ref(s, name@) == spec_resolve_ref(s0, name@));
                lemma_undef_diags_step(s, nsq, j as int);
            }
        }
        j += 1;
    }
    proof {
        assert(nsq.subrange(n as int, nsq.len() as int).len() == 0);
        assert(undef_diags(s0, nsq.subrange(n as int, nsq.len() as int)) =~= Seq::<
            crate::data::DiagnosticView,
        >::empty());
    }
    let value = QueryValue::Diags(out);
    proof {
        assert(value@ == QueryValView::Diags(spec_file_diagnostics(s0, path@)));
        assert forall|s: StoreView| #[trigger] agree_vals(s, deps@) implies spec_eval(
            QueryKeyView::FileDiagnostics(path@),
            s,
        ) == value@ by {
            assert(undef_diags(s, nsq.subrange(n as int, nsq.len() as int)).len() == 0);
        }
    }
    (value, deps)
}

/// Runs the query function behind `k`, recording what it reads.
fn eval_query(db: &mut Database, k: &QueryKey) -> (r: (QueryValue, Vec<DepEdge>))
    requires
        old(db).wf(),
        key_written(k@, old(db).store()),
    ensures
        final(db).wf(),
        final(db).rev == old(db).rev,
        final(db).hist == old(db).hist,
        final(db).texts == old(db).texts,
        final(db).files == old(db).files,
        final(db).files_changed_at == old(db).files_changed_at,
        r.0@ == spec_eval(k@, old(db).store()),
        agree_vals(old(db).store(), r.1@),
        forall|s: StoreView| #[trigger] agree_vals(s, r.1@) ==> spec_eval(k@, s) == r.0@,
        forall|q: int| 0 <= q < r.1@.len() ==> edge_wf(r.1@[q], k@, old(db).store()),
        deps_shape(k@, r.1@),
        forall|k2: QueryKeyView|
            rank(k2) >= rank(k@) ==> memo_of(final(db).memos@, k2) == memo_of(old(db).memos@, k2),
        forall|k2: QueryKeyView| count_of(old(db).memos@, k2) <= count_of(final(db).memos@, k2),
        forall|k2: QueryKeyView|
            old(db).memo_valid(k2) ==> final(db).memo_valid(k2) && count_of(final(db).memos@, k2)
                == count_of(old(db).memos@, k2),
        final(db).memos@.len() >= old(db).memos@.len(),
        forall|j: int|
            0 <= j < old(db).memos@.len() ==> final(db).memos@[j].key == old(db).memos@[j].key,
    decreases rank(k@), 1int,
{
    match k {
        QueryKey::ParseModel(p) => eval_parse_model(db, p),
        QueryKey::ModelRefs(p) => eval_model_refs(db, p),
        QueryKey::AllModels => eval_all_models(db),
        QueryKey::ResolveRef(n) => eval_resolve_ref(db, n),
        QueryKey::FileDiagnostics(p) => eval_file_diagnostics(db, p),
    }
}

/// Reads the query behind `k`: serves a cached entry verified at the current
/// revision untouched; otherwise revalidates the entry dependency by
/// dependency, reusing it when every recorded value is unchanged (early
/// cutoff), and only otherwise reruns the query function.
#[verifier::rlimit(100)]
pub(crate) fn fetch(db: &mut Database, k: &QueryKey) -> (v: QueryValue)
    requires
        old(db).wf(),
        key_written(k@, old(db).store()),
    ensures
        final(db).wf(),
        final(db).rev == old(db).rev,
        final(db).hist == old(db).hist,
        final(db).texts == old(db).texts,
        final(db).files == old(db).files,
        final(db).files_changed_at == old(db).files_changed_at,
        v@ == spec_eval(k@, final(db).store()),
        final(db).memo_fresh(k@),
        final(db).memo_valid(k@),
        old(db).memo_fresh(k@) ==> *final(db) == *old(db),
        old(db).memo_valid(k@) ==> count_of(final(db).memos@, k@) == count_of(old(db).memos@, k@),
        count_of(final(db).memos@, k@) <= count_of(old(db).memos@, k@) + 1,
        forall|k2: QueryKeyView|
            old(db).memo_valid(k2) ==> final(db).memo_valid(k2) && count_of(final(db).memos@, k2)
                == count_of(old(db).memos@, k2),
        forall|k2: QueryKeyView| count_of(old(db).memos@, k2) <= count_of(final(db).memos@, k2),
        forall|k2: QueryKeyView|
            rank(k2) > rank(k@) ==> memo_of(final(db).memos@, k2) == memo_of(old(db).memos@, k2),
        final(db).memos@.len() >= old(db).memos@.len(),
        forall|j: int|
            0 <= j < old(db).memos@.len() ==> final(db).memos@[j].key == old(db).memos@[j].key,
    decreases rank(k@), 2int,
{
    let ghost s_now = old(db).store();
    let i_opt = find_memo(&db.memos, k);
    match i_opt {
        Some(i) => {
            proof {
                lemma_memo_of_first(db.memos@, k@, i as int);
            }
            if db.memos[i].verified_at == db.rev {
                let out = clone_value(&db.memos[i].value);
                proof {
                    let e = db.memos@[i as int];
                    assert(memo_wf(e, db.rev, db.hist@));
                    assert(agree_vals(db.hist@[e.verified_at as int], e.deps@));
                    assert(db.hist@[e.verified_at as int] == s_now);
                    assert(spec_eval(k@, s_now) == e.value@);
                    assert(db.memo_valid(k@));
                }
                return out;
            }
            let ghost old_memos = db.memos@;
            let mut entry = db.memos.remove(i);
            let ghost base = db.memos@;
            proof {
                assert(base =~= old_memos.remove(i as int));
                assert(forall|j: int| 0 <= j < i ==> base[j] == old_memos[j]);
                assert(forall|j: int|
                    i <= j < base.len() ==> base[j] == old_memos[j + 1]);
                assert forall|a: int, b: int| 0 <= a < b < base.len() implies base[a].key@
                    != base[b].key@ by {
                    if b < i {
                    } else if a < i {
                        assert(base[a] == old_memos[a] && base[b] == old_memos[b + 1]);
                    } else {
                        assert(base[a] == old_memos[a + 1] && base[b] == old_memos[b + 1]);
                    }
                }
                assert forall|j: int| 0 <= j < base.len() implies memo_wf(
                    base[j],
                    db.rev,
                    db.hist@,
                ) by {
                    if j < i {
                        assert(base[j] == old_memos[j]);
                    } else {
                        assert(base[j] == old_memos[j + 1]);
                    }
                }
                assert forall|j: int| 0 <= j < base.len() implies base[j].key@ != k@ by {
                    if j < i {
                        assert(base[j] == old_memos[j]);
                    } else {
                        assert(base[j] == old_memos[j + 1]);
                    }
                }
                lemma_memo_of_none(base, k@);
                assert forall|k2: QueryKeyView| k2 != k@ implies memo_of(base, k2) == memo_of(
                    old_memos,
                    k2,
                ) by {
                    lemma_memo_of_remove_other(old_memos, i as int, k2);
                }
                assert(memo_wf(entry, db.rev, db.hist@));
                assert(entry.verified_at < db.rev);
            }
            let n = entry.deps.len();
            let mut j: usize = 0;
            let mut ok = true;
            while j < n
                invariant
                    db.wf(),
                    db.rev == old(db).rev,
                    db.hist == old(db).hist,
                    db.texts == old(db).texts,
                    db.files == old(db).files,
                    db.files_changed_at == old(db).files_changed_at,
                    s_now == db.store(),
                    key_written(k@, s_now),
                    n == entry.deps.len(),
                    j <= n,
                    entry == old(db).memos@[i as int],
                    memo_wf(entry, db.rev, db.hist@),
                    entry.key@ == k@,
                    entry.verified_at < db.rev,
                    ok ==> forall|q: int|
                        0 <= q < j ==> dep_val(s_now, entry.deps@[q].key@) == entry.deps@[q].seen@,
                    agree_vals(s_now, entry.deps@) ==> ok,
                    memo_of(db.memos@, k@) is None,
                    forall|k2: QueryKeyView|
                        rank(k2) > rank(k@) ==> memo_of(db.memos@, k2) == memo_of(
                            old(db).memos@,
                            k2,
                        ),
                    forall|k2: QueryKeyView|
                        k2 != k@ ==> count_of(old(db).memos@, k2) <= count_of(db.memos@, k2),
                    forall|k2: QueryKeyView|
                        k2 != k@ && old(db).memo_valid(k2) ==> db.memo_valid(k2) && count_of(
                            db.memos@,
                            k2,
                        ) == count_of(old(db).memos@, k2),
                    db.memos@.len() >= old(db).memos@.len() - 1,
                    forall|jj: int|
                        0 <= jj < old(db).memos@.len() - 1 ==> db.memos@[jj].key
                            == old(db).memos@.remove(i as int)[jj].key,
                decreases n - j,
            {
                if ok {
                    let edge_hit: bool;
                    match &entry.deps[j].key {
                        DepKey::Text(p) => {
                            let cur = lookup_text(&db.texts, p);
                            edge_hit = match &entry.deps[j].seen {
                                DepSeen::Text(o) => opt_string_eq(&cur, o),
                                _ => false,
                            };
                            proof {
                                if edge_hit {
                                    assert(dep_val(s_now, entry.deps@[j as int].key@)
                                        == entry.deps@[j as int].seen@);
                                }
                                if agree_vals(s_now, entry.deps@) {
                                    assert(dep_val(s_now, entry.deps@[j as int].key@)
                                        == entry.deps@[j as int].seen@);
                                    assert(edge_hit);
                                }
                            }
                        },
                        DepKey::Files => {
                            edge_hit = match &entry.deps[j].seen {
                                DepSeen::Files(fs) => vec_string_eq(&db.files, fs),
                                _ => false,
                            };
                            proof {
                                if edge_hit {
                                    assert(dep_val(s_now, entry.deps@[j as int].key@)
                                        == entry.deps@[j as int].seen@);
                                }
                                if agree_vals(s_now, entry.deps@) {
                                    assert(dep_val(s_now, entry.deps@[j as int].key@)
                                        == entry.deps@[j as int].seen@);
                                    assert(edge_hit);
                                }
                            }
                        },
                        DepKey::Query(k2) => {
                            proof {
                                assert(edge_wf(
                                    entry.deps@[j as int],
                                    k@,
                                    db.hist@[entry.verified_at as int],
                                ));
                                assert(rank(k2@) < rank(k@));
                                assert(key_written(k2@, s_now)) by {
                                    match text_arg(k2@) {
                                        Some(pp) => {
                                            assert(db.hist@[entry.verified_at as int]
                                                .texts.dom().subset_of(
                                                db.hist@[db.rev as int].texts.dom(),
                                            ));
                                        },
                                        None => {},
                                    }
                                }
                            }
                            let v2 = fetch(db, k2);
                            edge_hit = match &entry.deps[j].seen {
                                DepSeen::Val(q) => value_eq(&v2, q),
                                _ => false,
                            };
                            proof {
                                if edge_hit {
                                    assert(v2@ == spec_eval(k2@, s_now));
                                    assert(dep_val(s_now, entry.deps@[j as int].key@)
                                        == entry.deps@[j as int].seen@);
                                }
                                if agree_vals(s_now, entry.deps@) {
                                    assert(dep_val(s_now, entry.deps@[j as int].key@)
                                        == entry.deps@[j as int].seen@);
                                    assert(edge_hit);
                                }
                            }
                        },
                    }
                    if !edge_hit {
                        ok = false;
                    }
                }
                j += 1;
            }
            if ok {
                entry.verified_at = db.rev;
                let out = clone_value(&entry.value);
                proof {
                    assert(agree_vals(s_now, entry.deps@));
                    assert(spec_eval(k@, s_now) == entry.value@);
                    assert(memo_wf(entry, db.rev, db.hist@)) by {
                        assert(db.hist@[db.rev as int] == s_now);
                        assert forall|q: int| 0 <= q < entry.deps@.len() implies edge_wf(
                            entry.deps@[q],
                            entry.key@,
                            db.hist@[entry.verified_at as int],
                        ) by {
                            let e0 = old(db).memos@[i as int];
                            assert(edge_wf(
                                e0.deps@[q],
                                e0.key@,
                                db.hist@[e0.verified_at as int],
                            ));
                            match entry.deps@[q].key@ {
                                DepKeyView::Query(k2) => {
                                    match text_arg(k2) {
                                        Some(pp) => {
                                            assert(db.hist@[e0.verified_at as int]
                                                .texts.dom().subset_of(
                                                db.hist@[db.rev as int].texts.dom(),
                                            ));
                                        },
                                        None => {},
                                    }
                                },
                                _ => {},
                            }
                        }
                    }
                }
                let ghost m2 = db.memos@;
                proof {
                    assert(i as int <= m2.len());
                    assert(memo_of(m2, k@) is None);
                    lemma_memo_of_char(m2, k@);
                }
                db.memos.insert(i, entry);
                proof {
                    finish_insert(db, old(db), k@, i as int, m2, entry);
                    assert(db.memo_valid(k@));
                }
                return out;
            } else {
                proof {
                    assert(entry.count <= entry.verified_at + 1);
                    assert(entry.count < u64::MAX);
                }
                let (value, deps) = eval_query(db, k);
                let out = clone_value(&value);
                let new_entry = MemoEntry {
                    key: entry.key,
                    value,
                    verified_at: db.rev,
                    deps,
                    count: entry.count + 1,
                };
                proof {
                    assert(new_entry.key@ == k@);
                    assert(memo_wf(new_entry, db.rev, db.hist@)) by {
                        assert(db.hist@[db.rev as int] == s_now);
                        assert(new_entry.count <= new_entry.verified_at + 1);
                    }
                }
                let ghost m2 = db.memos@;
                proof {
                    assert(i as int <= m2.len());
                    assert(memo_of(m2, k@) is None);
                    lemma_memo_of_char(m2, k@);
                }
                db.memos.insert(i, new_entry);
                proof {
                    finish_insert(db, old(db), k@, i as int, m2, new_entry);
                    assert(new_entry.count == count_of(old(db).memos@, k@) + 1);
                    assert(!agree_vals(s_now, entry.deps@));
                    assert(!old(db).memo_valid(k@));
                    assert(db.memo_valid(k@));
                }
                return out;
            }
        },
        None => {
            proof {
                lemma_memo_of_none(db.memos@, k@);
            }
            let (value, deps) = eval_query(db, k);
            let out = clone_value(&value);
            let new_entry = MemoEntry {
                key: clone_key(k),
                value,
                verified_at: db.rev,
                deps,
                count: 1,
            };
            proof {
                assert(memo_wf(new_entry, db.rev, db.hist@)) by {
                    assert(db.hist@[db.rev as int] == s_now);
                }
            }
            let ghost m2 = db.memos@;
            proof {
                assert(memo_of(m2, k@) is None);
                lemma_memo_of_char(m2, k@);
            }
            db.memos.push(new_entry);
            proof {
                assert(db.memos@ =~= m2.insert(m2.len() as int, new_entry));
                finish_push(db, old(db), k@, m2, new_entry);
                assert(db.memo_valid(k@));
            }
            out
        },
    }
}

/// After putting the entry for `k` back at its index, the database is
/// well-formed again and the cache looks as the callers expect.
#[verifier::rlimit(100)]
proof fn finish_insert(
    db: &Database,
    db0: &Database,
    k: QueryKeyView,
    i: int,
    m2: Seq<MemoEntry>,
    e: MemoEntry,
)
    requires
        db.memos@ == m2.insert(i, e),
        0 <= i <= m2.len(),
        e.key@ == k,
        memo_wf(e, db.rev, db.hist@),
        db.hist@ == db0.hist@,
        db.rev == db0.rev,
        db.texts == db0.texts,
        db.files == db0.files,
        db.files_changed_at == db0.files_changed_at,
        db0.wf(),
        db.rev < u64::MAX,
        db.hist@.len() == db.rev + 1,
        crate::engine::cells_unique(db.texts@),
        crate::engine::cells_map(db.texts@) == db.hist@[db.rev as int].texts,
        db.files.deep_view() == db.hist@[db.rev as int].files,
        db.files_changed_at <= db.rev,
        forall|j: int| 0 <= j < m2.len() ==> memo_wf(#[trigger] m2[j], db.rev, db.hist@),
        forall|a: int, b: int| 0 <= a < b < m2.len() ==> m2[a].key@ != m2[b].key@,
        forall|j: int| 0 <= j < m2.len() ==> m2[j].key@ != k,
        memo_of(m2, k) is None,
        forall|k2: QueryKeyView|
            rank(k2) > rank(k) ==> memo_of(m2, k2) == memo_of(db0.memos@, k2),
        forall|k2: QueryKeyView| k2 != k ==> count_of(db0.memos@, k2) <= count_of(m2, k2),
        m2.len() >= db0.memos@.len() - 1,
        0 <= i < db0.memos@.len(),
        db0.memos@[i].key@ == k,
        e.key == db0.memos@[i].key,
        forall|jj: int|
            0 <= jj < db0.memos@.len() - 1 ==> m2[jj].key == db0.memos@.remove(i)[jj].key,
    ensures
        db.wf(),
        final_shape(db, db0, k, e),
        forall|k2: QueryKeyView| k2 != k ==> memo_of(db.memos@, k2) == memo_of(m2, k2),
{
    let m3 = db.memos@;
    assert(forall|j: int| 0 <= j < i ==> m3[j] == m2[j]);
    assert(m3[i] == e);
    assert(forall|j: int| i < j < m3.len() ==> m3[j] == m2[j - 1]);
    assert forall|a: int, b: int| 0 <= a < b < m3.len() implies m3[a].key@ != m3[b].key@ by {
        if a == i {
            assert(m3[b] == m2[b - 1]);
        } else if b == i {
            assert(m3[a] == m2[a]);
        } else {
            let a2: int = if a < i { a } else { a - 1 };
            let b2: int = if b < i { b } else { b - 1 };
            assert(m3[a] == m2[a2] && m3[b] == m2[b2]);
        }
    }
    assert forall|j: int| 0 <= j < m3.len() implies memo_wf(m3[j], db.rev, db.hist@) by {
        if j < i {
            assert(m3[j] == m2[j]);
        } else if j > i {
            assert(m3[j] == m2[j - 1]);
        }
    }
    assert(db.wf());
    assert(forall|j: int| 0 <= j < i ==> m3[j].key@ != k);
    lemma_memo_of_first(m3, k, i);
    assert(memo_of(m3, k) == Some(e));
    assert forall|k2: QueryKeyView| k2 != k implies memo_of(m3, k2) == memo_of(m2, k2) by {
        lemma_memo_of_insert_other(m2, i, e, k2);
    }
    assert forall|k2: QueryKeyView| k2 != k implies #[trigger] count_of(m3, k2) >= count_of(
        db0.memos@,
        k2,
    ) by {
        lemma_memo_of_insert_other(m2, i, e, k2);
        assert(count_of(db0.memos@, k2) <= count_of(m2, k2));
        assert(count_of(m3, k2) == count_of(m2, k2));
    }
    assert forall|k2: QueryKeyView| rank(k2) > rank(k) implies memo_of(m3, k2) == memo_of(
        db0.memos@,
        k2,
    ) by {
        lemma_memo_of_insert_other(m2, i, e, k2);
    }
    assert forall|jj: int| 0 <= jj < db0.memos@.len() implies m3[jj].key == db0.memos@[jj].key by {
        if jj < i {
            assert(m3[jj] == m2[jj]);
            assert(m2[jj].key == db0.memos@.remove(i)[jj].key);
            assert(db0.memos@.remove(i)[jj] == db0.memos@[jj]);
        } else if jj == i {
        } else {
            assert(m3[jj] == m2[jj - 1]);
            assert(m2[jj - 1].key == db0.memos@.remove(i)[jj - 1].key);
            assert(db0.memos@.remove(i)[jj - 1] == db0.memos@[jj]);
        }
    }
}

/// What both store paths of `fetch` leave behind, phrased against the state
/// before the call.
pub(crate) open spec fn final_shape(db: &Database, db0: &Database, k: QueryKeyView, e: MemoEntry) -> bool {
    &&& memo_of(db.memos@, k) == Some(e)
    &&& (forall|k2: QueryKeyView| k2 != k ==> #[trigger] count_of(db.memos@, k2) >= count_of(
        db0.memos@,
        k2,
    ))
    &&& (forall|k2: QueryKeyView|
        rank(k2) > rank(k) ==> memo_of(db.memos@, k2) == memo_of(db0.memos@, k2))
    &&& db.memos@.len() >= db0.memos@.len()
    &&& (forall|jj: int| 0 <= jj < db0.memos@.len() ==> db.memos@[jj].key == db0.memos@[jj].key)
}

/// After pushing a first entry for `k`, the database is well-formed again
/// and the cache looks as the callers expect.
proof fn finish_push(db: &Database, db0: &Database, k: QueryKeyView, m2: Seq<MemoEntry>, e: MemoEntry)
    requires
        db.memos@ == m2.insert(m2.len() as int, e),
        e.key@ == k,
        memo_wf(e, db.rev, db.hist@),
        db.hist@ == db0.hist@,
        db.rev == db0.rev,
        db.texts == db0.texts,
        db.files == db0.files,
        db.files_changed_at == db0.files_changed_at,
        db0.wf(),
        db.rev < u64::MAX,
        db.hist@.len() == db.rev + 1,
        crate::engine::cells_unique(db.texts@),
        crate::engine::cells_map(db.texts@) == db.hist@[db.rev as int].texts,
        db.files.deep_view() == db.hist@[db.rev as int].files,
        db.files_changed_at <= db.rev,
        forall|j: int| 0 <= j < m2.len() ==> memo_wf(#[trigger] m2[j], db.rev, db.hist@),
        forall|a: int, b: int| 0 <= a < b < m2.len() ==> m2[a].key@ != m2[b].key@,
        forall|j: int| 0 <= j < m2.len() ==> m2[j].key@ != k,
        forall|k2: QueryKeyView|
            rank(k2) > rank(k) ==> memo_of(m2, k2) == memo_of(db0.memos@, k2),
        forall|k2: QueryKeyView| k2 != k ==> count_of(db0.memos@, k2) <= count_of(m2, k2),
        m2.len() >= db0.memos@.len(),
        forall|jj: int| 0 <= jj < db0.memos@.len() ==> m2[jj].key == db0.memos@[jj].key,
    ensures
        db.wf(),
        final_shape(db, db0, k, e),
        forall|k2: QueryKeyView| k2 != k ==> memo_of(db.memos@, k2) == memo_of(m2, k2),
{
    let m3 = db.memos@;
    let i = m2.len() as int;
    assert(forall|j: int| 0 <= j < i ==> m3[j] == m2[j]);
    assert(m3[i] == e);
    assert forall|a: int, b: int| 0 <= a < b < m3.len() implies m3[a].key@ != m3[b].key@ by {
        if b == i {
            assert(m3[a] == m2[a]);
        }
    }
    assert forall|j: int| 0 <= j < m3.len() implies memo_wf(m3[j], db.rev, db.hist@) by {
        if j < i {
            assert(m3[j] == m2[j]);
        }
    }
    assert(db.wf());
    lemma_memo_of_first(m3, k, i);
    assert forall|k2: QueryKeyView| k2 != k implies memo_of(m3, k2) == memo_of(m2, k2) by {
        lemma_memo_of_insert_other(m2, i, e, k2);
    }
    assert forall|k2: QueryKeyView| k2 != k implies #[trigger] count_of(m3, k2) >= count_of(
        db0.memos@,
        k2,
    ) by {
        lemma_memo_of_insert_other(m2, i, e, k2);
        assert(count_of(db0.memos@, k2) <= count_of(m2, k2));
        assert(count_of(m3, k2) == count_of(m2, k2));
    }
    assert forall|k2: QueryKeyView| rank(k2) > rank(k) implies memo_of(m3, k2) == memo_of(
        db0.memos@,
        k2,
    ) by {
        lemma_memo_of_insert_other(m2, i, e, k2);
    }
}

impl Database {
    /// The model defined by the file at `path`, if its text qualifies.
    ///
    /// For a fixed store the result is a pure function of the inputs; a read
    /// served from a cache entry verified at the current revision leaves the
    /// database untouched, and one call recomputes the query at most once.
    pub fn parse_model(&mut self, path: String) -> (r: Option<Model>)
        requires
            old(self).wf(),
            old(self).store().texts.contains_key(path@),
        ensures
            final(self).wf(),
            final(self).store() == old(self).store(),
            final(self).revision() == old(self).revision(),
            r.deep_view() == spec_parse_model(final(self).store(), path@),
            final(self).memo_fresh(QueryKeyView::ParseModel(path@)),
            final(self).memo_valid(QueryKeyView::ParseModel(path@)),
            old(self).memo_fresh(QueryKeyView::ParseModel(path@)) ==> *final(self) == *old(self),
            old(self).memo_valid(QueryKeyView::ParseModel(path@)) ==> final(self).query_count(
                QueryKeyView::ParseModel(path@),
            ) == old(self).query_count(QueryKeyView::ParseModel(path@)),
            final(self).query_count(QueryKeyView::ParseModel(path@)) <= old(self).query_count(
                QueryKeyView::ParseModel(path@),
            ) + 1,
            forall|k: QueryKeyView| old(self).query_count(k) <= final(self).query_count(k),
            forall|k: QueryKeyView|
                old(self).memo_valid(k) ==> final(self).memo_valid(k) && final(self).query_count(
                    k,
                ) == old(self).query_count(k),
    {
        let key = QueryKey::ParseModel(path);
        let v = fetch(self, &key);
        match v {
            QueryValue::Parsed(m) => m,
            _ => {
                proof {
                    assert(false);
                }
                None
            },
        }
    }

    /// The reference names in the file at `path`, in order, duplicates kept.
    ///
    /// Same caching promises as [`Database::parse_model`].
    pub fn model_refs(&mut self, path: String) -> (r: Vec<String>)
        requires
            old(self).wf(),
            old(self).store().texts.contains_key(path@),
        ensures
            final(self).wf(),
            final(self).store() == old(self).store(),
            final(self).revision() == old(self).revision(),
            r.deep_view() == spec_model_refs(final(self).store(), path@),
            final(self).memo_fresh(QueryKeyView::ModelRefs(path@)),
            final(self).memo_valid(QueryKeyView::ModelRefs(path@)),
            old(self).memo_fresh(QueryKeyView::ModelRefs(path@)) ==> *final(self) == *old(self),
            old(self).memo_valid(QueryKeyView::ModelRefs(path@)) ==> final(self).query_count(
                QueryKeyView::ModelRefs(path@),
            ) == old(self).query_count(QueryKeyView::ModelRefs(path@)),
            final(self).query_count(QueryKeyView::ModelRefs(path@)) <= old(self).query_count(
                QueryKeyView::ModelRefs(path@),
            ) + 1,
            forall|k: QueryKeyView| old(self).query_count(k) <= final(self).query_count(k),
            forall|k: QueryKeyView|
                old(self).memo_valid(k) ==> final(self).memo_valid(k) && final(self).query_count(
                    k,
                ) == old(self).query_count(k),
    {
        let key = QueryKey::ModelRefs(path);
        let v = fetch(self, &key);
        match v {
            QueryValue::Refs(names) => names,
            _ => {
                proof {
                    assert(false);
                }
                Vec::new()
            },
        }
    }

    /// The model registry: one entry per defining path, in file-set order.
    ///
    /// Same caching promises as [`Database::parse_model`].
    pub fn all_models(&mut self) -> (r: Vec<Model>)
        requires
            old(self).wf(),
            files_written(old(self).store()),
        ensures
            final(self).wf(),
            final(self).store() == old(self).store(),
            final(self).revision() == old(self).revision(),
            r.deep_view() == spec_all_models(final(self).store()),
            final(self).memo_fresh(QueryKeyView::AllModels),
            final(self).memo_valid(QueryKeyView::AllModels),
            old(self).memo_fresh(QueryKeyView::AllModels) ==> *final(self) == *old(self),
            old(self).memo_valid(QueryKeyView::AllModels) ==> final(self).query_count(
                QueryKeyView::AllModels,
            ) == old(self).query_count(QueryKeyView::AllModels),
            final(self).query_count(QueryKeyView::AllModels) <= old(self).query_count(
                QueryKeyView::AllModels,
            ) + 1,
            forall|k: QueryKeyView| old(self).query_count(k) <= final(self).query_count(k),
            forall|k: QueryKeyView|
                old(self).memo_valid(k) ==> final(self).memo_valid(k) && final(self).query_count(
                    k,
                ) == old(self).query_count(k),
    {
        let key = QueryKey::AllModels;
        let v = fetch(self, &key);
        match v {
            QueryValue::Registry(models) => models,
            _ => {
                proof {
                    assert(false);
                }
                Vec::new()
            },
        }
    }

    /// The path defining the model named `model_name`, if any; on duplicate
    /// names, the first defining path in file-set order.
    ///
    /// Same caching promises as [`Database::parse_model`].
    pub fn resolve_ref(&mut self, model_name: String) -> (r: Option<String>)
        requires
            old(self).wf(),
            files_written(old(self).store()),
        ensures
            final(self).wf(),
            final(self).store() == old(self).store(),
            final(self).revision() == old(self).revision(),
            r.deep_view() == spec_resolve_ref(final(self).store(), model_name@),
            final(self).memo_fresh(QueryKeyView::ResolveRef(model_name@)),
            final(self).memo_valid(QueryKeyView::ResolveRef(model_name@)),
            old(self).memo_fresh(QueryKeyView::ResolveRef(model_name@)) ==> *final(self) == *old(self),
            old(self).memo_valid(QueryKeyView::ResolveRef(model_name@)) ==> final(self).query_count(QueryKeyView::ResolveRef(model_name@)) == old(self).query_count(
                QueryKeyView::ResolveRef(model_name@),
            ),
            final(self).query_count(QueryKeyView::ResolveRef(model_name@)) <= old(self).query_count(QueryKeyView::ResolveRef(model_name@)) + 1,
            forall|k: QueryKeyView| old(self).query_count(k) <= final(self).query_count(k),
            forall|k: QueryKeyView|
                old(self).memo_valid(k) ==> final(self).memo_valid(k) && final(self).query_count(
                    k,
                ) == old(self).query_count(k),
    {
        let key = QueryKey::ResolveRef(model_name);
        let v = fetch(self, &key);
        match v {
            QueryValue::Resolved(p) => p,
            _ => {
                proof {
                    assert(false);
                }
                None
            },
        }
    }

    /// The diagnostics for the file at `path`: a lone warning when it is no
    /// model but lies under `models/`, otherwise one error per unresolved
    /// reference. Possibly empty, never a failure.
    ///
    /// Same caching promises as [`Database::parse_model`].
    pub fn file_diagnostics(&mut self, path: String) -> (r: Vec<Diagnostic>)
        requires
            old(self).wf(),
            old(self).store().texts.contains_key(path@),
            files_written(old(self).store()),
        ensures
            final(self).wf(),
            final(self).store() == old(self).store(),
            final(self).revision() == old(self).revision(),
            r.deep_view() == spec_file_diagnostics(final(self).store(), path@),
            final(self).memo_fresh(QueryKeyView::FileDiagnostics(path@)),
            final(self).memo_valid(QueryKeyView::FileDiagnostics(path@)),
            old(self).memo_fresh(QueryKeyView::FileDiagnostics(path@)) ==> *final(self) == *old(self),
            old(self).memo_valid(QueryKeyView::FileDiagnostics(path@)) ==> final(self).query_count(QueryKeyView::FileDiagnostics(path@)) == old(self).query_count(
                QueryKeyView::FileDiagnostics(path@),
            ),
            final(self).query_count(QueryKeyView::FileDiagnostics(path@)) <= old(self).query_count(QueryKeyView::FileDiagnostics(path@)) + 1,
            forall|k: QueryKeyView| old(self).query_count(k) <= final(self).query_count(k),
            forall|k: QueryKeyView|
                old(self).memo_valid(k) ==> final(self).memo_valid(k) && final(self).query_count(
                    k,
                ) == old(self).query_count(k),
    {
        let key = QueryKey::FileDiagnostics(path);
        let v = fetch(self, &key);
        match v {
            QueryValue::Diags(ds) => ds,
            _ => {
                proof {
                    assert(false);
                }
                Vec::new()
            },
        }
    }
}

impl Syntax for Database {
    fn parse_model(&mut self, path: String) -> (r: Option<Model>) {
        self.parse_model(path)
    }

    fn model_refs(&mut self, path: String) -> (r: Vec<String>) {
        self.model_refs(path)
    }

    fn all_models(&mut self) -> (r: Vec<Model>) {
        self.all_models()
    }
}

impl Semantic for Database {
    fn resolve_ref(&mut self, model_name: String) -> (r: Option<String>) {
        self.resolve_ref(model_name)
    }

    fn file_diagnostics(&mut self, path: String) -> (r: Vec<Diagnostic>) {
        self.file_diagnostics(path)
    }
}

} // verus!

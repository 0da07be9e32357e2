//! Text scanning: the naive model/reference extraction over file text.
//!
//! The extraction is deliberately simple (a stand-in for a real grammar):
//! a file qualifies as a model when it contains a `SELECT` or `select`
//! token, and references are the names between `{{ ref('` and `')`.

use vstd::prelude::*;

verus! {

/// The characters of the reference-marker prefix `{{ ref('`.
pub open spec fn open_marker() -> Seq<char> {
    seq!['{', '{', ' ', 'r', 'e', 'f', '(', '\'']
}

/// The characters of the reference-marker closing sequence `')`.
pub open spec fn close_marker() -> Seq<char> {
    seq!['\'', ')']
}

/// The characters of the upper-case SQL keyword that marks a model.
pub open spec fn select_upper() -> Seq<char> {
    seq!['S', 'E', 'L', 'E', 'C', 'T']
}

/// The characters of the lower-case SQL keyword that marks a model.
pub open spec fn select_lower() -> Seq<char> {
    seq!['s', 'e', 'l', 'e', 'c', 't']
}

/// The characters of the directory marker `models/`.
pub open spec fn models_dir() -> Seq<char> {
    seq!['m', 'o', 'd', 'e', 'l', 's', '/']
}

/// `pat` occurs in `t` starting exactly at index `i`.
pub open spec fn is_match_at(t: Seq<char>, pat: Seq<char>, i: int) -> bool {
    &&& 0 <= i
    &&& i + pat.len() <= t.len()
    &&& t.subrange(i, i + pat.len()) == pat
}

/// `t` contains `pat` somewhere.
pub open spec fn contains_pat(t: Seq<char>, pat: Seq<char>) -> bool {
    exists|i: int| is_match_at(t, pat, i)
}

/// The least index at or after `from` where `pat` occurs in `t`, if any.
/// Positions before index 0 are never considered.
pub open spec fn first_match_from(t: Seq<char>, pat: Seq<char>, from: int) -> Option<int>
    decreases t.len() - from,
{
    if from < 0 || from + pat.len() > t.len() {
        None
    } else if pat.len() == 0 {
        Some(from)
    } else if is_match_at(t, pat, from) {
        Some(from)
    } else {
        first_match_from(t, pat, from + 1)
    }
}

/// What `first_match_from` returns: the first occurrence at or after `from`,
/// or nothing when no occurrence lies there.
pub proof fn lemma_first_match_from_spec(t: Seq<char>, pat: Seq<char>, from: int)
    requires
        0 <= from,
    ensures
        match first_match_from(t, pat, from) {
            Some(j) => from <= j && is_match_at(t, pat, j) && (forall|i: int|
                from <= i < j ==> !is_match_at(t, pat, i)),
            None => forall|i: int| from <= i ==> !is_match_at(t, pat, i),
        },
    decreases t.len() - from,
{
    if from + pat.len() > t.len() {
        assert forall|i: int| from <= i implies !is_match_at(t, pat, i) by {
            assert(i + pat.len() > t.len());
        }
    } else if pat.len() == 0 {
        assert(t.subrange(from, from) =~= pat);
    } else if is_match_at(t, pat, from) {
    } else {
        lemma_first_match_from_spec(t, pat, from + 1);
    }
}

/// Whether the characters of `pat` stand at position `i` of `t`.
pub fn match_at(t: &str, pat: &str, i: usize, tn: usize, pn: usize) -> (r: bool)
    requires
        tn == t@.len(),
        pn == pat@.len(),
        i + pn <= tn,
    ensures
        r == is_match_at(t@, pat@, i as int),
{
    let mut j: usize = 0;
    let mut ok = true;
    while j < pn
        invariant
            tn == t@.len(),
            pn == pat@.len(),
            i + pn <= tn,
            j <= pn,
            ok ==> forall|q: int| 0 <= q < j ==> t@[i + q] == pat@[q],
            !ok ==> !is_match_at(t@, pat@, i as int),
        decreases pn - j,
    {
        if ok {
            let tc = t.get_char(i + j);
            let pc = pat.get_char(j);
            if tc != pc {
                proof {
                    if is_match_at(t@, pat@, i as int) {
                        assert(t@.subrange(i as int, i + pat@.len())[j as int] == t@[i + j]);
                    }
                }
                ok = false;
            }
        }
        j += 1;
    }
    proof {
        if ok {
            assert(t@.subrange(i as int, i + pat@.len()) =~= pat@);
        }
    }
    ok
}

/// The first occurrence of `pat` in `t` at or after `from`, if any.
pub fn find_from(t: &str, pat: &str, from: usize) -> (r: Option<usize>)
    requires
        from <= t@.len(),
    ensures
        match r {
            Some(j) => first_match_from(t@, pat@, from as int) == Some(j as int),
            None => first_match_from(t@, pat@, from as int) is None,
        },
{
    let tn = t.unicode_len();
    let pn = pat.unicode_len();
    if pn > tn {
        return None;
    }
    if pn == 0 {
        proof {
            assert(t@.subrange(from as int, from as int) =~= pat@);
        }
        return Some(from);
    }
    let limit = tn - pn;
    if from > limit {
        return None;
    }
    let mut i = from;
    while i <= limit
        invariant
            tn == t@.len(),
            pn == pat@.len(),
            1 <= pn <= tn,
            limit == tn - pn,
            from <= i <= limit + 1,
            first_match_from(t@, pat@, from as int) == first_match_from(t@, pat@, i as int),
        decreases limit + 1 - i,
    {
        if match_at(t, pat, i, tn, pn) {
            return Some(i);
        }
        i += 1;
    }
    None
}

/// Whether `t` contains `pat` anywhere.
pub fn contains_str(t: &str, pat: &str) -> (r: bool)
    ensures
        r == contains_pat(t@, pat@),
{
    let r = find_from(t, pat, 0);
    proof {
        lemma_first_match_from_spec(t@, pat@, 0);
        if first_match_from(t@, pat@, 0) is None {
            assert forall|i: int| !is_match_at(t@, pat@, i) by {
                if i >= 0 {
                    assert(!is_match_at(t@, pat@, i));
                }
            }
        }
    }
    r.is_some()
}

/// The greatest index of `s` holding character `c`, if any.
pub open spec fn last_index_of(s: Seq<char>, c: char) -> Option<int>
    decreases s.len(),
{
    if s.len() == 0 {
        None
    } else if s[s.len() - 1] == c {
        Some(s.len() - 1)
    } else {
        last_index_of(s.drop_last(), c)
    }
}

/// A found last index is in bounds and holds `c`.
pub proof fn lemma_last_index_of_props(s: Seq<char>, c: char)
    ensures
        match last_index_of(s, c) {
            Some(j) => 0 <= j < s.len() && s[j] == c,
            None => true,
        },
    decreases s.len(),
{
    if s.len() > 0 && s[s.len() - 1] != c {
        lemma_last_index_of_props(s.drop_last(), c);
    }
}

/// A witness that `j` is the last occurrence of `c` pins `last_index_of` down.
pub proof fn lemma_last_index_of_witness(s: Seq<char>, c: char, j: int)
    requires
        0 <= j < s.len(),
        s[j] == c,
        forall|k: int| j < k < s.len() ==> s[k] != c,
    ensures
        last_index_of(s, c) == Some(j),
    decreases s.len(),
{
    if j == s.len() - 1 {
    } else {
        assert(s[s.len() - 1] != c);
        lemma_last_index_of_witness(s.drop_last(), c, j);
    }
}

/// When no index of `s` holds `c`, `last_index_of` finds nothing.
pub proof fn lemma_last_index_of_none(s: Seq<char>, c: char)
    requires
        forall|k: int| 0 <= k < s.len() ==> s[k] != c,
    ensures
        last_index_of(s, c) is None,
    decreases s.len(),
{
    if s.len() > 0 {
        lemma_last_index_of_none(s.drop_last(), c);
    }
}

/// The greatest index of `s` holding `c`, scanning from the end.
pub fn rlast_index(s: &str, c: char) -> (r: Option<usize>)
    ensures
        match r {
            Some(j) => last_index_of(s@, c) == Some(j as int),
            None => last_index_of(s@, c) is None,
        },
{
    let n = s.unicode_len();
    let mut i = n;
    while i > 0
        invariant
            n == s@.len(),
            i <= n,
            forall|k: int| i <= k < n ==> s@[k] != c,
        decreases i,
    {
        i -= 1;
        let sc = s.get_char(i);
        if sc == c {
            proof {
                lemma_last_index_of_witness(s@, c, i as int);
            }
            return Some(i);
        }
    }
    proof {
        lemma_last_index_of_none(s@, c);
    }
    None
}

/// The base name of a path: everything after the last `/`, the whole path
/// when it has none.
pub open spec fn base_of(p: Seq<char>) -> Seq<char> {
    match last_index_of(p, '/') {
        Some(j) => p.subrange(j + 1, p.len() as int),
        None => p,
    }
}

/// The stem of a path: its base name with the extension after the last `.`
/// removed, unless that `.` opens the base name. Nothing when the base name
/// is empty.
pub open spec fn stem_of(p: Seq<char>) -> Option<Seq<char>> {
    let base = base_of(p);
    if base.len() == 0 {
        None
    } else {
        match last_index_of(base, '.') {
            Some(j) => if j > 0 {
                Some(base.subrange(0, j))
            } else {
                Some(base)
            },
            None => Some(base),
        }
    }
}

/// The stem of a path, as `stem_of` gives it.
pub fn stem(p: &str) -> (r: Option<String>)
    ensures
        r.deep_view() == stem_of(p@),
{
    let n = p.unicode_len();
    proof {
        lemma_last_index_of_props(p@, '/');
    }
    let base_from = match rlast_index(p, '/') {
        Some(j) => j + 1,
        None => 0,
    };
    let base = p.substring_char(base_from, n);
    proof {
        assert(base@ == base_of(p@));
        if last_index_of(p@, '/') is None {
            assert(p@.subrange(0, p@.len() as int) =~= p@);
        }
    }
    let bn = base.unicode_len();
    if bn == 0 {
        return None;
    }
    proof {
        lemma_last_index_of_props(base@, '.');
    }
    match rlast_index(base, '.') {
        Some(j) => {
            if j > 0 {
                Some(String::from_str(base.substring_char(0, j)))
            } else {
                Some(String::from_str(base))
            }
        },
        None => Some(String::from_str(base)),
    }
}

/// Whether the text contains a `SELECT` token, in either case.
pub open spec fn has_select(t: Seq<char>) -> bool {
    contains_pat(t, select_upper()) || contains_pat(t, select_lower())
}

/// The literal `"SELECT"` spells `select_upper`.
proof fn lemma_select_upper_lit()
    ensures
        "SELECT"@ == select_upper(),
{
    reveal_strlit("SELECT");
    assert("SELECT"@ =~= select_upper());
}

/// The literal `"select"` spells `select_lower`.
proof fn lemma_select_lower_lit()
    ensures
        "select"@ == select_lower(),
{
    reveal_strlit("select");
    assert("select"@ =~= select_lower());
}

/// Whether the text qualifies as a model body: it contains the keyword.
pub fn check_select(t: &str) -> (r: bool)
    ensures
        r == has_select(t@),
{
    proof {
        lemma_select_upper_lit();
        lemma_select_lower_lit();
    }
    if contains_str(t, "SELECT") {
        true
    } else {
        contains_str(t, "select")
    }
}

/// Whether the path lies under a directory literally named `models`: the
/// segment `models/` stands at the start of the path or right after a `/`.
/// A name that merely ends in `models` does not count.
pub open spec fn in_models_dir(p: Seq<char>) -> bool {
    exists|i: int| is_match_at(p, models_dir(), i) && (i == 0 || p[i - 1] == '/')
}

/// Whether the path lies under a directory literally named `models`.
pub fn check_models_dir(p: &str) -> (r: bool)
    ensures
        r == in_models_dir(p@),
{
    proof {
        reveal_strlit("models/");
        assert("models/"@ =~= models_dir());
    }
    let n = p.unicode_len();
    let mut from: usize = 0;
    let mut result = false;
    let mut done = false;
    while !done
        invariant
            n == p@.len(),
            "models/"@ == models_dir(),
            !done ==> from <= n,
            !done ==> forall|i: int|
                0 <= i < from ==> !(is_match_at(p@, models_dir(), i) && (i == 0 || p@[i - 1]
                    == '/')),
            done ==> result == in_models_dir(p@),
        decreases (if done { 0int } else { n - from + 1 }),
    {
        proof {
            lemma_first_match_from_spec(p@, "models/"@, from as int);
        }
        match find_from(p, "models/", from) {
            None => {
                proof {
                    if in_models_dir(p@) {
                        let i = choose|i: int|
                            is_match_at(p@, models_dir(), i) && (i == 0 || p@[i - 1] == '/');
                        assert(!(i < from));
                        assert(false);
                    }
                }
                result = false;
                done = true;
            },
            Some(i) => {
                let comp = if i == 0 {
                    true
                } else {
                    let c = p.get_char(i - 1);
                    c == '/'
                };
                if comp {
                    assert(in_models_dir(p@));
                    result = true;
                    done = true;
                } else {
                    assert forall|q: int|
                        0 <= q < i + 1 implies !(is_match_at(p@, models_dir(), q) && (q == 0
                        || p@[q - 1] == '/')) by {
                        if from <= q < i {
                            assert(!is_match_at(p@, models_dir(), q));
                        }
                    }
                    from = i + 1;
                }
            },
        }
    }
    result
}

/// The reference names extracted from `t`, scanning left to right from
/// position `pos`. Each complete `{{ ref('` … `')` pair emits the name
/// between the two sequences. A marker is malformed when its closing
/// sequence is missing or lies beyond the next marker's opening; extraction
/// ends entirely at the first malformed marker, keeping only the names found
/// before it.
pub open spec fn refs_from(t: Seq<char>, pos: int) -> Seq<Seq<char>>
    decreases t.len() - pos,
    via refs_from_decreases
{
    match first_match_from(t, open_marker(), pos) {
        None => Seq::empty(),
        Some(s0) => {
            let a = s0 + open_marker().len();
            match first_match_from(t, close_marker(), a) {
                None => Seq::empty(),
                Some(e0) => {
                    if match first_match_from(t, open_marker(), a) {
                        Some(s1) => s1 < e0,
                        None => false,
                    } {
                        Seq::empty()
                    } else {
                        seq![t.subrange(a, e0)] + refs_from(t, e0 + close_marker().len())
                    }
                },
            }
        },
    }
}

#[via_fn]
proof fn refs_from_decreases(t: Seq<char>, pos: int) {
    match first_match_from(t, open_marker(), pos) {
        None => {},
        Some(s0) => {
            lemma_first_match_some_ge(t, open_marker(), pos, s0);
            let a = s0 + open_marker().len();
            match first_match_from(t, close_marker(), a) {
                None => {},
                Some(e0) => {
                    lemma_first_match_some_ge(t, close_marker(), a, e0);
                },
            }
        },
    }
}

/// A found first match lies at or after the start and really matches.
pub proof fn lemma_first_match_some_ge(t: Seq<char>, pat: Seq<char>, from: int, j: int)
    requires
        first_match_from(t, pat, from) == Some(j),
    ensures
        from <= j,
        is_match_at(t, pat, j),
    decreases t.len() - from,
{
    if from < 0 || from + pat.len() > t.len() {
    } else if pat.len() == 0 {
        assert(t.subrange(from, from) =~= pat);
    } else if is_match_at(t, pat, from) {
    } else {
        lemma_first_match_some_ge(t, pat, from + 1, j);
    }
}

/// All reference names in `t`, in order of appearance, duplicates kept.
pub open spec fn refs_in(t: Seq<char>) -> Seq<Seq<char>> {
    refs_from(t, 0)
}

/// The literal `"{{ ref('"` spells `open_marker`.
proof fn lemma_open_marker_lit()
    ensures
        "{{ ref('"@ == open_marker(),
{
    reveal_strlit("{{ ref('");
    assert("{{ ref('"@ =~= open_marker());
}

/// The literal `"')"` spells `close_marker`.
proof fn lemma_close_marker_lit()
    ensures
        "')"@ == close_marker(),
{
    reveal_strlit("')");
    assert("')"@ =~= close_marker());
}

/// The reference names in `t`, extracted as `refs_in` describes.
pub fn scan_refs(t: &str) -> (r: Vec<String>)
    ensures
        r.deep_view() == refs_in(t@),
{
    proof {
        lemma_open_marker_lit();
        lemma_close_marker_lit();
    }
    let tn = t.unicode_len();
    let mut pos: usize = 0;
    let mut out: Vec<String> = Vec::new();
    let mut done = false;
    while !done
        invariant
            tn == t@.len(),
            pos <= tn,
            "{{ ref('"@ == open_marker(),
            "')"@ == close_marker(),
            refs_in(t@) == out.deep_view() + (if done {
                Seq::<Seq<char>>::empty()
            } else {
                refs_from(t@, pos as int)
            }),
        decreases (if done { 0int } else { tn - pos + 1 }),
    {
        match find_from(t, "{{ ref('", pos) {
            None => {
                assert(refs_from(t@, pos as int) =~= Seq::<Seq<char>>::empty());
                done = true;
            },
            Some(s0) => {
                proof {
                    lemma_first_match_some_ge(t@, open_marker(), pos as int, s0 as int);
                }
                let a = s0 + 8;
                assert(a <= tn);
                match find_from(t, "')", a) {
                    None => {
                        assert(refs_from(t@, pos as int) =~= Seq::<Seq<char>>::empty());
                        done = true;
                    },
                    Some(e0) => {
                        proof {
                            lemma_first_match_some_ge(t@, close_marker(), a as int, e0 as int);
                        }
                        let malformed = match find_from(t, "{{ ref('", a) {
                            Some(s1) => s1 < e0,
                            None => false,
                        };
                        if malformed {
                            assert(refs_from(t@, pos as int) =~= Seq::<Seq<char>>::empty());
                            done = true;
                        } else {
                            let name = String::from_str(t.substring_char(a, e0));
                            let ghost old_out = out.deep_view();
                            out.push(name);
                            proof {
                                assert(out.deep_view() =~= old_out + seq![t@.subrange(a as int, e0 as int)]);
                                assert(refs_from(t@, pos as int) == seq![t@.subrange(a as int, e0 as int)]
                                    + refs_from(t@, e0 + 2));
                            }
                            pos = e0 + 2;
                            proof {
                                assert(refs_in(t@) == out.deep_view() + refs_from(t@, pos as int));
                            }
                        }
                    },
                }
            },
        }
    }
    proof {
        assert(refs_in(t@) =~= out.deep_view());
    }
    out
}

} // verus!

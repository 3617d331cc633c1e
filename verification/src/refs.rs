//! The reference extractor: a name index over the loaded tables and views,
//! and a lexical scan of routine definitions that classifies table
//! references as reads or writes.
//!
//! The scan is deliberately lexical, not syntactic: it looks for the
//! keywords `FROM`, `JOIN`, `INSERT INTO`, `UPDATE` and `DELETE FROM`,
//! each followed by an optionally schema-qualified, optionally bracketed
//! identifier, and resolves what it finds against the name index.  Common
//! table expressions, dynamic SQL and synonyms are not resolved; the
//! resulting lists are a lower bound.

use vstd::prelude::*;
use crate::schema::{table_ids, view_ids, TableNode, ViewNode};
use crate::text::{chars_eq_ci, copy_range_chars, fold_lower, is_space_char, is_word_char,
    lower_char, space_char, str_to_chars, to_lower_char, word_char};
use vstd::string::StrSliceExecFns;

verus! {

/// The lookup table from lower-cased object names and ids to canonical
/// ids.  A later insertion of an already-present key wins.
pub struct NameIndex {
    entries: Vec<(String, String)>,
}

/// The map that a sequence of insertions leaves behind: every entry keyed
/// by its case-folded key, later entries overwriting earlier ones.
pub open spec fn index_map(entries: Seq<(String, String)>) -> Map<Seq<char>, Seq<char>>
    decreases entries.len(),
{
    if entries.len() == 0 {
        Map::empty()
    } else {
        index_map(entries.drop_last()).insert(
            fold_lower(entries.last().0@),
            entries.last().1@,
        )
    }
}

impl View for NameIndex {
    type V = Map<Seq<char>, Seq<char>>;

    closed spec fn view(&self) -> Map<Seq<char>, Seq<char>> {
        index_map(self.entries@)
    }
}

proof fn lemma_index_map_found(entries: Seq<(String, String)>, j: int, k: Seq<char>)
    requires
        0 <= j < entries.len(),
        fold_lower(entries[j].0@) == k,
        forall|l: int| j < l < entries.len() ==> fold_lower(#[trigger] entries[l].0@) != k,
    ensures
        index_map(entries).contains_key(k),
        index_map(entries)[k] == entries[j].1@,
    decreases entries.len(),
{
    if j < entries.len() - 1 {
        lemma_index_map_found(entries.drop_last(), j, k);
    }
}

proof fn lemma_index_map_absent(entries: Seq<(String, String)>, k: Seq<char>)
    requires
        forall|l: int| 0 <= l < entries.len() ==> fold_lower(#[trigger] entries[l].0@) != k,
    ensures
        !index_map(entries).contains_key(k),
    decreases entries.len(),
{
    if entries.len() > 0 {
        lemma_index_map_absent(entries.drop_last(), k);
    }
}

/// Every value of the index map is a value of some entry.
proof fn lemma_index_map_values(entries: Seq<(String, String)>, ids: Set<Seq<char>>)
    requires
        forall|l: int| 0 <= l < entries.len() ==> ids.contains(#[trigger] entries[l].1@),
    ensures
        forall|k: Seq<char>|
            index_map(entries).contains_key(k) ==> ids.contains(#[trigger] index_map(entries)[k]),
    decreases entries.len(),
{
    if entries.len() > 0 {
        assert(forall|l: int|
            0 <= l < entries.len() - 1 ==> #[trigger] entries.drop_last()[l] == entries[l]);
        lemma_index_map_values(entries.drop_last(), ids);
        assert(ids.contains(entries[entries.len() - 1].1@));
        assert forall|k: Seq<char>| index_map(entries).contains_key(k) implies ids.contains(
            #[trigger] index_map(entries)[k],
        ) by {
            if k != fold_lower(entries.last().0@) {
                assert(index_map(entries)[k] == index_map(entries.drop_last())[k]);
            }
        }
    }
}

impl NameIndex {
    /// An empty index.
    pub fn new() -> (r: NameIndex)
        ensures
            r@ == Map::<Seq<char>, Seq<char>>::empty(),
    {
        NameIndex { entries: Vec::new() }
    }

    /// Binds the case-folded `key` to the canonical `id`, overwriting any
    /// earlier binding of the same folded key.
    pub fn insert(&mut self, key: &str, id: &str)
        ensures
            final(self)@ == old(self)@.insert(fold_lower(key@), id@),
    {
        self.entries.push((String::from_str(key), String::from_str(id)));
        proof {
            assert(self.entries@.drop_last() =~= old(self).entries@);
        }
    }

    /// Looks the case-folded `key` up, returning the canonical id it is
    /// bound to, if any.
    pub fn lookup(&self, key: &[char]) -> (r: Option<String>)
        ensures
            self@.contains_key(fold_lower(key@)) ==> (r matches Some(id) && id@ == self@[fold_lower(
                key@,
            )]),
            !self@.contains_key(fold_lower(key@)) ==> r is None,
    {
        let n = self.entries.len();
        let mut i: usize = n;
        while i > 0
            invariant
                i <= n,
                n == self.entries@.len(),
                forall|l: int|
                    i <= l < n ==> fold_lower(#[trigger] self.entries@[l].0@) != fold_lower(key@),
            decreases i,
        {
            let hit = crate::text::chars_eq_ci(self.entries[i - 1].0.as_str(), key);
            if hit {
                proof {
                    lemma_index_map_found(self.entries@, i - 1, fold_lower(key@));
                }
                return Some(self.entries[i - 1].1.clone());
            }
            i = i - 1;
        }
        proof {
            lemma_index_map_absent(self.entries@, fold_lower(key@));
        }
        None
    }
}

/// The index over a table list: for each table, in order, its folded name
/// and its folded id both bound to its id.
pub open spec fn tables_index(ts: Seq<TableNode>) -> Map<Seq<char>, Seq<char>>
    decreases ts.len(),
{
    if ts.len() == 0 {
        Map::empty()
    } else {
        tables_index(ts.drop_last()).insert(fold_lower(ts.last().name@), ts.last().id@).insert(
            fold_lower(ts.last().id@),
            ts.last().id@,
        )
    }
}

/// The index over a view list, layered on top of `base`.
pub open spec fn views_index(
    base: Map<Seq<char>, Seq<char>>,
    vs: Seq<ViewNode>,
) -> Map<Seq<char>, Seq<char>>
    decreases vs.len(),
{
    if vs.len() == 0 {
        base
    } else {
        views_index(base, vs.drop_last()).insert(fold_lower(vs.last().name@), vs.last().id@).insert(
            fold_lower(vs.last().id@),
            vs.last().id@,
        )
    }
}

/// The name index a load builds: tables first, then views.
pub open spec fn name_index_of(ts: Seq<TableNode>, vs: Seq<ViewNode>) -> Map<Seq<char>, Seq<char>> {
    views_index(tables_index(ts), vs)
}

/// Whether every value of a map lies in `ids`.
pub open spec fn index_values_within(m: Map<Seq<char>, Seq<char>>, ids: Set<Seq<char>>) -> bool {
    forall|k: Seq<char>| m.contains_key(k) ==> ids.contains(#[trigger] m[k])
}

proof fn lemma_tables_index_values(ts: Seq<TableNode>, ids: Set<Seq<char>>)
    requires
        forall|l: int| 0 <= l < ts.len() ==> ids.contains(#[trigger] ts[l].id@),
    ensures
        index_values_within(tables_index(ts), ids),
    decreases ts.len(),
{
    if ts.len() > 0 {
        assert forall|l: int| 0 <= l < ts.drop_last().len() implies ids.contains(
            #[trigger] ts.drop_last()[l].id@,
        ) by {
            assert(ts.drop_last()[l] == ts[l]);
        }
        lemma_tables_index_values(ts.drop_last(), ids);
        assert(ids.contains(ts[ts.len() - 1].id@));
    }
}

proof fn lemma_views_index_values(
    base: Map<Seq<char>, Seq<char>>,
    vs: Seq<ViewNode>,
    ids: Set<Seq<char>>,
)
    requires
        index_values_within(base, ids),
        forall|l: int| 0 <= l < vs.len() ==> ids.contains(#[trigger] vs[l].id@),
    ensures
        index_values_within(views_index(base, vs), ids),
    decreases vs.len(),
{
    if vs.len() > 0 {
        assert forall|l: int| 0 <= l < vs.drop_last().len() implies ids.contains(
            #[trigger] vs.drop_last()[l].id@,
        ) by {
            assert(vs.drop_last()[l] == vs[l]);
        }
        lemma_views_index_values(base, vs.drop_last(), ids);
        assert(ids.contains(vs[vs.len() - 1].id@));
    }
}

/// Builds the name index from the loaded tables and views: each object's
/// lower-cased bare name and lower-cased id both map to its canonical id,
/// later objects overwriting earlier ones on a collision.
pub fn build_name_index(tables: &Vec<TableNode>, views: &Vec<ViewNode>) -> (r: NameIndex)
    ensures
        r@ == name_index_of(tables@, views@),
        index_values_within(r@, table_ids(tables@).to_set() + view_ids(views@).to_set()),
{
    let mut idx = NameIndex::new();
    let nt = tables.len();
    let mut i: usize = 0;
    while i < nt
        invariant
            i <= nt,
            nt == tables@.len(),
            idx@ == tables_index(tables@.subrange(0, i as int)),
        decreases nt - i,
    {
        idx.insert(tables[i].name.as_str(), tables[i].id.as_str());
        idx.insert(tables[i].id.as_str(), tables[i].id.as_str());
        i = i + 1;
        proof {
            let pre = tables@.subrange(0, i as int);
            assert(pre.drop_last() =~= tables@.subrange(0, i - 1));
            assert(pre.last() == tables@[i - 1]);
        }
    }
    proof {
        assert(tables@.subrange(0, nt as int) =~= tables@);
    }
    let nv = views.len();
    let mut j: usize = 0;
    while j < nv
        invariant
            j <= nv,
            nv == views@.len(),
            idx@ == views_index(tables_index(tables@), views@.subrange(0, j as int)),
        decreases nv - j,
    {
        idx.insert(views[j].name.as_str(), views[j].id.as_str());
        idx.insert(views[j].id.as_str(), views[j].id.as_str());
        j = j + 1;
        proof {
            let pre = views@.subrange(0, j as int);
            assert(pre.drop_last() =~= views@.subrange(0, j - 1));
            assert(pre.last() == views@[j - 1]);
        }
    }
    proof {
        assert(views@.subrange(0, nv as int) =~= views@);
        let ids = table_ids(tables@).to_set() + view_ids(views@).to_set();
        assert forall|l: int| 0 <= l < tables@.len() implies ids.contains(
            #[trigger] tables@[l].id@,
        ) by {
            assert(table_ids(tables@)[l] == tables@[l].id@);
            assert(table_ids(tables@).contains(tables@[l].id@));
        }
        assert forall|l: int| 0 <= l < views@.len() implies ids.contains(
            #[trigger] views@[l].id@,
        ) by {
            assert(view_ids(views@)[l] == views@[l].id@);
            assert(view_ids(views@).contains(views@[l].id@));
        }
        lemma_tables_index_values(tables@, ids);
        lemma_views_index_values(tables_index(tables@), views@, ids);
    }
    idx
}

/// The first position at or after `p` that does not hold whitespace.
pub open spec fn skip_ws(text: Seq<char>, p: int) -> int
    decreases text.len() - p,
{
    if 0 <= p < text.len() && is_space_char(text[p]) {
        skip_ws(text, p + 1)
    } else {
        p
    }
}

/// The first position at or after `p` that does not hold a word character.
pub open spec fn word_end(text: Seq<char>, p: int) -> int
    decreases text.len() - p,
{
    if 0 <= p < text.len() && is_word_char(text[p]) {
        word_end(text, p + 1)
    } else {
        p
    }
}

/// The position just past a case-insensitive occurrence of the lower-case
/// keyword `kw` at `p`, or `-1` when `kw` does not stand there.
pub open spec fn kw_end(text: Seq<char>, p: int, kw: Seq<char>) -> int {
    if 0 <= p && p + kw.len() <= text.len() && (forall|j: int|
        0 <= j < kw.len() ==> lower_char(text[p + j]) == kw[j]) {
        p + kw.len()
    } else {
        -1
    }
}

/// An optionally schema-qualified, optionally bracketed identifier starting
/// at `q`: `name`, `[name]`, `schema.name`, `[schema].[name]` and the
/// mixed forms.  Yields `(schema, name)`; a dot not followed by a word
/// falls back to the bare name, as the reference patterns do.
pub open spec fn parse_object_ref(text: Seq<char>, q: int) -> Option<(Option<Seq<char>>, Seq<char>)> {
    let p1 = if 0 <= q < text.len() && text[q] == '[' {
        q + 1
    } else {
        q
    };
    let e1 = word_end(text, p1);
    if e1 == p1 {
        None
    } else {
        let w1 = text.subrange(p1, e1);
        let p2 = if e1 < text.len() && text[e1] == ']' {
            e1 + 1
        } else {
            e1
        };
        if p2 < text.len() && text[p2] == '.' {
            let p3 = if p2 + 1 < text.len() && text[p2 + 1] == '[' {
                p2 + 2
            } else {
                p2 + 1
            };
            let e3 = word_end(text, p3);
            if e3 == p3 {
                Some((None, w1))
            } else {
                Some((Some(w1), text.subrange(p3, e3)))
            }
        } else {
            Some((None, w1))
        }
    }
}

/// One pattern applied at position `p`: the keyword `kw1` at a word
/// boundary (and, for the two-word patterns, whitespace then `kw2`),
/// whitespace, then an object reference.
pub open spec fn match_at(text: Seq<char>, p: int, kw1: Seq<char>, kw2: Option<Seq<char>>) -> Option<
    (Option<Seq<char>>, Seq<char>),
> {
    if !(0 <= p <= text.len()) {
        None
    } else if p > 0 && is_word_char(text[p - 1]) {
        None
    } else {
        let e1 = kw_end(text, p, kw1);
        if e1 < 0 {
            None
        } else {
            let e2 = if kw2 is Some {
                let w = skip_ws(text, e1);
                if w == e1 {
                    -1
                } else {
                    kw_end(text, w, kw2->0)
                }
            } else {
                e1
            };
            if e2 < 0 {
                None
            } else {
                let w2 = skip_ws(text, e2);
                if w2 == e2 {
                    None
                } else {
                    parse_object_ref(text, w2)
                }
            }
        }
    }
}

/// The lookup text of a capture: `schema.name`, or the bare name.
pub open spec fn capture_key(cap: (Option<Seq<char>>, Seq<char>)) -> Seq<char> {
    match cap.0 {
        Some(s) => s + seq!['.'] + cap.1,
        None => cap.1,
    }
}

/// The id that the pattern occurrence at `p` resolves to through the name
/// index, if the pattern matches there and the folded key is indexed.
pub open spec fn resolve_at(
    text: Seq<char>,
    p: int,
    kw1: Seq<char>,
    kw2: Option<Seq<char>>,
    m: Map<Seq<char>, Seq<char>>,
) -> Option<Seq<char>> {
    match match_at(text, p, kw1, kw2) {
        None => None,
        Some(cap) => {
            let k = fold_lower(capture_key(cap));
            if m.contains_key(k) {
                Some(m[k])
            } else {
                None
            }
        },
    }
}

/// The ids that one pattern resolves to anywhere before position `lim`.
pub open spec fn refs_of_kind_upto(
    text: Seq<char>,
    kw1: Seq<char>,
    kw2: Option<Seq<char>>,
    m: Map<Seq<char>, Seq<char>>,
    lim: int,
) -> Set<Seq<char>> {
    Set::new(
        |id: Seq<char>|
            exists|p: int| 0 <= p < lim && resolve_at(text, p, kw1, kw2, m) == Some(id),
    )
}

/// The ids that one pattern resolves to anywhere in the text.
pub open spec fn refs_of_kind(
    text: Seq<char>,
    kw1: Seq<char>,
    kw2: Option<Seq<char>>,
    m: Map<Seq<char>, Seq<char>>,
) -> Set<Seq<char>> {
    refs_of_kind_upto(text, kw1, kw2, m, text.len() as int + 1)
}

/// The ids a definition reads: the `FROM` and `JOIN` patterns.
pub open spec fn read_refs(text: Seq<char>, m: Map<Seq<char>, Seq<char>>) -> Set<Seq<char>> {
    refs_of_kind(text, "from"@, None, m) + refs_of_kind(text, "join"@, None, m)
}

/// The ids a definition writes: the `INSERT INTO`, `UPDATE` and
/// `DELETE FROM` patterns.
pub open spec fn write_refs(text: Seq<char>, m: Map<Seq<char>, Seq<char>>) -> Set<Seq<char>> {
    refs_of_kind(text, "insert"@, Some("into"@), m) + refs_of_kind(text, "update"@, None, m)
        + refs_of_kind(text, "delete"@, Some("from"@), m)
}

/// The views of a string list.
pub open spec fn string_views(v: Seq<String>) -> Seq<Seq<char>> {
    v.map_values(|s: String| s@)
}

/// The set of views of a string list.
pub open spec fn string_view_set(v: Seq<String>) -> Set<Seq<char>> {
    string_views(v).to_set()
}

proof fn lemma_skip_ws_at(text: Seq<char>, p: int, q: int)
    requires
        0 <= p <= q <= text.len(),
        forall|j: int| p <= j < q ==> is_space_char(#[trigger] text[j]),
        q < text.len() ==> !is_space_char(text[q]),
    ensures
        skip_ws(text, p) == q,
    decreases q - p,
{
    if p < q {
        lemma_skip_ws_at(text, p + 1, q);
    }
}

proof fn lemma_word_end_at(text: Seq<char>, p: int, q: int)
    requires
        0 <= p <= q <= text.len(),
        forall|j: int| p <= j < q ==> is_word_char(#[trigger] text[j]),
        q < text.len() ==> !is_word_char(text[q]),
    ensures
        word_end(text, p) == q,
    decreases q - p,
{
    if p < q {
        lemma_word_end_at(text, p + 1, q);
    }
}

fn skip_ws_exec(text: &[char], p: usize) -> (q: usize)
    requires
        p <= text@.len(),
    ensures
        p <= q <= text@.len(),
        q as int == skip_ws(text@, p as int),
{
    let n = text.len();
    let mut q: usize = p;
    while q < n && space_char(text[q])
        invariant
            p <= q <= n,
            n == text@.len(),
            forall|j: int| p <= j < q ==> is_space_char(#[trigger] text@[j]),
        decreases n - q,
    {
        q = q + 1;
    }
    proof {
        lemma_skip_ws_at(text@, p as int, q as int);
    }
    q
}

fn word_end_exec(text: &[char], p: usize) -> (q: usize)
    requires
        p <= text@.len(),
    ensures
        p <= q <= text@.len(),
        q as int == word_end(text@, p as int),
{
    let n = text.len();
    let mut q: usize = p;
    while q < n && word_char(text[q])
        invariant
            p <= q <= n,
            n == text@.len(),
            forall|j: int| p <= j < q ==> is_word_char(#[trigger] text@[j]),
        decreases n - q,
    {
        q = q + 1;
    }
    proof {
        lemma_word_end_at(text@, p as int, q as int);
    }
    q
}

/// Matches the lower-case keyword `kw` at `p`, without regard to case.
fn kw_match(text: &[char], p: usize, kw: &str) -> (r: Option<usize>)
    requires
        p <= text@.len(),
    ensures
        match r {
            Option::Some(e) => p <= e <= text@.len() && kw_end(text@, p as int, kw@) == e as int,
            Option::None => kw_end(text@, p as int, kw@) == -1,
        },
{
    let n = text.len();
    let m = kw.unicode_len();
    if m > n - p {
        return None;
    }
    let mut j: usize = 0;
    while j < m
        invariant
            j <= m,
            p + m <= n,
            n == text@.len(),
            m as nat == kw@.len(),
            forall|l: int| 0 <= l < j ==> lower_char(text@[p + l]) == kw@[l],
        decreases m - j,
    {
        if to_lower_char(text[p + j]) != kw.get_char(j) {
            return None;
        }
        j = j + 1;
    }
    Some(p + m)
}

/// Whether the capture ranges in `r` spell out the capture `cap`.
pub open spec fn ranges_match(
    text: Seq<char>,
    cap: (Option<Seq<char>>, Seq<char>),
    r: (Option<(usize, usize)>, (usize, usize)),
) -> bool {
    &&& match (cap.0, r.0) {
        (Some(s), Some(rg)) => rg.0 <= rg.1 <= text.len() && text.subrange(
            rg.0 as int,
            rg.1 as int,
        ) == s,
        (None, None) => true,
        _ => false,
    }
    &&& r.1.0 <= r.1.1 <= text.len()
    &&& text.subrange(r.1.0 as int, r.1.1 as int) == cap.1
}

/// Parses an object reference at `q`, yielding the capture ranges.
fn parse_object_ref_exec(text: &[char], q: usize) -> (r: Option<
    (Option<(usize, usize)>, (usize, usize)),
>)
    requires
        q <= text@.len(),
    ensures
        match parse_object_ref(text@, q as int) {
            Option::None => r is None,
            Option::Some(cap) => r matches Some(rr) && ranges_match(text@, cap, rr),
        },
{
    let n = text.len();
    let p1: usize = if q < n && text[q] == '[' {
        q + 1
    } else {
        q
    };
    let e1 = word_end_exec(text, p1);
    if e1 == p1 {
        return None;
    }
    let p2: usize = if e1 < n && text[e1] == ']' {
        e1 + 1
    } else {
        e1
    };
    if p2 < n && text[p2] == '.' {
        let p3: usize = if p2 + 1 < n && text[p2 + 1] == '[' {
            p2 + 2
        } else {
            p2 + 1
        };
        let e3 = word_end_exec(text, p3);
        if e3 == p3 {
            Some((None, (p1, e1)))
        } else {
            Some((Some((p1, e1)), (p3, e3)))
        }
    } else {
        Some((None, (p1, e1)))
    }
}

/// Applies one pattern at position `p`, yielding the capture ranges.
fn try_match_at(text: &[char], p: usize, kw1: &str, kw2: Option<&str>) -> (r: Option<
    (Option<(usize, usize)>, (usize, usize)),
>)
    requires
        p <= text@.len(),
    ensures
        match match_at(text@, p as int, kw1@, kw2_view(kw2)) {
            Option::None => r is None,
            Option::Some(cap) => r matches Some(rr) && ranges_match(text@, cap, rr),
        },
{
    if p > 0 && word_char(text[p - 1]) {
        return None;
    }
    let e1 = match kw_match(text, p, kw1) {
        Some(e) => e,
        None => {
            return None;
        },
    };
    let e2 = match kw2 {
        Some(k2) => {
            let w = skip_ws_exec(text, e1);
            if w == e1 {
                return None;
            }
            match kw_match(text, w, k2) {
                Some(e) => e,
                None => {
                    return None;
                },
            }
        },
        None => e1,
    };
    let w2 = skip_ws_exec(text, e2);
    if w2 == e2 {
        return None;
    }
    parse_object_ref_exec(text, w2)
}

/// The view of an optional second keyword.
pub open spec fn kw2_view(kw2: Option<&str>) -> Option<Seq<char>> {
    match kw2 {
        Some(k) => Some(k@),
        None => None,
    }
}

/// Whether a list holds a string with the given view.
fn contains_string(v: &Vec<String>, s: &String) -> (r: bool)
    ensures
        r == string_view_set(v@).contains(s@),
{
    let n = v.len();
    let mut i: usize = 0;
    while i < n
        invariant
            i <= n,
            n == v@.len(),
            forall|j: int| 0 <= j < i ==> v@[j]@ != s@,
        decreases n - i,
    {
        if v[i].eq(s) {
            proof {
                assert(string_views(v@)[i as int] == s@);
                assert(string_views(v@).contains(s@));
            }
            return true;
        }
        i = i + 1;
    }
    proof {
        if string_view_set(v@).contains(s@) {
            let j = choose|j: int| 0 <= j < string_views(v@).len() && string_views(v@)[j] == s@;
            assert(v@[j]@ == s@);
        }
    }
    false
}

proof fn lemma_refs_upto_step(
    text: Seq<char>,
    kw1: Seq<char>,
    kw2: Option<Seq<char>>,
    m: Map<Seq<char>, Seq<char>>,
    p: int,
)
    requires
        p >= 0,
    ensures
        refs_of_kind_upto(text, kw1, kw2, m, p + 1) == (match resolve_at(text, p, kw1, kw2, m) {
            Option::Some(id) => refs_of_kind_upto(text, kw1, kw2, m, p).insert(id),
            Option::None => refs_of_kind_upto(text, kw1, kw2, m, p),
        }),
{
    let before = refs_of_kind_upto(text, kw1, kw2, m, p);
    let after = refs_of_kind_upto(text, kw1, kw2, m, p + 1);
    match resolve_at(text, p, kw1, kw2, m) {
        Option::Some(id) => {
            assert forall|x: Seq<char>| after.contains(x) implies before.insert(id).contains(
                x,
            ) by {
                let q = choose|q: int|
                    0 <= q < p + 1 && resolve_at(text, q, kw1, kw2, m) == Some(x);
                if q < p {
                    assert(before.contains(x));
                }
            }
            assert forall|x: Seq<char>| before.insert(id).contains(x) implies after.contains(
                x,
            ) by {
                if x == id {
                    assert(0 <= p < p + 1 && resolve_at(text, p, kw1, kw2, m) == Some(x));
                } else {
                    let q = choose|q: int|
                        0 <= q < p && resolve_at(text, q, kw1, kw2, m) == Some(x);
                    assert(0 <= q < p + 1 && resolve_at(text, q, kw1, kw2, m) == Some(x));
                }
            }
            assert(after =~= before.insert(id));
        },
        Option::None => {
            assert forall|x: Seq<char>| after.contains(x) implies before.contains(x) by {
                let q = choose|q: int|
                    0 <= q < p + 1 && resolve_at(text, q, kw1, kw2, m) == Some(x);
                assert(q < p);
            }
            assert forall|x: Seq<char>| before.contains(x) implies after.contains(x) by {
                let q = choose|q: int| 0 <= q < p && resolve_at(text, q, kw1, kw2, m) == Some(x);
                assert(0 <= q < p + 1 && resolve_at(text, q, kw1, kw2, m) == Some(x));
            }
            assert(after =~= before);
        },
    }
}

/// No pattern matches at the very end of the text, so the scan may stop
/// there.
proof fn lemma_refs_at_end(
    text: Seq<char>,
    kw1: Seq<char>,
    kw2: Option<Seq<char>>,
    m: Map<Seq<char>, Seq<char>>,
)
    ensures
        refs_of_kind(text, kw1, kw2, m) == refs_of_kind_upto(text, kw1, kw2, m, text.len() as int),
{
    let l = text.len() as int;
    assert(skip_ws(text, l) == l);
    assert(match_at(text, l, kw1, kw2) is None);
    assert(resolve_at(text, l, kw1, kw2, m) is None);
    lemma_refs_upto_step(text, kw1, kw2, m, l);
}

/// Scans the whole text with one pattern, adding every resolved id that is
/// not yet present to `out`.
fn scan_kind(text: &[char], kw1: &str, kw2: Option<&str>, index: &NameIndex, out: &mut Vec<String>)
    requires
        string_views(old(out)@).no_duplicates(),
    ensures
        string_views(final(out)@).no_duplicates(),
        string_view_set(final(out)@) == string_view_set(old(out)@) + refs_of_kind(
            text@,
            kw1@,
            kw2_view(kw2),
            index@,
        ),
{
    let n = text.len();
    let ghost kwv = kw2_view(kw2);
    let mut p: usize = 0;
    proof {
        assert(refs_of_kind_upto(text@, kw1@, kwv, index@, 0) =~= Set::<Seq<char>>::empty());
        assert(string_view_set(out@) =~= string_view_set(out@) + refs_of_kind_upto(
            text@,
            kw1@,
            kwv,
            index@,
            0,
        ));
    }
    while p < n
        invariant
            p <= n,
            n == text@.len(),
            kwv == kw2_view(kw2),
            string_views(out@).no_duplicates(),
            string_view_set(out@) == string_view_set(old(out)@) + refs_of_kind_upto(
                text@,
                kw1@,
                kwv,
                index@,
                p as int,
            ),
        decreases n - p,
    {
        let ghost pre = out@;
        let ghost mres = match_at(text@, p as int, kw1@, kwv);
        let ghost res = resolve_at(text@, p as int, kw1@, kwv, index@);
        match try_match_at(text, p, kw1, kw2) {
            Some((sch, nm)) => {
                let ghost cap = mres->0;
                proof {
                    assert(mres is Some);
                    assert(ranges_match(text@, cap, (sch, nm)));
                }
                let mut key: Vec<char>;
                match sch {
                    Some((a, b)) => {
                        proof {
                            assert(cap.0 is Some);
                            assert(text@.subrange(a as int, b as int) == cap.0->0);
                            assert(text@.subrange(nm.0 as int, nm.1 as int) == cap.1);
                        }
                        key = copy_range_chars(text, a, b);
                        key.push('.');
                        let mut rest = copy_range_chars(text, nm.0, nm.1);
                        key.append(&mut rest);
                        proof {
                            assert(key@ =~= capture_key(cap));
                        }
                    },
                    None => {
                        proof {
                            assert(cap.0 is None);
                            assert(text@.subrange(nm.0 as int, nm.1 as int) == cap.1);
                        }
                        key = copy_range_chars(text, nm.0, nm.1);
                        proof {
                            assert(key@ =~= capture_key(cap));
                        }
                    },
                }
                match index.lookup(key.as_slice()) {
                    Some(id) => {
                        proof {
                            assert(res == Some(id@));
                        }
                        if !contains_string(out, &id) {
                            let ghost idv = id@;
                            out.push(id);
                            proof {
                                assert(string_views(out@) =~= string_views(pre).push(idv));
                                assert forall|x: Seq<char>|
                                    string_view_set(out@).contains(x) implies string_view_set(
                                    pre,
                                ).insert(idv).contains(x) by {
                                    let j = choose|j: int|
                                        0 <= j < string_views(out@).len() && string_views(out@)[j]
                                            == x;
                                    if j < string_views(pre).len() {
                                        assert(string_views(pre).contains(x));
                                    }
                                }
                                assert forall|x: Seq<char>|
                                    string_view_set(pre).insert(idv).contains(
                                        x,
                                    ) implies string_view_set(out@).contains(x) by {
                                    if x == idv {
                                        assert(string_views(out@)[string_views(pre).len() as int]
                                            == idv);
                                    } else {
                                        let j = choose|j: int|
                                            0 <= j < string_views(pre).len() && string_views(pre)[j]
                                                == x;
                                        assert(string_views(out@)[j] == x);
                                    }
                                }
                                assert(string_view_set(out@) =~= string_view_set(pre).insert(idv));
                                assert(!string_views(pre).contains(idv));
                                assert(string_views(out@).no_duplicates());
                            }
                        } else {
                            proof {
                                assert(string_view_set(pre).insert(id@) =~= string_view_set(pre));
                            }
                        }
                    },
                    None => {
                        proof {
                            assert(res is None);
                        }
                    },
                }
            },
            None => {
                proof {
                    assert(res is None);
                }
            },
        }
        proof {
            lemma_refs_upto_step(text@, kw1@, kwv, index@, p as int);
            let old_set = string_view_set(old(out)@);
            let before = refs_of_kind_upto(text@, kw1@, kwv, index@, p as int);
            let after = refs_of_kind_upto(text@, kw1@, kwv, index@, p + 1);
            match res {
                Option::Some(id) => {
                    assert(after == before.insert(id));
                    assert((old_set + before).insert(id) =~= old_set + before.insert(id));
                },
                Option::None => {
                    assert(after == before);
                },
            }
        }
        p = p + 1;
    }
    proof {
        lemma_refs_at_end(text@, kw1@, kwv, index@);
    }
}

/// Derives the tables a routine definition reads and writes, resolved
/// against the name index: reads from the `FROM` and `JOIN` patterns,
/// writes from `INSERT INTO`, `UPDATE` and `DELETE FROM`.  Either list is
/// free of duplicates; order is unspecified.
pub fn extract_table_references(definition: &str, index: &NameIndex) -> (r: (
    Vec<String>,
    Vec<String>,
))
    ensures
        string_views(r.0@).no_duplicates(),
        string_views(r.1@).no_duplicates(),
        string_view_set(r.0@) == read_refs(definition@, index@),
        string_view_set(r.1@) == write_refs(definition@, index@),
{
    let text = str_to_chars(definition);
    let mut reads: Vec<String> = Vec::new();
    proof {
        assert(string_views(reads@).no_duplicates());
        assert(string_view_set(reads@) =~= Set::<Seq<char>>::empty());
    }
    scan_kind(text.as_slice(), "from", None, index, &mut reads);
    scan_kind(text.as_slice(), "join", None, index, &mut reads);
    let mut writes: Vec<String> = Vec::new();
    proof {
        assert(string_views(writes@).no_duplicates());
        assert(string_view_set(writes@) =~= Set::<Seq<char>>::empty());
    }
    scan_kind(text.as_slice(), "insert", Some("into"), index, &mut writes);
    scan_kind(text.as_slice(), "update", None, index, &mut writes);
    scan_kind(text.as_slice(), "delete", Some("from"), index, &mut writes);
    proof {
        assert(string_view_set(reads@) =~= read_refs(definition@, index@));
        assert(string_view_set(writes@) =~= write_refs(definition@, index@));
    }
    (reads, writes)
}

} // verus!

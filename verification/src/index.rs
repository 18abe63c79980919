//! A file index that maps paths to tag lists, stored as a JSON object.
//!
//! The index is a sequence of `(path, tags)` entries with distinct paths, in
//! the order in which paths were first added. Adding a path that is already
//! indexed replaces its tags in place.

use vstd::prelude::*;
use crate::text::{
    chars_lt, chars_of, is_ws, lemma_trim_idempotent, lemma_trim_keeps_first, lemma_lex_irreflexive, lemma_lex_total, lemma_lex_transitive, lex_lt, trim,
    trim_bounds, trimmed, views,
};

verus! {

#[verifier::external_type_specification]
#[verifier::external_body]
pub struct ExIoError(std::io::Error);

#[verifier::external_type_specification]
#[verifier::external_body]
pub struct ExJsonError(serde_json::Error);

#[verifier::external_type_specification]
#[verifier::external_body]
pub struct ExSqliteError(rusqlite::Error);

/// Error of an index operation.
#[derive(Debug)]
pub enum IndexerError {
    /// A file system error.
    Io(std::io::Error),
    /// A JSON parsing or serialization error.
    Json(serde_json::Error),
    /// An SQLite database error.
    Sqlite(rusqlite::Error),
}

/// One indexed file: its path and its tags, as character sequences.
pub type EntryView = (Seq<char>, Seq<Seq<char>>);

/// The view of one stored entry.
pub open spec fn entry_view(e: (String, Vec<String>)) -> EntryView {
    (e.0@, views(e.1@))
}

/// The views of stored entries.
pub open spec fn entries_view(v: Seq<(String, Vec<String>)>) -> Seq<EntryView> {
    v.map_values(|e: (String, Vec<String>)| entry_view(e))
}

/// No path occurs twice.
pub open spec fn distinct_keys(es: Seq<EntryView>) -> bool {
    forall|i: int, j: int| 0 <= i < j < es.len() ==> #[trigger] es[i].0 != #[trigger] es[j].0
}

/// Whether `path` is indexed.
pub open spec fn has_key(es: Seq<EntryView>, path: Seq<char>) -> bool {
    exists|i: int| 0 <= i < es.len() && #[trigger] es[i].0 == path
}

/// The entries after recording `tags` for `path`: the tags of an indexed
/// path are replaced in place, a new path is appended.
pub open spec fn insert_entry(es: Seq<EntryView>, path: Seq<char>, tags: Seq<Seq<char>>) -> Seq<EntryView> {
    if has_key(es, path) {
        let i = choose|i: int| 0 <= i < es.len() && #[trigger] es[i].0 == path;
        es.update(i, (path, tags))
    } else {
        es.push((path, tags))
    }
}

/// The entries obtained by recording each pair of `ps` in turn.
pub open spec fn from_pairs(ps: Seq<EntryView>) -> Seq<EntryView>
    decreases ps.len(),
{
    if ps.len() == 0 {
        seq![]
    } else {
        insert_entry(from_pairs(ps.drop_last()), ps.last().0, ps.last().1)
    }
}

/// The index as a map from path to tags; a later entry for a path wins.
pub open spec fn index_map(es: Seq<EntryView>) -> Map<Seq<char>, Seq<Seq<char>>>
    decreases es.len(),
{
    if es.len() == 0 {
        Map::empty()
    } else {
        index_map(es.drop_last()).insert(es.last().0, es.last().1)
    }
}

/// Each tag trimmed of leading and trailing white space.
pub open spec fn trim_all(ts: Seq<Seq<char>>) -> Seq<Seq<char>> {
    ts.map_values(|t: Seq<char>| trim(t))
}

/// Whether `tags` contains every tag of `search`.
pub open spec fn has_all(tags: Seq<Seq<char>>, search: Seq<Seq<char>>) -> bool {
    forall|j: int| 0 <= j < search.len() ==> tags.contains(#[trigger] search[j])
}

/// The paths whose tags contain every tag of `search`, in entry order.
pub open spec fn matching_paths(es: Seq<EntryView>, search: Seq<Seq<char>>) -> Seq<Seq<char>>
    decreases es.len(),
{
    if es.len() == 0 {
        seq![]
    } else {
        let rest = matching_paths(es.drop_last(), search);
        if has_all(es.last().1, search) {
            rest.push(es.last().0)
        } else {
            rest
        }
    }
}

/// What a JSON text parses to as an object from path to list of tags, by
/// `serde_json`: its members in ascending order of key, one per key; `None`
/// where the text is no such object.
pub uninterp spec fn json_index_entries(text: Seq<char>) -> Option<Seq<EntryView>>;

/// The pretty-printed JSON text that `serde_json` writes for an index map.
pub uninterp spec fn json_index_text(m: Map<Seq<char>, Seq<Seq<char>>>) -> Seq<char>;

/// Parses a JSON object from path to tag list with `serde_json::from_str`.
/// The contract names the result `json_index_entries` of the text; what that
/// name is on a given text (the JSON grammar) is not restated here.
#[verifier::external_body]
fn parse_index_json(text: &str) -> (r: Result<Vec<(String, Vec<String>)>, serde_json::Error>)
    ensures
        r is Ok <==> json_index_entries(text@) is Some,
        r matches Ok(v) ==> entries_view(v@) == json_index_entries(text@)->0,
{
    match serde_json::from_str::<std::collections::BTreeMap<String, Vec<String>>>(text) {
        Ok(m) => Ok(m.into_iter().collect()),
        Err(e) => Err(e),
    }
}

/// Whether a text starts with the `{` that opens a JSON object.
pub open spec fn opens_object(t: Seq<char>) -> bool {
    t.len() > 0 && t[0] == '{'
}

/// Every key comes before the next in code-point order.
pub open spec fn keys_ascending(ps: Seq<EntryView>) -> bool {
    forall|i: int, j: int| 0 <= i < j < ps.len() ==> lex_lt(#[trigger] ps[i].0, #[trigger] ps[j].0)
}

/// Writes the index map of `entries` as pretty-printed JSON with
/// `serde_json::to_string_pretty`, over a `BTreeMap` from path to tags.
///
/// The contract names the text `json_index_text` of the map and states three
/// facts of it. Serialization succeeds: it fails only where a `Serialize`
/// impl fails or a map key is no string, and string keys with lists of
/// strings written into memory do neither. The text opens the JSON object
/// with its opening brace. Parsing it back into a `BTreeMap` by `serde_json::from_str`
/// gives the same map, its members in ascending order of key (the order of
/// `String`, which is code-point order): every path and tag is written as an
/// escaped JSON string that the parser reads back to the same characters.
/// What the text is character by character is not restated.
#[verifier::external_body]
fn render_index_json(entries: &Vec<(String, Vec<String>)>) -> (r: Result<String, serde_json::Error>)
    ensures
        r is Ok,
        r matches Ok(t) ==> t@ == json_index_text(index_map(entries_view(entries@))),
        r matches Ok(t) ==> opens_object(t@),
        r matches Ok(t) ==> json_index_entries(t@) is Some,
        r matches Ok(t) ==> keys_ascending(json_index_entries(t@)->0),
        r matches Ok(t) ==> index_map(json_index_entries(t@)->0) == index_map(entries_view(entries@)),
{
    let m: std::collections::BTreeMap<&String, &Vec<String>> = entries.iter().map(|e| (&e.0, &e.1)).collect();
    serde_json::to_string_pretty(&m)
}

/// The index loaded from the content of the JSON file: `None` when the file
/// is missing, white space only when it is empty. `None` as result means the
/// text is no JSON index.
pub open spec fn loaded(content: Option<Seq<char>>) -> Option<Seq<EntryView>> {
    match content {
        None => Some(seq![]),
        Some(c) => if trim(c).len() == 0 {
            Some(seq![])
        } else {
            match json_index_entries(c) {
                None => None,
                Some(ps) => Some(from_pairs(ps)),
            }
        },
    }
}

/// Position of `path` among the entries.
fn find_path(data: &Vec<(String, Vec<String>)>, path: &String) -> (r: Option<usize>)
    ensures
        r matches Some(i) ==> i < data@.len() && entries_view(data@)[i as int].0 == path@,
        r is None ==> !has_key(entries_view(data@), path@),
{
    let mut i: usize = 0;
    while i < data.len()
        invariant
            i <= data@.len(),
            forall|k: int| 0 <= k < i ==> #[trigger] entries_view(data@)[k].0 != path@,
        decreases data@.len() - i,
    {
        if data[i].0 == *path {
            return Some(i);
        }
        i = i + 1;
    }
    None
}

/// Records `tags` for `path` in `data`.
fn insert_into(data: &mut Vec<(String, Vec<String>)>, path: String, tags: Vec<String>)
    requires
        distinct_keys(entries_view(old(data)@)),
    ensures
        entries_view(final(data)@) == insert_entry(entries_view(old(data)@), path@, views(tags@)),
        distinct_keys(entries_view(final(data)@)),
{
    let ghost es = entries_view(data@);
    let ghost pv = path@;
    let ghost tv = views(tags@);
    match find_path(data, &path) {
        Some(i) => {
            proof {
                let j = choose|j: int| 0 <= j < es.len() && #[trigger] es[j].0 == pv;
                assert(j == i as int);
            }
            data[i] = (path, tags);
            assert(entries_view(data@) =~= es.update(i as int, (pv, tv)));
        },
        None => {
            data.push((path, tags));
            assert(entries_view(data@) =~= es.push((pv, tv)));
        },
    }
}

/// Each string trimmed of leading and trailing white space.
pub fn trim_each(tags: &Vec<String>) -> (r: Vec<String>)
    ensures
        views(r@) == trim_all(views(tags@)),
{
    let mut r: Vec<String> = Vec::new();
    let mut i: usize = 0;
    while i < tags.len()
        invariant
            i <= tags@.len(),
            views(r@) == trim_all(views(tags@)).subrange(0, i as int),
        decreases tags@.len() - i,
    {
        let t = trimmed(tags[i].as_str());
        let ghost old_r = r@;
        let ghost tv = t@;
        assert(views(tags@)[i as int] == tags@[i as int]@);
        assert(tv == trim_all(views(tags@))[i as int]);
        r.push(t);
        assert(views(r@) =~= views(old_r).push(tv));
        assert(views(r@) =~= trim_all(views(tags@)).subrange(0, i + 1));
        i = i + 1;
    }
    assert(trim_all(views(tags@)).subrange(0, tags@.len() as int) =~= trim_all(views(tags@)));
    r
}

/// Whether `tags` contains `t`.
fn contains_tag(tags: &Vec<String>, t: &String) -> (r: bool)
    ensures
        r == views(tags@).contains(t@),
{
    let mut i: usize = 0;
    while i < tags.len()
        invariant
            i <= tags@.len(),
            forall|k: int| 0 <= k < i ==> #[trigger] views(tags@)[k] != t@,
        decreases tags@.len() - i,
    {
        if tags[i] == *t {
            assert(views(tags@)[i as int] == t@);
            return true;
        }
        i = i + 1;
    }
    false
}

/// Whether `tags` contains every tag of `search`.
fn contains_all(tags: &Vec<String>, search: &Vec<String>) -> (r: bool)
    ensures
        r == has_all(views(tags@), views(search@)),
{
    let mut j: usize = 0;
    while j < search.len()
        invariant
            j <= search@.len(),
            forall|k: int| 0 <= k < j ==> views(tags@).contains(#[trigger] views(search@)[k]),
        decreases search@.len() - j,
    {
        if !contains_tag(tags, &search[j]) {
            assert(!views(tags@).contains(views(search@)[j as int]));
            return false;
        }
        j = j + 1;
    }
    true
}

/// 1 when `tags` holds `t`, else 0.
pub open spec fn has_tag(tags: Seq<Seq<char>>, t: Seq<char>) -> nat {
    if tags.contains(t) {
        1
    } else {
        0
    }
}

/// The number of files whose tags hold `t`.
pub open spec fn files_with_tag(es: Seq<EntryView>, t: Seq<char>) -> nat
    decreases es.len(),
{
    if es.len() == 0 {
        0
    } else {
        files_with_tag(es.drop_last(), t) + has_tag(es.last().1, t)
    }
}

/// The views of `(tag, count)` pairs.
pub open spec fn counts_view(v: Seq<(String, usize)>) -> Seq<(Seq<char>, nat)> {
    v.map_values(|e: (String, usize)| (e.0@, e.1 as nat))
}

/// `r` lists, in strictly ascending order, exactly the tags `t` with
/// `f(t) > 0`, each with its count `f(t)`.
pub open spec fn is_tally(r: Seq<(Seq<char>, nat)>, f: spec_fn(Seq<char>) -> nat) -> bool {
    &&& forall|i: int, j: int| 0 <= i < j < r.len() ==> lex_lt(#[trigger] r[i].0, #[trigger] r[j].0)
    &&& forall|i: int| 0 <= i < r.len() ==> #[trigger] r[i].1 == f(r[i].0) && r[i].1 > 0
    &&& forall|t: Seq<char>| #[trigger] f(t) > 0 ==> exists|i: int| 0 <= i < r.len() && #[trigger] r[i].0 == t
}

proof fn lemma_files_with_tag_bound(es: Seq<EntryView>, t: Seq<char>)
    ensures
        files_with_tag(es, t) <= es.len(),
    decreases es.len(),
{
    if es.len() > 0 {
        lemma_files_with_tag_bound(es.drop_last(), t);
    }
}

proof fn lemma_contains_push(s: Seq<Seq<char>>, a: Seq<char>, x: Seq<char>)
    ensures
        s.push(a).contains(x) <==> (s.contains(x) || x == a),
{
    if s.contains(x) {
        let k = choose|k: int| 0 <= k < s.len() && s[k] == x;
        assert(s.push(a)[k] == x);
    }
    if x == a {
        assert(s.push(a)[s.len() as int] == x);
    }
    if s.push(a).contains(x) && x != a {
        let k = choose|k: int| 0 <= k < s.push(a).len() && s.push(a)[k] == x;
        assert(s[k] == x);
    }
}

/// Whether `tags[..j]` holds `t`.
fn contains_tag_before(tags: &Vec<String>, j: usize, t: &String) -> (r: bool)
    requires
        j <= tags@.len(),
    ensures
        r == views(tags@).subrange(0, j as int).contains(t@),
{
    let ghost pre = views(tags@).subrange(0, j as int);
    let mut i: usize = 0;
    while i < j
        invariant
            i <= j <= tags@.len(),
            pre == views(tags@).subrange(0, j as int),
            forall|k: int| 0 <= k < i ==> #[trigger] pre[k] != t@,
        decreases j - i,
    {
        assert(pre[i as int] == tags@[i as int]@);
        if tags[i] == *t {
            assert(pre[i as int] == t@);
            return true;
        }
        i = i + 1;
    }
    false
}

/// Counts one more occurrence of `tag` in a tally.
fn bump_tag(
    counts: &mut Vec<(String, usize)>,
    tag: &String,
    Ghost(f): Ghost<spec_fn(Seq<char>) -> nat>,
    Ghost(g): Ghost<spec_fn(Seq<char>) -> nat>,
)
    requires
        is_tally(counts_view(old(counts)@), f),
        f(tag@) < usize::MAX,
        forall|x: Seq<char>| #[trigger] g(x) == if x == tag@ { f(x) + 1 } else { f(x) },
    ensures
        is_tally(counts_view(final(counts)@), g),
{
    let ghost r = counts_view(counts@);
    let ghost t = tag@;
    let tc = chars_of(tag.as_str());
    let mut k: usize = 0;
    while k < counts.len() && chars_lt(&chars_of(counts[k].0.as_str()), &tc)
        invariant
            k <= counts@.len(),
            r == counts_view(counts@),
            tc@ == t,
            forall|i: int| 0 <= i < k ==> lex_lt(#[trigger] r[i].0, t),
        decreases counts@.len() - k,
    {
        k = k + 1;
    }
    if k < counts.len() && counts[k].0 == *tag {
        assert(r[k as int].1 == f(t));
        let c = counts[k].1;
        let name = counts[k].0.clone();
        counts[k] = (name, c + 1);
        let ghost r2 = counts_view(counts@);
        assert(r2 =~= r.update(k as int, (t, (c + 1) as nat)));
        assert forall|x: Seq<char>| #[trigger] g(x) > 0 implies exists|i: int| 0 <= i < r2.len() && #[trigger] r2[i].0 == x by {
            if x != t {
                assert(f(x) > 0);
                let i = choose|i: int| 0 <= i < r.len() && #[trigger] r[i].0 == x;
                assert(r2[i].0 == x);
            } else {
                assert(r2[k as int].0 == x);
            }
        }
        assert forall|i: int| 0 <= i < r2.len() implies #[trigger] r2[i].1 == g(r2[i].0) && r2[i].1 > 0 by {
            if i != k {
                assert(r[i].1 == f(r[i].0));
                if r[i].0 == t {
                    if i < k {
                        assert(lex_lt(r[i].0, r[k as int].0));
                    } else {
                        assert(lex_lt(r[k as int].0, r[i].0));
                    }
                    lemma_lex_irreflexive(t);
                }
            }
        }
    } else {
        proof {
            assert forall|i: int| 0 <= i < r.len() implies #[trigger] r[i].0 != t by {
                if i < k {
                    lemma_lex_irreflexive(t);
                } else {
                    if r[k as int].0 != t {
                        lemma_lex_total(r[k as int].0, t);
                    }
                    if i > k {
                        lemma_lex_transitive(t, r[k as int].0, r[i].0);
                    }
                    lemma_lex_irreflexive(t);
                }
            }
            if f(t) > 0 {
                let i = choose|i: int| 0 <= i < r.len() && #[trigger] r[i].0 == t;
                assert(r[i].0 == t);
            }
        }
        let name = tag.clone();
        counts.insert(k, (name, 1));
        let ghost r2 = counts_view(counts@);
        assert(r2 =~= r.insert(k as int, (t, 1nat)));
        assert forall|i: int, j: int| 0 <= i < j < r2.len() implies lex_lt(#[trigger] r2[i].0, #[trigger] r2[j].0) by {
            if j < k {
            } else if j == k {
                assert(lex_lt(r[i].0, t));
            } else if i < k {
                assert(lex_lt(r[i].0, t));
                assert(r2[j].0 == r[j - 1].0);
                if k < r.len() {
                    if r[k as int].0 != t {
                        lemma_lex_total(r[k as int].0, t);
                    }
                    if j - 1 > k {
                        lemma_lex_transitive(t, r[k as int].0, r[j - 1].0);
                    }
                }
                lemma_lex_transitive(r[i].0, t, r[j - 1].0);
            } else if i == k {
                assert(r2[j].0 == r[j - 1].0);
                if r[k as int].0 != t {
                    lemma_lex_total(r[k as int].0, t);
                }
                if j - 1 > k {
                    lemma_lex_transitive(t, r[k as int].0, r[j - 1].0);
                }
            } else {
                assert(r2[i].0 == r[i - 1].0);
                assert(r2[j].0 == r[j - 1].0);
            }
        }
        assert forall|x: Seq<char>| #[trigger] g(x) > 0 implies exists|i: int| 0 <= i < r2.len() && #[trigger] r2[i].0 == x by {
            if x != t {
                assert(f(x) > 0);
                let i = choose|i: int| 0 <= i < r.len() && #[trigger] r[i].0 == x;
                if i < k {
                    assert(r2[i].0 == x);
                } else {
                    assert(r2[i + 1].0 == x);
                }
            } else {
                assert(r2[k as int].0 == x);
            }
        }
        assert forall|i: int| 0 <= i < r2.len() implies #[trigger] r2[i].1 == g(r2[i].0) && r2[i].1 > 0 by {
            if i < k {
                assert(r2[i] == r[i]);
            } else if i > k {
                assert(r2[i] == r[i - 1]);
            }
        }
    }
}

/// Storage of the index in a JSON file.
pub struct JsonStorage {
    file_path: String,
    data: Vec<(String, Vec<String>)>,
}

impl View for JsonStorage {
    type V = Seq<EntryView>;

    closed spec fn view(&self) -> Seq<EntryView> {
        entries_view(self.data@)
    }
}

impl JsonStorage {
    #[verifier::type_invariant]
    spec fn keys_distinct(self) -> bool {
        distinct_keys(entries_view(self.data@))
    }

    /// Opens the index kept in the JSON file at `path`, given that file's
    /// content (`None` when the file does not exist). A missing or blank file
    /// gives an empty index; text that is no JSON object from path to tag
    /// list is an error.
    pub fn new(path: &str, content: Option<&str>) -> (r: Result<JsonStorage, IndexerError>)
        ensures
            loaded(match content { Some(c) => Some(c@), None => None }) matches Some(es) ==> (r matches Ok(s) && s@ == es && s.path() == path@),
            r matches Ok(s) ==> distinct_keys(s@),
            loaded(match content { Some(c) => Some(c@), None => None }) is None ==> (r matches Err(e) && e is Json),
    {
        let file_path = String::from_str(path);
        match content {
            None => Ok(JsonStorage { file_path, data: Vec::new() }),
            Some(c) => {
                let v = chars_of(c);
                let (lo, hi) = trim_bounds(&v);
                if lo == hi {
                    return Ok(JsonStorage { file_path, data: Vec::new() });
                }
                match parse_index_json(c) {
                    Err(e) => Err(IndexerError::Json(e)),
                    Ok(parsed) => {
                        let ghost ps = entries_view(parsed@);
                        let n = parsed.len();
                        let mut rest = parsed;
                        let mut data: Vec<(String, Vec<String>)> = Vec::new();
                        let mut k: usize = 0;
                        while rest.len() > 0
                            invariant
                                k <= ps.len(),
                                rest@.len() + k == ps.len(),
                                ps.len() == n,
                                entries_view(rest@) == ps.subrange(k as int, ps.len() as int),
                                entries_view(data@) == from_pairs(ps.subrange(0, k as int)),
                                distinct_keys(entries_view(data@)),
                            decreases rest@.len(),
                        {
                            let ghost before = rest@;
                            let (p, t) = rest.remove(0);
                            assert(entries_view(before)[0] == ps[k as int]);
                            assert(entry_view(before[0]) == ps[k as int]);
                            assert(rest@ =~= before.subrange(1, before.len() as int));
                            assert forall|i: int| 0 <= i < rest@.len() implies #[trigger] entries_view(rest@)[i] == ps[k + 1 + i] by {
                                assert(entries_view(before)[i + 1] == ps.subrange(k as int, ps.len() as int)[i + 1]);
                            }
                            assert(entries_view(rest@) =~= ps.subrange(k + 1, ps.len() as int));
                            assert(ps.subrange(0, k + 1).drop_last() =~= ps.subrange(0, k as int));
                            insert_into(&mut data, p, t);
                            k = k + 1;
                        }
                        assert(ps.subrange(0, ps.len() as int) =~= ps);
                        Ok(JsonStorage { file_path, data })
                    },
                }
            },
        }
    }

    /// Records `tags`, each trimmed of white space, as the tags of `path`,
    /// replacing any it had, and returns the JSON text of the whole index,
    /// which is to be written to the file.
    pub fn add(&mut self, path: &str, tags: Vec<String>) -> (r: Result<String, IndexerError>)
        ensures
            final(self)@ == insert_entry(old(self)@, path@, trim_all(views(tags@))),
            final(self).path() == old(self).path(),
            distinct_keys(old(self)@),
            distinct_keys(final(self)@),
            r matches Ok(t) && t@ == json_index_text(index_map(final(self)@)),
            r matches Ok(t) ==> (loaded(Some(t@)) matches Some(es) && index_map(es) == index_map(final(self)@)),
    {
        proof {
            use_type_invariant(&*self);
        }
        let cleaned = trim_each(&tags);
        let mut data: Vec<(String, Vec<String>)> = Vec::new();
        std::mem::swap(&mut data, &mut self.data);
        insert_into(&mut data, String::from_str(path), cleaned);
        self.data = data;
        match render_index_json(&self.data) {
            Ok(text) => {
                proof {
                    let ps = json_index_entries(text@)->0;
                    assert(!is_ws(text@[0]));
                    lemma_trim_keeps_first(text@);
                    lemma_ascending_distinct(ps);
                    lemma_from_pairs_distinct(ps);
                }
                Ok(text)
            },
            Err(e) => Err(IndexerError::Json(e)),
        }
    }

    /// The paths whose tags contain every one of `tags`, each trimmed of
    /// white space, in the order in which the paths were first indexed.
    pub fn get(&self, tags: Vec<String>) -> (r: Result<Vec<String>, IndexerError>)
        ensures
            r matches Ok(v) && views(v@) == matching_paths(self@, trim_all(views(tags@))),
            r matches Ok(v) ==> views(v@).no_duplicates(),
            distinct_keys(self@),
    {
        proof {
            use_type_invariant(self);
            law_get_no_duplicates(self@, trim_all(views(tags@)));
        }
        let search = trim_each(&tags);
        let mut results: Vec<String> = Vec::new();
        let mut i: usize = 0;
        while i < self.data.len()
            invariant
                i <= self.data@.len(),
                views(search@) == trim_all(views(tags@)),
                views(results@) == matching_paths(self@.subrange(0, i as int), views(search@)),
            decreases self.data@.len() - i,
        {
            let ghost es = self@;
            assert(es.subrange(0, i + 1).drop_last() =~= es.subrange(0, i as int));
            assert(es[i as int] == entry_view(self.data@[i as int]));
            if contains_all(&self.data[i].1, &search) {
                let p = self.data[i].0.clone();
                let ghost old_r = results@;
                results.push(p);
                assert(views(results@) =~= views(old_r).push(p@));
            }
            i = i + 1;
        }
        assert(self@.subrange(0, self.data@.len() as int) =~= self@);
        Ok(results)
    }

    /// Every tag of the index with the number of files that carry it, in
    /// ascending order of tag.
    pub fn tags(&self) -> (r: Result<Vec<(String, usize)>, IndexerError>)
        ensures
            r matches Ok(v) && is_tally(counts_view(v@), |t: Seq<char>| files_with_tag(self@, t)),
            distinct_keys(self@),
    {
        proof {
            use_type_invariant(self);
        }
        let ghost es = self@;
        let n = self.data.len();
        let mut counts: Vec<(String, usize)> = Vec::new();
        let mut i: usize = 0;
        assert(is_tally(counts_view(counts@), |x: Seq<char>| files_with_tag(es.subrange(0, 0), x)));
        while i < self.data.len()
            invariant
                es == self@,
                i <= es.len(),
                es.len() == self.data@.len(),
                n == es.len(),
                is_tally(counts_view(counts@), |x: Seq<char>| files_with_tag(es.subrange(0, i as int), x)),
            decreases es.len() - i,
        {
            let tags = &self.data[i].1;
            let ghost et = es[i as int].1;
            assert(et == views(tags@));
            let ghost pre = es.subrange(0, i as int);
            assert(es.subrange(0, i + 1).drop_last() =~= pre);
            let mut j: usize = 0;
            assert(et.subrange(0, 0) =~= Seq::<Seq<char>>::empty());
            let ghost f0 = |x: Seq<char>| files_with_tag(pre, x) + has_tag(et.subrange(0, 0), x);
            let ghost fp = |x: Seq<char>| files_with_tag(es.subrange(0, i as int), x);
            assert(f0 =~= fp);
            assert(is_tally(counts_view(counts@), |x: Seq<char>| files_with_tag(pre, x) + has_tag(et.subrange(0, 0), x)));
            while j < tags.len()
                invariant
                    j <= et.len(),
                    et == views(tags@),
                    pre.len() == i,
                    i < n,
                    is_tally(counts_view(counts@), |x: Seq<char>| files_with_tag(pre, x) + has_tag(et.subrange(0, j as int), x)),
                decreases et.len() - j,
            {
                let ghost f = |x: Seq<char>| files_with_tag(pre, x) + has_tag(et.subrange(0, j as int), x);
                let ghost g = |x: Seq<char>| files_with_tag(pre, x) + has_tag(et.subrange(0, j + 1), x);
                let ghost t = tags@[j as int]@;
                assert(et[j as int] == t);
                assert(et.subrange(0, j + 1) =~= et.subrange(0, j as int).push(t));
                assert forall|x: Seq<char>| #[trigger] g(x) == if x == t && !et.subrange(0, j as int).contains(t) { f(x) + 1 } else { f(x) } by {
                    lemma_contains_push(et.subrange(0, j as int), t, x);
                }
                if !contains_tag_before(tags, j, &tags[j]) {
                    proof {
                        lemma_files_with_tag_bound(pre, t);
                    }
                    assert(has_tag(et.subrange(0, j as int), t) == 0);
                    bump_tag(&mut counts, &tags[j], Ghost(f), Ghost(g));
                } else {
                    assert(f =~= g);
                }
                j = j + 1;
            }
            assert(et.subrange(0, et.len() as int) =~= et);
            let ghost fi = |x: Seq<char>| files_with_tag(es.subrange(0, i + 1), x);
            let ghost fj = |x: Seq<char>| files_with_tag(pre, x) + has_tag(et.subrange(0, et.len() as int), x);
            assert(fi =~= fj);
            i = i + 1;
        }
        assert(es.subrange(0, es.len() as int) =~= es);
        Ok(counts)
    }

    /// The path of the JSON file.
    pub closed spec fn path(&self) -> Seq<char> {
        self.file_path@
    }

    /// The path of the JSON file.
    pub fn file_path(&self) -> (r: &String)
        ensures
            r@ == self.path(),
    {
        &self.file_path
    }
}

} // verus!

verus! {

proof fn lemma_matching_paths_contains(es: Seq<EntryView>, search: Seq<Seq<char>>, p: Seq<char>)
    ensures
        matching_paths(es, search).contains(p) <==> exists|i: int|
            0 <= i < es.len() && #[trigger] es[i].0 == p && has_all(es[i].1, search),
    decreases es.len(),
{
    if es.len() > 0 {
        let init = es.drop_last();
        lemma_matching_paths_contains(init, search, p);
        let rest = matching_paths(init, search);
        if matching_paths(es, search).contains(p) {
            if has_all(es.last().1, search) && es.last().0 == p {
                assert(es[es.len() - 1].0 == p);
            } else {
                if has_all(es.last().1, search) {
                    let k = choose|k: int| 0 <= k < rest.push(es.last().0).len() && rest.push(es.last().0)[k] == p;
                    assert(k < rest.len());
                    assert(rest[k] == p);
                }
                let i = choose|i: int| 0 <= i < init.len() && #[trigger] init[i].0 == p && has_all(init[i].1, search);
                assert(es[i] == init[i]);
            }
        } else {
            assert forall|i: int| 0 <= i < es.len() && #[trigger] es[i].0 == p implies !has_all(es[i].1, search) by {
                if i < es.len() - 1 {
                    assert(es[i] == init[i]);
                    if has_all(es[i].1, search) {
                        assert(rest.contains(p));
                        if has_all(es.last().1, search) {
                            let k = choose|k: int| 0 <= k < rest.len() && rest[k] == p;
                            assert(rest.push(es.last().0)[k] == p);
                        }
                    }
                } else {
                    if has_all(es[i].1, search) {
                        assert(rest.push(es.last().0)[rest.len() as int] == p);
                    }
                }
            }
        }
    }
}

proof fn lemma_insert_entry_shape(es: Seq<EntryView>, p: Seq<char>, v: Seq<Seq<char>>)
    requires
        distinct_keys(es),
    ensures
        distinct_keys(insert_entry(es, p, v)),
        has_key(insert_entry(es, p, v), p),
        forall|i: int| 0 <= i < insert_entry(es, p, v).len() && #[trigger] insert_entry(es, p, v)[i].0 == p
            ==> insert_entry(es, p, v)[i].1 == v,
        forall|i: int| 0 <= i < es.len() && #[trigger] es[i].0 != p ==> insert_entry(es, p, v)[i] == es[i],
        insert_entry(es, p, v).len() == (if has_key(es, p) { es.len() } else { es.len() + 1 }),
{
    let ins = insert_entry(es, p, v);
    if has_key(es, p) {
        let j = choose|j: int| 0 <= j < es.len() && #[trigger] es[j].0 == p;
        assert(ins[j].0 == p);
    } else {
        assert(ins[es.len() as int].0 == p);
    }
}

proof fn lemma_index_map_distinct(es: Seq<EntryView>)
    requires
        distinct_keys(es),
    ensures
        forall|k: Seq<char>| #[trigger] index_map(es).dom().contains(k) <==> has_key(es, k),
        forall|i: int| 0 <= i < es.len() ==> index_map(es)[#[trigger] es[i].0] == es[i].1,
    decreases es.len(),
{
    if es.len() > 0 {
        let init = es.drop_last();
        assert forall|i: int, j: int| 0 <= i < j < init.len() implies #[trigger] init[i].0 != #[trigger] init[j].0 by {
            assert(es[i] == init[i] && es[j] == init[j]);
        }
        lemma_index_map_distinct(init);
        assert(index_map(es) == index_map(init).insert(es.last().0, es.last().1));
        assert forall|k: Seq<char>| #[trigger] index_map(es).dom().contains(k) <==> has_key(es, k) by {
            assert(index_map(init).dom().contains(k) <==> has_key(init, k));
            if has_key(init, k) {
                let i = choose|i: int| 0 <= i < init.len() && #[trigger] init[i].0 == k;
                assert(es[i].0 == k);
            }
            if has_key(es, k) && k != es.last().0 {
                let i = choose|i: int| 0 <= i < es.len() && #[trigger] es[i].0 == k;
                assert(init[i].0 == k);
            }
            if k == es.last().0 {
                assert(es[es.len() - 1].0 == k);
            }
        }
        assert forall|i: int| 0 <= i < es.len() implies index_map(es)[#[trigger] es[i].0] == es[i].1 by {
            if i < es.len() - 1 {
                assert(es[i] == init[i]);
                assert(es[i].0 != es[es.len() - 1].0);
            }
        }
    }
}

/// A path that was just given tags is found by a search exactly when its new
/// tags hold every searched tag.
pub proof fn law_get_finds_added(es: Seq<EntryView>, path: Seq<char>, tags: Seq<Seq<char>>, search: Seq<Seq<char>>)
    requires
        distinct_keys(es),
    ensures
        matching_paths(insert_entry(es, path, tags), search).contains(path) <==> has_all(tags, search),
{
    let ins = insert_entry(es, path, tags);
    lemma_insert_entry_shape(es, path, tags);
    lemma_matching_paths_contains(ins, search, path);
    if has_all(tags, search) {
        let i = choose|i: int| 0 <= i < ins.len() && #[trigger] ins[i].0 == path;
        assert(ins[i].1 == tags);
    }
}

/// Adding tags to a path changes the index at that path only: the map from
/// path to tags is the old map with the path set to its new tags.
pub proof fn law_add_changes_only_path(es: Seq<EntryView>, path: Seq<char>, tags: Seq<Seq<char>>)
    requires
        distinct_keys(es),
    ensures
        index_map(insert_entry(es, path, tags)) == index_map(es).insert(path, tags),
{
    let ins = insert_entry(es, path, tags);
    lemma_insert_entry_shape(es, path, tags);
    lemma_index_map_distinct(es);
    lemma_index_map_distinct(ins);
    let m1 = index_map(ins);
    let m2 = index_map(es).insert(path, tags);
    assert forall|k: Seq<char>| #[trigger] m1.dom().contains(k) <==> m2.dom().contains(k) by {
        if k != path && has_key(es, k) {
            let i = choose|i: int| 0 <= i < es.len() && #[trigger] es[i].0 == k;
            assert(ins[i].0 == k);
        }
        if k != path && has_key(ins, k) {
            let i = choose|i: int| 0 <= i < ins.len() && #[trigger] ins[i].0 == k;
            if i < es.len() {
                if es[i].0 == path {
                    assert(ins[i].0 == path) by {
                        let j = choose|j: int| 0 <= j < es.len() && #[trigger] es[j].0 == path;
                        assert(j == i);
                    }
                } else {
                    assert(es[i].0 == k);
                }
            }
        }
    }
    assert forall|k: Seq<char>| m1.dom().contains(k) implies #[trigger] m1[k] == m2[k] by {
        if k == path {
            let i = choose|i: int| 0 <= i < ins.len() && #[trigger] ins[i].0 == path;
            assert(m1[ins[i].0] == ins[i].1);
        } else {
            let i = choose|i: int| 0 <= i < es.len() && #[trigger] es[i].0 == k;
            assert(ins[i] == es[i]);
            assert(m1[ins[i].0] == ins[i].1);
        }
    }
    assert(m1 =~= m2);
}

/// Giving a path the same tags twice is the same as giving them once.
pub proof fn law_add_idempotent(es: Seq<EntryView>, path: Seq<char>, tags: Seq<Seq<char>>)
    requires
        distinct_keys(es),
    ensures
        insert_entry(insert_entry(es, path, tags), path, tags) == insert_entry(es, path, tags),
{
    let ins = insert_entry(es, path, tags);
    lemma_insert_entry_shape(es, path, tags);
    let j = choose|j: int| 0 <= j < ins.len() && #[trigger] ins[j].0 == path;
    assert(ins[j] == (path, tags));
    assert(ins.update(j, (path, tags)) =~= ins);
}

/// A search lists each path at most once.
pub proof fn law_get_no_duplicates(es: Seq<EntryView>, search: Seq<Seq<char>>)
    requires
        distinct_keys(es),
    ensures
        matching_paths(es, search).no_duplicates(),
    decreases es.len(),
{
    if es.len() > 0 {
        let init = es.drop_last();
        assert forall|i: int, j: int| 0 <= i < j < init.len() implies #[trigger] init[i].0 != #[trigger] init[j].0 by {
            assert(es[i] == init[i] && es[j] == init[j]);
        }
        law_get_no_duplicates(init, search);
        let rest = matching_paths(init, search);
        if has_all(es.last().1, search) {
            lemma_matching_paths_contains(init, search, es.last().0);
            if rest.contains(es.last().0) {
                let i = choose|i: int| 0 <= i < init.len() && #[trigger] init[i].0 == es.last().0 && has_all(init[i].1, search);
                assert(es[i] == init[i]);
                assert(es[i].0 != es[es.len() - 1].0);
            }
            let r2 = rest.push(es.last().0);
            assert forall|i: int, j: int| 0 <= i < r2.len() && 0 <= j < r2.len() && i != j implies r2[i] != r2[j] by {
                if i == rest.len() {
                    assert(rest[j] == r2[j]);
                } else if j == rest.len() {
                    assert(rest[i] == r2[i]);
                }
            }
        }
    }
}

/// A search finds a path exactly when the path is indexed and its tags hold
/// every searched tag.
pub proof fn law_get_by_map(es: Seq<EntryView>, search: Seq<Seq<char>>, p: Seq<char>)
    requires
        distinct_keys(es),
    ensures
        matching_paths(es, search).contains(p) <==> (index_map(es).dom().contains(p) && has_all(index_map(es)[p], search)),
{
    lemma_matching_paths_contains(es, search, p);
    lemma_index_map_distinct(es);
    if index_map(es).dom().contains(p) {
        let i = choose|i: int| 0 <= i < es.len() && #[trigger] es[i].0 == p;
        assert(index_map(es)[es[i].0] == es[i].1);
    }
    if matching_paths(es, search).contains(p) {
        let i = choose|i: int| 0 <= i < es.len() && #[trigger] es[i].0 == p && has_all(es[i].1, search);
        assert(index_map(es)[es[i].0] == es[i].1);
        assert(has_key(es, p));
    }
}

/// Giving tags to one path does not change whether a search finds another.
pub proof fn law_get_other_path_unchanged(
    es: Seq<EntryView>,
    path: Seq<char>,
    tags: Seq<Seq<char>>,
    other: Seq<char>,
    search: Seq<Seq<char>>,
)
    requires
        distinct_keys(es),
        other != path,
    ensures
        matching_paths(insert_entry(es, path, tags), search).contains(other) <==> matching_paths(es, search).contains(other),
{
    lemma_insert_entry_shape(es, path, tags);
    law_add_changes_only_path(es, path, tags);
    law_get_by_map(es, search, other);
    law_get_by_map(insert_entry(es, path, tags), search, other);
}

/// Searching for more tags never finds more paths: a path found by a search
/// is found by every search whose tags all occur in it.
pub proof fn law_get_monotone(es: Seq<EntryView>, wide: Seq<Seq<char>>, narrow: Seq<Seq<char>>, p: Seq<char>)
    requires
        forall|j: int| 0 <= j < wide.len() ==> narrow.contains(#[trigger] wide[j]),
    ensures
        matching_paths(es, narrow).contains(p) ==> matching_paths(es, wide).contains(p),
{
    lemma_matching_paths_contains(es, narrow, p);
    lemma_matching_paths_contains(es, wide, p);
    if matching_paths(es, narrow).contains(p) {
        let i = choose|i: int| 0 <= i < es.len() && #[trigger] es[i].0 == p && has_all(es[i].1, narrow);
        assert forall|j: int| 0 <= j < wide.len() implies es[i].1.contains(#[trigger] wide[j]) by {
            let k = choose|k: int| 0 <= k < narrow.len() && narrow[k] == wide[j];
            assert(es[i].1.contains(narrow[k]));
        }
    }
}

/// Trimming the searched tags beforehand changes nothing: the search trims
/// them, and a trimmed tag trims to itself.
pub proof fn law_get_trim_invariant(es: Seq<EntryView>, search: Seq<Seq<char>>)
    ensures
        matching_paths(es, trim_all(trim_all(search))) == matching_paths(es, trim_all(search)),
{
    assert forall|j: int| 0 <= j < search.len() implies #[trigger] trim(trim(search[j])) == trim(search[j]) by {
        lemma_trim_idempotent(search[j]);
    }
    assert(trim_all(trim_all(search)) =~= trim_all(search));
}

/// A search for no tag lists every indexed path.
pub proof fn law_empty_search_lists_all(es: Seq<EntryView>)
    ensures
        matching_paths(es, seq![]) == es.map_values(|e: EntryView| e.0),
    decreases es.len(),
{
    if es.len() > 0 {
        law_empty_search_lists_all(es.drop_last());
        assert(has_all(es.last().1, seq![]));
        assert(es.map_values(|e: EntryView| e.0) =~= es.drop_last().map_values(|e: EntryView| e.0).push(es.last().0));
    } else {
        assert(es.map_values(|e: EntryView| e.0) =~= seq![]);
    }
}

proof fn lemma_files_with_tag_update(es: Seq<EntryView>, i: int, e: EntryView, t: Seq<char>)
    requires
        0 <= i < es.len(),
    ensures
        files_with_tag(es.update(i, e), t) + has_tag(es[i].1, t) == files_with_tag(es, t) + has_tag(e.1, t),
    decreases es.len(),
{
    let u = es.update(i, e);
    if i == es.len() - 1 {
        assert(u.drop_last() =~= es.drop_last());
    } else {
        lemma_files_with_tag_update(es.drop_last(), i, e, t);
        assert(u.drop_last() =~= es.drop_last().update(i, e));
    }
}

/// Adding tags to a path changes the number of files that carry a tag by
/// one when the tag is in only one of the path's new and old tag lists.
pub proof fn law_files_with_tag_after_add(es: Seq<EntryView>, path: Seq<char>, tags: Seq<Seq<char>>, t: Seq<char>)
    requires
        distinct_keys(es),
    ensures
        files_with_tag(insert_entry(es, path, tags), t) + (if index_map(es).dom().contains(path) {
            has_tag(index_map(es)[path], t)
        } else {
            0
        }) == files_with_tag(es, t) + has_tag(tags, t),
{
    lemma_index_map_distinct(es);
    if has_key(es, path) {
        let i = choose|i: int| 0 <= i < es.len() && #[trigger] es[i].0 == path;
        assert(index_map(es)[es[i].0] == es[i].1);
        lemma_files_with_tag_update(es, i, (path, tags), t);
    } else {
        assert(es.push((path, tags)).drop_last() =~= es);
    }
}

/// Keys in ascending order are distinct.
proof fn lemma_ascending_distinct(ps: Seq<EntryView>)
    requires
        keys_ascending(ps),
    ensures
        distinct_keys(ps),
{
    assert forall|i: int, j: int| 0 <= i < j < ps.len() implies #[trigger] ps[i].0 != #[trigger] ps[j].0 by {
        assert(lex_lt(ps[i].0, ps[j].0));
        lemma_lex_irreflexive(ps[i].0);
    }
}

/// Recording pairs with distinct keys one by one gives those pairs.
proof fn lemma_from_pairs_distinct(ps: Seq<EntryView>)
    requires
        distinct_keys(ps),
    ensures
        from_pairs(ps) == ps,
    decreases ps.len(),
{
    if ps.len() > 0 {
        let init = ps.drop_last();
        assert forall|i: int, j: int| 0 <= i < j < init.len() implies #[trigger] init[i].0 != #[trigger] init[j].0 by {
            assert(ps[i] == init[i] && ps[j] == init[j]);
        }
        lemma_from_pairs_distinct(init);
        if has_key(init, ps.last().0) {
            let i = choose|i: int| 0 <= i < init.len() && #[trigger] init[i].0 == ps.last().0;
            assert(ps[i] == init[i]);
        }
        assert(init.push(ps.last()) =~= ps);
    }
}

} // verus!

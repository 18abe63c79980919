//! Choice of the index storage from a `TYPE:PATH` setting, and the queries
//! that the SQLite storage runs.

use vstd::prelude::*;
use crate::text::{
    all_ascii, ascii_upper, chars_of, find_char, index_of_from, push_str, string_of_range, to_upper, uppercase,
    views,
};
use crate::index::{trim_all, trim_each};

verus! {

/// The storage back ends.
#[derive(Debug, Clone, Copy, PartialEq, Eq)]
pub enum StorageKind {
    /// A JSON file.
    Json,
    /// An SQLite database.
    Sqlite,
}

/// The storage named by a setting, and the path given to it.
pub struct StorageProvider {
    pub kind: StorageKind,
    pub path: String,
}

/// The message for a setting without `:`.
pub open spec fn missing_colon_message() -> Seq<char> {
    "Invalid index path format. Expected 'TYPE:PATH' (e.g., 'json:index.json')"@
}

/// The message for a storage type that is neither JSON nor SQLite.
pub open spec fn unknown_type_message(t: Seq<char>) -> Seq<char> {
    "Unknown storage type: '"@ + t + "'. Supported: JSON, SQLITE"@
}

/// The back end that a type word selects, given the word in upper case.
pub open spec fn select_kind(upper: Seq<char>, t: Seq<char>, path: Seq<char>) -> Result<(StorageKind, Seq<char>), Seq<char>> {
    if upper == "JSON"@ {
        Ok((StorageKind::Json, path))
    } else if upper == "SQLITE"@ {
        Ok((StorageKind::Sqlite, path))
    } else {
        Err(unknown_type_message(t))
    }
}

/// What a `TYPE:PATH` setting selects: the type is the text before the first
/// `:`, compared without regard to case (after `str::to_uppercase`), and the
/// path is the rest.
pub open spec fn provider_spec(s: Seq<char>) -> Result<(StorageKind, Seq<char>), Seq<char>> {
    let c = index_of_from(s, 0, ':');
    if c >= s.len() {
        Err(missing_colon_message())
    } else {
        let t = s.subrange(0, c);
        select_kind(to_upper(t), t, s.subrange(c + 1, s.len() as int))
    }
}

/// `provider_spec` for an ASCII setting, where upper case is ASCII upper case.
pub open spec fn provider_spec_ascii(s: Seq<char>) -> Result<(StorageKind, Seq<char>), Seq<char>> {
    let c = index_of_from(s, 0, ':');
    if c >= s.len() {
        Err(missing_colon_message())
    } else {
        let t = s.subrange(0, c);
        select_kind(ascii_upper(t), t, s.subrange(c + 1, s.len() as int))
    }
}

/// Parses the configuration string to select the storage back end.
pub fn get_storage_provider(config_str: &str) -> (r: Result<StorageProvider, String>)
    ensures
        match provider_spec(config_str@) {
            Ok((k, p)) => r matches Ok(sp) && sp.kind == k && sp.path@ == p,
            Err(m) => r matches Err(e) && e@ == m,
        },
        all_ascii(config_str@) ==> provider_spec(config_str@) == provider_spec_ascii(config_str@),
{
    let v = chars_of(config_str);
    let c = find_char(&v, 0, ':');
    if c == v.len() {
        return Err(String::from_str(
            "Invalid index path format. Expected 'TYPE:PATH' (e.g., 'json:index.json')",
        ));
    }
    let t = string_of_range(&v, 0, c);
    let path = string_of_range(&v, c + 1, v.len());
    let upper = uppercase(t.as_str());
    let json = String::from_str("JSON");
    let sqlite = String::from_str("SQLITE");
    if upper == json {
        Ok(StorageProvider { kind: StorageKind::Json, path })
    } else if upper == sqlite {
        Ok(StorageProvider { kind: StorageKind::Sqlite, path })
    } else {
        let mut m = String::from_str("Unknown storage type: '");
        push_str(&mut m, t.as_str());
        push_str(&mut m, "'. Supported: JSON, SQLITE");
        Err(m)
    }
}

/// `n` question marks separated by `", "`.
pub open spec fn placeholders(n: nat) -> Seq<char>
    decreases n,
{
    if n == 0 {
        seq![]
    } else if n == 1 {
        "?"@
    } else {
        placeholders((n - 1) as nat) + ", ?"@
    }
}

/// The query for the paths that carry all of `n` tags.
pub open spec fn get_query_text(n: nat) -> Seq<char> {
    "SELECT path FROM file_tags\n             WHERE tag IN ("@ + placeholders(n)
        + ")\n             GROUP BY path\n             HAVING COUNT(DISTINCT tag) = ?"@
}

/// A query for the SQLite storage: its text, the tags bound to its
/// placeholders, and the number of distinct tags a path must carry.
pub struct SqliteQuery {
    pub sql: String,
    pub tags: Vec<String>,
    pub count: i32,
}

/// The query that a search for `tags` runs on the SQLite storage; `None`
/// when no tag is searched for, which finds no file.
pub fn sqlite_get_plan(tags: &Vec<String>) -> (r: Option<SqliteQuery>)
    ensures
        trim_all(views(tags@)).len() == 0 <==> r is None,
        r matches Some(q) ==> {
            &&& views(q.tags@) == trim_all(views(tags@))
            &&& q.sql@ == get_query_text(tags@.len() as nat)
            &&& q.count == tags@.len() as i32
        },
{
    let search = trim_each(tags);
    if search.len() == 0 {
        return None;
    }
    let n = search.len();
    assert(views(search@).len() == search@.len());
    assert(n == tags@.len());
    let mut sql = String::from_str("SELECT path FROM file_tags\n             WHERE tag IN (");
    let ghost prefix = sql@;
    push_str(&mut sql, "?");
    let mut k: usize = 1;
    while k < n
        invariant
            1 <= k <= n,
            sql@ == prefix + placeholders(k as nat),
        decreases n - k,
    {
        push_str(&mut sql, ", ?");
        k = k + 1;
        assert(sql@ =~= prefix + placeholders(k as nat));
    }
    push_str(&mut sql, ")\n             GROUP BY path\n             HAVING COUNT(DISTINCT tag) = ?");
    assert(sql@ =~= get_query_text(tags@.len() as nat));
    let count = #[verifier::truncate] (n as i32);
    Some(SqliteQuery { sql, tags: search, count })
}

} // verus!

//! What goes into the records of a task and what comes out of them.

use crate::convert;
use crate::engine::apply::ActionMark;
use crate::fsutil::Snapshot;
use crate::text;
use vstd::prelude::*;

verus! {

/// The version of the records that this program writes and reads.
pub const SCHEMA_VERSION: i64 = 3;

/// The columns of a file, in the order in which they are read.
pub const FILE_COLUMNS: &'static str =
    "id,rel,name,normal,size,mtime,created,name16,rel16,identity,links,hash,cleanable";

/// No page is longer.
pub const PAGE_LIMIT: usize = 1000;

/// Column names, each with the alias of its table in front.
pub open spec fn qualified(alias: Seq<char>, columns: Seq<Seq<char>>) -> Seq<Seq<char>> {
    Seq::new(columns.len(), |i: int| alias + "."@ + columns[i])
}

/// The columns of a file with the alias of its table, for queries over several tables.
pub fn file_columns_qualified(alias: &str) -> (r: String)
    ensures
        r@ == text::join_with(
            qualified(alias@, text::split_on(FILE_COLUMNS@, ',')),
            ","@,
        ),
{
    let columns = text::split(FILE_COLUMNS, ',');
    let ghost all = text::texts(columns@);
    let mut out: Vec<String> = Vec::new();
    let mut i: usize = 0;
    assert(text::texts(out@) =~= qualified(alias@, all).take(0));
    while i < columns.len()
        invariant
            i <= columns@.len(),
            all == text::texts(columns@),
            text::texts(out@) == qualified(alias@, all).take(i as int),
        decreases columns.len() - i,
    {
        let ghost before = out@;
        let mut s = alias.to_owned();
        s.append(".");
        s.append(columns[i].as_str());
        out.push(s);
        proof {
            text::texts_push(before, s);
            assert(s@ == qualified(alias@, all)[i as int]);
            assert(qualified(alias@, all).take(i + 1) =~= qualified(alias@, all).take(
                i as int,
            ).push(s@));
        }
        i = i + 1;
    }
    assert(qualified(alias@, all).take(i as int) =~= qualified(alias@, all));
    text::join(&out, ",")
}

/// Whether records of a version can be read: only those of this program's version.
pub fn check_version(version: i64) -> (r: Result<(), String>)
    ensures
        r is Ok <==> version == SCHEMA_VERSION,
        r matches Err(e) ==> e@ == "任务库版本不兼容（"@ + text::signed(version as int)
            + " ≠ 3）：旧任务由历史版本生成，请重新分析后再执行"@,
{
    if version == SCHEMA_VERSION {
        return Ok(());
    }
    let mut s = "任务库版本不兼容（".to_owned();
    s.append(text::signed_number(version).as_str());
    s.append(" ≠ 3）：旧任务由历史版本生成，请重新分析后再执行");
    Err(s)
}

/// How many rows are asked for: as many as wanted, up to a page.
pub fn page_rows(limit: usize) -> (r: i64)
    ensures
        r == (if limit < PAGE_LIMIT {
            limit as int
        } else {
            PAGE_LIMIT as int
        }),
{
    let n: usize = if limit < PAGE_LIMIT {
        limit
    } else {
        PAGE_LIMIT
    };
    convert::usize_as_i64(n)
}

/// A kind of action that a page can be restricted to.
pub open spec fn is_filter(kind: Seq<char>) -> bool {
    kind == "delete"@ || kind == "move"@ || kind == "empty_directory"@
}

/// What a page is restricted to: nothing, or the stored form of a kind of action. A word
/// that is no kind is refused.
pub fn kind_filter(kind: Option<&str>) -> (r: Result<Option<String>, String>)
    ensures
        match kind {
            None => r matches Ok(x) && x is None,
            Some(k) => match r {
                Ok(x) => is_filter(k@) && x is Some && x->0@ == "\""@ + k@ + "\""@,
                Err(e) => !is_filter(k@) && e@ == "未知的行动类型筛选："@ + k@,
            },
        },
{
    match kind {
        None => Ok(None),
        Some(k) => {
            if text::same(k, "delete") || text::same(k, "move") || text::same(
                k,
                "empty_directory",
            ) {
                let mut s = "\"".to_owned();
                s.append(k);
                s.append("\"");
                Ok(Some(s))
            } else {
                let mut s = "未知的行动类型筛选：".to_owned();
                s.append(k);
                Err(s)
            }
        },
    }
}

/// A state that an action can be in.
pub open spec fn is_action_state(state: Seq<char>) -> bool {
    state == "pending"@ || state == "done"@ || state == "skipped"@ || state == "failed"@ || state
        == "unselected"@
}

/// Checks a change of an action's state: the word must be a state, and one row must have
/// changed.
pub fn mark_action(state: &str, changed: usize) -> (r: Result<(), String>)
    ensures
        r is Ok <==> is_action_state(state@) && changed == 1,
        r matches Err(e) ==> e@ == (if is_action_state(state@) {
            "行动不存在或状态未改变"@
        } else {
            "非法的行动状态："@ + state@
        }),
{
    let known: bool = text::same(state, "pending") || text::same(state, "done") || text::same(
        state,
        "skipped",
    ) || text::same(state, "failed") || text::same(state, "unselected");
    if !known {
        let mut s = "非法的行动状态：".to_owned();
        s.append(state);
        return Err(s);
    }
    if changed != 1 {
        return Err("行动不存在或状态未改变".to_owned());
    }
    Ok(())
}

/// Every mark that carrying out a plan leaves is a state that can be stored.
pub proof fn law_marks_can_be_stored(m: ActionMark)
    ensures
        is_action_state(m.word()),
{
}

/// Checks a change of the user's selection: only while the plan waits for a
/// confirmation, and only of a row that was there.
pub fn set_selected(status: &str, changed: usize) -> (r: Result<(), &'static str>)
    ensures
        r is Ok <==> status@ == "ready"@ && changed == 1,
        r matches Err(e) ==> e@ == (if status@ != "ready"@ {
            "只能修改待确认的整理计划"@
        } else {
            "计划已开始执行或该项不存在，选择未改变"@
        }),
{
    if !text::same(status, "ready") {
        return Err("只能修改待确认的整理计划");
    }
    if changed != 1 {
        return Err("计划已开始执行或该项不存在，选择未改变");
    }
    Ok(())
}

/// The key under which a target is reserved: in lower case where the file system does
/// not tell cases apart.
pub fn reserve_target(target: &str, windows: bool) -> (r: String)
    ensures
        r@ == (if windows {
            text::folded(target@)
        } else {
            target@
        }),
{
    if windows {
        text::fold(target)
    } else {
        target.to_owned()
    }
}

/// The row that a page of the log ends before; from the newest one where none is given.
pub fn event_cursor(before: i64) -> (r: i64)
    ensures
        r == (if before <= 0 {
            i64::MAX
        } else {
            before
        }),
{
    if before <= 0 {
        i64::MAX
    } else {
        before
    }
}

/// A line of the log: its fields, parted by bars.
pub fn event_line(fields: &Vec<String>) -> (r: String)
    ensures
        r@ == text::join_with(text::texts(fields@), " | "@),
{
    text::join(fields, " | ")
}

/// A number that is stored with a sign, read as one without; nothing where it is
/// negative.
pub open spec fn read_number(n: i64) -> Option<u64> {
    if n >= 0 {
        Some(n as u64)
    } else {
        None
    }
}

/// A number without a sign, as it is stored; nothing where it does not fit.
pub open spec fn stored_number(n: u64) -> Option<i64> {
    if n <= i64::MAX {
        Some(n as i64)
    } else {
        None
    }
}

/// Reads a number that is stored with a sign.
pub fn nonneg_u64(n: i64) -> (r: Option<u64>)
    ensures
        r == read_number(n),
{
    if n >= 0 {
        Some(n as u64)
    } else {
        None
    }
}

/// A number without a sign, as it is stored.
pub fn stored(n: u64) -> (r: Option<i64>)
    ensures
        r == stored_number(n),
{
    if n <= 0x7fff_ffff_ffff_ffff {
        Some(n as i64)
    } else {
        None
    }
}

/// What can be stored is read back as it was, and what can be read was stored so.
pub proof fn law_sizes_are_read_back(n: u64, i: i64)
    ensures
        stored_number(n) == Some(i) <==> read_number(i) == Some(n),
{
}

/// The columns of a file as they are stored.
#[derive(Debug)]
pub struct FileRow {
    pub id: i64,
    pub rel: String,
    pub name: String,
    pub normal: String,
    pub size: i64,
    pub mtime: i64,
    pub created: Option<i64>,
    pub identity: String,
    pub links: i64,
    pub hash: Option<String>,
    pub cleanable: bool,
}

/// A file in the records.
#[derive(Debug)]
pub struct FileRecord {
    pub id: i64,
    pub rel: String,
    pub name: String,
    pub normalized: String,
    pub snapshot: Snapshot,
    pub hash: Option<String>,
    pub cleanable: bool,
}

/// Reads a file from its columns; nothing where its size or its number of names is
/// negative.
pub fn file_row(row: FileRow) -> (r: Option<FileRecord>)
    ensures
        (r is Some) == (row.size >= 0 && row.links >= 0),
        r matches Some(f) ==> {
            &&& f.id == row.id && f.rel == row.rel && f.name == row.name && f.normalized
                == row.normal
            &&& f.snapshot.size == row.size && f.snapshot.links == row.links
            &&& f.snapshot.modified_ns == row.mtime && f.snapshot.created_ns == row.created
            &&& f.snapshot.identity == row.identity
            &&& f.hash == row.hash && f.cleanable == row.cleanable
        },
{
    let size: u64 = match nonneg_u64(row.size) {
        Some(n) => n,
        None => return None,
    };
    let links: u64 = match nonneg_u64(row.links) {
        Some(n) => n,
        None => return None,
    };
    Some(
        FileRecord {
            id: row.id,
            rel: row.rel,
            name: row.name,
            normalized: row.normal,
            snapshot: Snapshot {
                size,
                modified_ns: row.mtime,
                created_ns: row.created,
                identity: row.identity,
                links,
            },
            hash: row.hash,
            cleanable: row.cleanable,
        },
    )
}

/// What is stored of a file besides its path and its times.
#[derive(Debug)]
pub struct InsertFile {
    /// The name in lower case.
    pub folded: String,
    pub size: i64,
    /// The length of the name in UTF-16 units.
    pub name16: i64,
    /// The length of the path in UTF-16 units.
    pub rel16: i64,
    pub links: i64,
}

/// What is stored of a file; nothing where a number does not fit.
pub fn insert_file(rel: &str, name: &str, s: &Snapshot) -> (r: Option<InsertFile>)
    requires
        text::units(rel@) <= usize::MAX,
        text::units(name@) <= usize::MAX,
    ensures
        (r is Some) == (s.size <= i64::MAX && s.links <= i64::MAX && text::units(rel@) <= i64::MAX
            && text::units(name@) <= i64::MAX),
        r matches Some(f) ==> {
            &&& f.folded@ == text::folded(name@)
            &&& f.size == s.size && f.links == s.links
            &&& f.name16 == text::units(name@) && f.rel16 == text::units(rel@)
        },
{
    let size: i64 = match stored(s.size) {
        Some(n) => n,
        None => return None,
    };
    let links: i64 = match stored(s.links) {
        Some(n) => n,
        None => return None,
    };
    let name16: i64 = match stored(text::utf16_len(name) as u64) {
        Some(n) => n,
        None => return None,
    };
    let rel16: i64 = match stored(text::utf16_len(rel) as u64) {
        Some(n) => n,
        None => return None,
    };
    Some(InsertFile { folded: text::fold(name), size, name16, rel16, links })
}

} // verus!

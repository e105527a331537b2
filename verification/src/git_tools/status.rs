//! What `git status` and `git diff-tree` say, read into changes of single files.

use crate::rules;
use crate::text;
use vstd::prelude::*;

verus! {

/// A change of one file. A renamed file is one change.
#[derive(Debug)]
pub enum FileChange {
    Added(String),
    Modified(String),
    Deleted(String),
    /// The old path and the new one.
    Renamed(String, String),
}

/// A change of one file, as characters.
pub enum ChangeView {
    Added(Seq<char>),
    Modified(Seq<char>),
    Deleted(Seq<char>),
    Renamed(Seq<char>, Seq<char>),
}

impl View for FileChange {
    type V = ChangeView;

    open spec fn view(&self) -> ChangeView {
        match self {
            FileChange::Added(p) => ChangeView::Added(p@),
            FileChange::Modified(p) => ChangeView::Modified(p@),
            FileChange::Deleted(p) => ChangeView::Deleted(p@),
            FileChange::Renamed(a, b) => ChangeView::Renamed(a@, b@),
        }
    }
}

/// Changes as characters.
pub open spec fn change_views(v: Seq<FileChange>) -> Seq<ChangeView> {
    Seq::new(v.len(), |i: int| v[i]@)
}

/// The path that a change is shown by.
pub open spec fn display_of(c: ChangeView) -> Seq<char> {
    match c {
        ChangeView::Added(p) => p,
        ChangeView::Modified(p) => p,
        ChangeView::Deleted(p) => p,
        ChangeView::Renamed(_, new) => new,
    }
}

/// The paths that a change is committed with: of a renamed file both.
pub open spec fn committed_of(c: ChangeView) -> Seq<Seq<char>> {
    match c {
        ChangeView::Renamed(a, b) => seq![a, b],
        _ => seq![display_of(c)],
    }
}

fn owned(s: &str) -> (r: String)
    ensures
        r@ == s@,
{
    s.to_owned()
}

fn one(s: &str) -> (r: Vec<String>)
    ensures
        text::texts(r@) == seq![s@],
{
    let mut v: Vec<String> = Vec::new();
    v.push(owned(s));
    assert(text::texts(v@) =~= seq![s@]);
    v
}

impl FileChange {
    /// The paths to add: of a renamed file only the new one, since the old one is
    /// neither in the working tree nor in the index.
    pub fn stage_paths(&self) -> (r: Vec<String>)
        ensures
            text::texts(r@) == seq![display_of(self@)],
    {
        match self {
            FileChange::Renamed(_, new) => one(new.as_str()),
            FileChange::Added(p) => one(p.as_str()),
            FileChange::Modified(p) => one(p.as_str()),
            FileChange::Deleted(p) => one(p.as_str()),
        }
    }

    /// The paths to commit: of a renamed file both.
    pub fn commit_paths(&self) -> (r: Vec<String>)
        ensures
            text::texts(r@) == committed_of(self@),
    {
        match self {
            FileChange::Renamed(a, b) => {
                let mut v = one(a.as_str());
                let ghost before = v@;
                let s = owned(b.as_str());
                v.push(s);
                proof {
                    text::texts_push(before, s);
                    assert(text::texts(v@) =~= seq![a@, b@]);
                }
                v
            },
            FileChange::Added(p) => one(p.as_str()),
            FileChange::Modified(p) => one(p.as_str()),
            FileChange::Deleted(p) => one(p.as_str()),
        }
    }

    /// The path that the change is shown by.
    pub fn display_path(&self) -> (r: String)
        ensures
            r@ == display_of(self@),
    {
        match self {
            FileChange::Renamed(_, new) => owned(new.as_str()),
            FileChange::Added(p) => owned(p.as_str()),
            FileChange::Modified(p) => owned(p.as_str()),
            FileChange::Deleted(p) => owned(p.as_str()),
        }
    }
}

/// Why the output of `git status` cannot be used.
#[derive(Debug)]
pub enum StatusError {
    /// A conflict that is not resolved.
    Conflict(String),
    /// A renamed or copied file without its old path.
    NoOrigin(String),
    /// A state that is not known.
    Unknown(char),
}

/// Why the output of `git status` cannot be used, as characters.
pub enum StatusErrorView {
    Conflict(Seq<char>),
    NoOrigin(Seq<char>),
    Unknown(char),
}

impl View for StatusError {
    type V = StatusErrorView;

    open spec fn view(&self) -> StatusErrorView {
        match self {
            StatusError::Conflict(p) => StatusErrorView::Conflict(p@),
            StatusError::NoOrigin(p) => StatusErrorView::NoOrigin(p@),
            StatusError::Unknown(c) => StatusErrorView::Unknown(*c),
        }
    }
}

impl StatusError {
    /// The message.
    pub open spec fn words(self) -> Seq<char> {
        match self {
            StatusError::Conflict(p) => "仓库存在未解决的冲突条目："@ + p@
                + "；请先解决冲突并完成或中止合并（G-11）"@,
            StatusError::NoOrigin(p) => "解析 git status 的 rename/copy 记录失败："@ + p@,
            StatusError::Unknown(c) => "git status 出现未处理的变更状态："@ + seq![c],
        }
    }

    /// The message.
    pub fn message(&self) -> (r: String)
        ensures
            r@ == self.words(),
    {
        match self {
            StatusError::Conflict(p) => {
                let mut s = owned("仓库存在未解决的冲突条目：");
                s.append(p.as_str());
                s.append("；请先解决冲突并完成或中止合并（G-11）");
                s
            },
            StatusError::NoOrigin(p) => {
                let mut s = owned("解析 git status 的 rename/copy 记录失败：");
                s.append(p.as_str());
                s
            },
            StatusError::Unknown(c) => {
                let mut s = owned("git status 出现未处理的变更状态：");
                let ghost before = s@;
                s.push(*c);
                assert(s@ =~= before + seq![*c]);
                s
            },
        }
    }
}

/// What a record means, by its two letters.
#[derive(Clone, Copy, Debug, PartialEq, Eq, Structural)]
pub enum RecordKind {
    Conflict,
    Added,
    /// A renamed file; the old path follows.
    Renamed,
    /// A copied file; the old path follows and is passed over.
    Copied,
    Modified,
    Deleted,
    /// Nothing changed.
    Nothing,
    Unknown(char),
}

/// What a record means, by its two letters.
pub open spec fn record_kind(x: char, y: char) -> RecordKind {
    if x == 'U' || y == 'U' || (x == 'A' && y == 'A') || (x == 'D' && y == 'D') {
        RecordKind::Conflict
    } else if x == '?' && y == '?' {
        RecordKind::Added
    } else if x == 'R' || y == 'R' {
        RecordKind::Renamed
    } else if x == 'C' {
        RecordKind::Copied
    } else if x == ' ' {
        if y == 'D' {
            RecordKind::Deleted
        } else if y == 'M' || y == 'T' {
            RecordKind::Modified
        } else if y == ' ' {
            RecordKind::Nothing
        } else {
            RecordKind::Unknown(y)
        }
    } else if x == 'A' {
        RecordKind::Added
    } else if x == 'D' {
        RecordKind::Deleted
    } else if x == 'M' || x == 'T' {
        RecordKind::Modified
    } else {
        RecordKind::Unknown(x)
    }
}

fn kind_of(x: char, y: char) -> (r: RecordKind)
    ensures
        r == record_kind(x, y),
{
    if x == 'U' || y == 'U' || (x == 'A' && y == 'A') || (x == 'D' && y == 'D') {
        RecordKind::Conflict
    } else if x == '?' && y == '?' {
        RecordKind::Added
    } else if x == 'R' || y == 'R' {
        RecordKind::Renamed
    } else if x == 'C' {
        RecordKind::Copied
    } else if x == ' ' {
        if y == 'D' {
            RecordKind::Deleted
        } else if y == 'M' || y == 'T' {
            RecordKind::Modified
        } else if y == ' ' {
            RecordKind::Nothing
        } else {
            RecordKind::Unknown(y)
        }
    } else if x == 'A' {
        RecordKind::Added
    } else if x == 'D' {
        RecordKind::Deleted
    } else if x == 'M' || x == 'T' {
        RecordKind::Modified
    } else {
        RecordKind::Unknown(x)
    }
}

/// The pieces that are not empty.
pub open spec fn nonempty(parts: Seq<Seq<char>>) -> Seq<Seq<char>>
    decreases parts.len(),
{
    if parts.len() == 0 {
        Seq::empty()
    } else if parts.last().len() == 0 {
        nonempty(parts.drop_last())
    } else {
        nonempty(parts.drop_last()).push(parts.last())
    }
}

/// The records of an output that separates them with zeros.
pub open spec fn segments_of(data: Seq<char>) -> Seq<Seq<char>> {
    nonempty(text::split_on(data, '\0'))
}

fn segments(data: &str) -> (r: Vec<String>)
    ensures
        text::texts(r@) == segments_of(data@),
{
    let parts = text::split(data, '\0');
    let ghost all = text::texts(parts@);
    let mut out: Vec<String> = Vec::new();
    let mut i: usize = 0;
    assert(all.take(0) =~= Seq::<Seq<char>>::empty());
    assert(text::texts(out@) =~= Seq::<Seq<char>>::empty());
    while i < parts.len()
        invariant
            all == text::texts(parts@),
            i <= parts@.len(),
            text::texts(out@) == nonempty(all.take(i as int)),
        decreases parts.len() - i,
    {
        assert(all.take(i + 1).drop_last() =~= all.take(i as int));
        assert(all.take(i + 1).last() == parts@[i as int]@);
        if !parts[i].as_str().is_empty() {
            let ghost before = out@;
            let s = owned(parts[i].as_str());
            out.push(s);
            proof {
                text::texts_push(before, s);
            }
        }
        i = i + 1;
    }
    assert(all.take(i as int) =~= all);
    out
}

/// A character in UTF-8.
pub open spec fn utf8(c: char) -> Seq<int> {
    let n = c as int;
    if n < 0x80 {
        seq![n]
    } else if n < 0x800 {
        seq![0xc0 + n / 0x40, 0x80 + n % 0x40]
    } else if n < 0x10000 {
        seq![0xe0 + n / 0x1000, 0x80 + n / 0x40 % 0x40, 0x80 + n % 0x40]
    } else {
        seq![
            0xf0 + n / 0x40000,
            0x80 + n / 0x1000 % 0x40,
            0x80 + n / 0x40 % 0x40,
            0x80 + n % 0x40,
        ]
    }
}

/// A text in UTF-8.
pub open spec fn utf8_text(s: Seq<char>) -> Seq<int>
    decreases s.len(),
{
    if s.len() == 0 {
        Seq::empty()
    } else {
        utf8(s[0]) + utf8_text(s.skip(1))
    }
}

/// The text from the first character on that begins behind `n` bytes.
pub open spec fn behind_bytes(s: Seq<char>, n: int) -> Seq<char>
    decreases s.len(),
{
    if n <= 0 || s.len() == 0 {
        s
    } else {
        behind_bytes(s.skip(1), n - utf8(s[0]).len())
    }
}

/// A record of less than four bytes names no path and is passed over.
pub open spec fn is_short(record: Seq<char>) -> bool {
    utf8_text(record).len() < 4
}

/// The letter that a byte of a record stands for.
pub open spec fn letter(record: Seq<char>, i: int) -> char {
    utf8_text(record)[i] as char
}

/// The path of a record, behind its two letters and a space.
pub open spec fn path_in(record: Seq<char>) -> Seq<char> {
    behind_bytes(record, 3)
}

/// A record taken apart: its first two bytes, and its path.
struct Record {
    x: char,
    y: char,
    path: String,
}

/// The byte with number `i` of a character, if it has so many.
fn byte_of(c: char, i: usize) -> (r: Option<u8>)
    ensures
        match r {
            Some(b) => i < utf8(c).len() && b == utf8(c)[i as int],
            None => i >= utf8(c).len(),
        },
{
    let n: u32 = c as u32;
    if n < 0x80 {
        if i == 0 {
            Some(n as u8)
        } else {
            None
        }
    } else if n < 0x800 {
        match i {
            0 => Some((0xc0 + n / 0x40) as u8),
            1 => Some((0x80 + n % 0x40) as u8),
            _ => None,
        }
    } else if n < 0x10000 {
        match i {
            0 => Some((0xe0 + n / 0x1000) as u8),
            1 => Some((0x80 + n / 0x40 % 0x40) as u8),
            2 => Some((0x80 + n % 0x40) as u8),
            _ => None,
        }
    } else {
        match i {
            0 => Some((0xf0 + n / 0x40000) as u8),
            1 => Some((0x80 + n / 0x1000 % 0x40) as u8),
            2 => Some((0x80 + n / 0x40 % 0x40) as u8),
            3 => Some((0x80 + n % 0x40) as u8),
            _ => None,
        }
    }
}

/// How many bytes a character has in UTF-8.
fn byte_count(c: char) -> (r: usize)
    ensures
        r == utf8(c).len(),
        1 <= r <= 4,
{
    let n: u32 = c as u32;
    if n < 0x80 {
        1
    } else if n < 0x800 {
        2
    } else if n < 0x10000 {
        3
    } else {
        4
    }
}

/// Takes a record apart; nothing where it is too short.
fn take_apart(v: &Vec<char>) -> (r: Option<Record>)
    ensures
        match r {
            Some(p) => !is_short(v@) && p.x == letter(v@, 0) && p.y == letter(v@, 1) && p.path@
                == path_in(v@),
            None => is_short(v@),
        },
{
    let mut first: Vec<u8> = Vec::new();
    let mut i: usize = 0;
    assert(v@.skip(0) =~= v@);
    assert(first@.map_values(|b: u8| b as int) + utf8_text(v@) =~= utf8_text(v@));
    while i < v.len() && first.len() < 4
        invariant
            i <= v@.len(),
            first@.len() <= 7,
            utf8_text(v@) == first@.map_values(|b: u8| b as int) + utf8_text(v@.skip(i as int)),
        decreases v.len() - i,
    {
        let c: char = v[i];
        let n: usize = byte_count(c);
        let ghost start = first@;
        assert(v@.skip(i as int)[0] == c);
        assert(v@.skip(i as int).skip(1) =~= v@.skip(i + 1));
        let mut k: usize = 0;
        assert(utf8(c).take(0) =~= Seq::<int>::empty());
        assert(first@.map_values(|b: u8| b as int) =~= start.map_values(|b: u8| b as int)
            + utf8(c).take(0));
        while k < n
            invariant
                k <= n,
                n == utf8(c).len(),
                n <= 4,
                first@.len() == start.len() + k,
                first@.map_values(|b: u8| b as int) == start.map_values(|b: u8| b as int) + utf8(
                    c,
                ).take(k as int),
            decreases n - k,
        {
            match byte_of(c, k) {
                Some(b) => {
                    let ghost before = first@;
                    first.push(b);
                    assert(first@.map_values(|b: u8| b as int) =~= before.map_values(
                        |b: u8| b as int,
                    ).push(b as int));
                    assert(utf8(c).take(k + 1) =~= utf8(c).take(k as int).push(b as int));
                    assert(first@.map_values(|b: u8| b as int) =~= start.map_values(
                        |b: u8| b as int,
                    ) + utf8(c).take(k + 1));
                },
                None => {},
            }
            k = k + 1;
        }
        assert(utf8(c).take(n as int) =~= utf8(c));
        assert(first@.map_values(|b: u8| b as int) + utf8_text(v@.skip(i + 1))
            =~= start.map_values(|b: u8| b as int) + (utf8(c) + utf8_text(v@.skip(i + 1))));
        i = i + 1;
    }
    if first.len() < 4 {
        assert(v@.skip(i as int).len() == 0);
        return None;
    }
    let ghost numbers = first@.map_values(|b: u8| b as int);
    assert(utf8_text(v@)[0] == numbers[0]);
    assert(utf8_text(v@)[1] == numbers[1]);
    let x: char = first[0] as char;
    let y: char = first[1] as char;
    let mut from: usize = 0;
    let mut left: usize = 3;
    while left > 0 && from < v.len()
        invariant
            from <= v@.len(),
            left <= 3,
            path_in(v@) == behind_bytes(v@.skip(from as int), left as int),
        decreases v.len() - from,
    {
        let n: usize = byte_count(v[from]);
        assert(v@.skip(from as int)[0] == v@[from as int]);
        assert(v@.skip(from as int).skip(1) =~= v@.skip(from + 1));
        assert(n >= left ==> behind_bytes(v@.skip(from + 1), left - n) == behind_bytes(
            v@.skip(from + 1),
            0,
        ));
        left = if n >= left {
            0
        } else {
            left - n
        };
        from = from + 1;
    }
    let path = text::string_of(v, from, v.len());
    assert(path@ =~= v@.skip(from as int));
    Some(Record { x, y, path })
}

/// What the records from `i` on mean, behind the changes that were read.
pub open spec fn parsed_from(
    segs: Seq<Seq<char>>,
    i: int,
    read: Seq<ChangeView>,
) -> Result<Seq<ChangeView>, StatusErrorView>
    decreases segs.len() - i,
{
    if i >= segs.len() {
        Ok(read)
    } else if is_short(segs[i]) {
        parsed_from(segs, i + 1, read)
    } else {
        let path = path_in(segs[i]);
        match record_kind(letter(segs[i], 0), letter(segs[i], 1)) {
            RecordKind::Conflict => Err(StatusErrorView::Conflict(path)),
            RecordKind::Added => parsed_from(segs, i + 1, read.push(ChangeView::Added(path))),
            RecordKind::Modified => parsed_from(segs, i + 1, read.push(ChangeView::Modified(path))),
            RecordKind::Deleted => parsed_from(segs, i + 1, read.push(ChangeView::Deleted(path))),
            RecordKind::Nothing => parsed_from(segs, i + 1, read),
            RecordKind::Unknown(c) => Err(StatusErrorView::Unknown(c)),
            RecordKind::Renamed => if i + 1 < segs.len() {
                parsed_from(segs, i + 2, read.push(ChangeView::Renamed(segs[i + 1], path)))
            } else {
                Err(StatusErrorView::NoOrigin(path))
            },
            RecordKind::Copied => if i + 1 < segs.len() {
                parsed_from(segs, i + 2, read.push(ChangeView::Added(path)))
            } else {
                Err(StatusErrorView::NoOrigin(path))
            },
        }
    }
}

/// What the output of `git status --porcelain=v1 -z` means.
pub open spec fn parsed(data: Seq<char>) -> Result<Seq<ChangeView>, StatusErrorView> {
    parsed_from(segments_of(data), 0, Seq::empty())
}

/// A result as characters.
pub open spec fn status_view(r: Result<Vec<FileChange>, StatusError>) -> Result<
    Seq<ChangeView>,
    StatusErrorView,
> {
    match r {
        Ok(v) => Ok(change_views(v@)),
        Err(e) => Err(e@),
    }
}

proof fn changes_push(v: Seq<FileChange>, x: FileChange)
    ensures
        change_views(v.push(x)) == change_views(v).push(x@),
{
    assert(change_views(v.push(x)) =~= change_views(v).push(x@));
}

/// Reads the output of `git status --porcelain=v1 -z`. The first two bytes of a record
/// are its letters.
pub fn parse_status(data: &str) -> (r: Result<Vec<FileChange>, StatusError>)
    ensures
        status_view(r) == parsed(data@),
{
    let list = segments(data);
    let ghost segs = text::texts(list@);
    let mut out: Vec<FileChange> = Vec::new();
    let mut i: usize = 0;
    assert(change_views(out@) =~= Seq::<ChangeView>::empty());
    while i < list.len()
        invariant
            i <= list@.len(),
            segs == text::texts(list@),
            segs == segments_of(data@),
            parsed(data@) == parsed_from(segs, i as int, change_views(out@)),
        decreases list.len() - i,
    {
        let record = list[i].as_str();
        assert(record@ == segs[i as int]);
        let v = text::chars_of(record);
        let parts = match take_apart(&v) {
            Some(parts) => parts,
            None => {
                i = i + 1;
                continue ;
            },
        };
        let path = parts.path;
        let ghost before = out@;
        match kind_of(parts.x, parts.y) {
            RecordKind::Conflict => {
                return Err(StatusError::Conflict(path));
            },
            RecordKind::Unknown(c) => {
                return Err(StatusError::Unknown(c));
            },
            RecordKind::Nothing => {
                i = i + 1;
            },
            RecordKind::Added => {
                let c = FileChange::Added(path);
                proof {
                    changes_push(before, c);
                }
                out.push(c);
                i = i + 1;
            },
            RecordKind::Modified => {
                let c = FileChange::Modified(path);
                proof {
                    changes_push(before, c);
                }
                out.push(c);
                i = i + 1;
            },
            RecordKind::Deleted => {
                let c = FileChange::Deleted(path);
                proof {
                    changes_push(before, c);
                }
                out.push(c);
                i = i + 1;
            },
            RecordKind::Renamed => {
                if i + 1 >= list.len() {
                    return Err(StatusError::NoOrigin(path));
                }
                let old_path = owned(list[i + 1].as_str());
                assert(old_path@ == segs[i + 1]);
                let c = FileChange::Renamed(old_path, path);
                proof {
                    changes_push(before, c);
                }
                out.push(c);
                i = i + 2;
            },
            RecordKind::Copied => {
                if i + 1 >= list.len() {
                    return Err(StatusError::NoOrigin(path));
                }
                let c = FileChange::Added(path);
                proof {
                    changes_push(before, c);
                }
                out.push(c);
                i = i + 2;
            },
        }
    }
    Ok(out)
}

/// How git writes a change.
pub open spec fn written(c: ChangeView) -> Seq<Seq<char>> {
    match c {
        ChangeView::Added(p) => seq![seq!['?', '?', ' '] + p],
        ChangeView::Modified(p) => seq![seq![' ', 'M', ' '] + p],
        ChangeView::Deleted(p) => seq![seq![' ', 'D', ' '] + p],
        ChangeView::Renamed(a, b) => seq![seq!['R', ' ', ' '] + b, a],
    }
}

/// How git writes some changes.
pub open spec fn all_written(cs: Seq<ChangeView>) -> Seq<Seq<char>>
    decreases cs.len(),
{
    if cs.len() == 0 {
        Seq::empty()
    } else {
        written(cs[0]) + all_written(cs.skip(1))
    }
}

/// Every path of the change has a character.
pub open spec fn has_paths(c: ChangeView) -> bool {
    match c {
        ChangeView::Renamed(a, b) => a.len() > 0 && b.len() > 0,
        _ => display_of(c).len() > 0,
    }
}

/// Records behind the ones that were read do not depend on them.
proof fn parse_written(
    segs: Seq<Seq<char>>,
    i: int,
    cs: Seq<ChangeView>,
    read: Seq<ChangeView>,
)
    requires
        0 <= i <= segs.len(),
        segs.skip(i) == all_written(cs),
        forall|k: int| 0 <= k < cs.len() ==> has_paths(#[trigger] cs[k]),
    ensures
        parsed_from(segs, i, read) == Ok::<Seq<ChangeView>, StatusErrorView>(read + cs),
    decreases cs.len(),
{
    if cs.len() == 0 {
        assert(segs.skip(i).len() == 0);
        assert(read + cs =~= read);
    } else {
        let c = cs[0];
        assert(has_paths(c));
        let w = written(c);
        let n = w.len() as int;
        assert(segs.skip(i) == w + all_written(cs.skip(1)));
        assert(segs[i] == segs.skip(i)[0]);
        assert(segs.skip(i)[0] == w[0]);
        assert(segs.skip(i + n) =~= segs.skip(i).skip(n));
        assert(segs.skip(i).skip(n) =~= all_written(cs.skip(1)));
        assert forall|k: int| 0 <= k < cs.skip(1).len() implies has_paths(
            #[trigger] cs.skip(1)[k],
        ) by {
            assert(has_paths(cs[k + 1]));
        }
        parse_written(segs, i + n, cs.skip(1), read.push(c));
        assert(read.push(c) + cs.skip(1) =~= read + cs);
        match c {
            ChangeView::Renamed(a, b) => {
                assert(segs[i + 1] == segs.skip(i)[1]);
                assert(segs.skip(i)[1] == w[1]);
                ascii_letters('R', ' ', b);
            },
            ChangeView::Added(p) => {
                ascii_letters('?', '?', p);
            },
            ChangeView::Modified(p) => {
                ascii_letters(' ', 'M', p);
            },
            ChangeView::Deleted(p) => {
                ascii_letters(' ', 'D', p);
            },
        }
    }
}

/// Two ASCII letters and a space in front of a path that is not empty are read as they
/// are.
proof fn ascii_letters(x: char, y: char, path: Seq<char>)
    requires
        (x as int) < 0x80,
        (y as int) < 0x80,
        path.len() > 0,
    ensures
        ({
            let record = seq![x, y, ' '] + path;
            &&& !is_short(record)
            &&& letter(record, 0) == x
            &&& letter(record, 1) == y
            &&& path_in(record) == path
        }),
{
    let record = seq![x, y, ' '] + path;
    assert(record.skip(1) =~= seq![y, ' '] + path);
    assert(record.skip(1).skip(1) =~= seq![' '] + path);
    assert(record.skip(1).skip(1).skip(1) =~= path);
    reveal_with_fuel(utf8_text, 5);
    reveal_with_fuel(behind_bytes, 5);
}

/// What git writes of some changes is read back as these changes: the old path of a
/// renamed file is never taken for a record of its own.
pub proof fn law_status_round_trip(segs: Seq<Seq<char>>, cs: Seq<ChangeView>)
    requires
        segs == all_written(cs),
        forall|k: int| 0 <= k < cs.len() ==> has_paths(#[trigger] cs[k]),
    ensures
        parsed_from(segs, 0, Seq::empty()) == Ok::<Seq<ChangeView>, StatusErrorView>(cs),
{
    assert(segs.skip(0) =~= segs);
    parse_written(segs, 0, cs, Seq::empty());
    assert(Seq::<ChangeView>::empty() + cs =~= cs);
}

/// Pieces of a text that was put together at a separator.
proof fn split_joined(a: Seq<char>, b: Seq<char>, sep: char)
    ensures
        text::split_on(a.push(sep) + b, sep) == text::split_on(a, sep) + text::split_on(b, sep),
    decreases b.len(),
{
    let whole = a.push(sep) + b;
    if b.len() == 0 {
        text::split_append(a, b, sep);
        assert(b =~= Seq::<char>::empty());
        assert(text::split_on(a, sep).push(b) =~= text::split_on(a, sep) + text::split_on(b, sep));
    } else {
        split_joined(a, b.drop_last(), sep);
        assert(whole.drop_last() =~= a.push(sep) + b.drop_last());
        assert(whole.last() == b.last());
        text::split_nonempty(b.drop_last(), sep);
        let x = text::split_on(a, sep);
        let y = text::split_on(b.drop_last(), sep);
        assert(text::split_on(whole.drop_last(), sep) == x + y);
        assert(text::split_on(whole, sep) =~= x + text::split_on(b, sep));
    }
}

proof fn nonempty_joined(a: Seq<Seq<char>>, b: Seq<Seq<char>>)
    ensures
        nonempty(a + b) == nonempty(a) + nonempty(b),
    decreases b.len(),
{
    if b.len() == 0 {
        assert(a + b =~= a);
        assert(nonempty(a) + nonempty(b) =~= nonempty(a));
    } else {
        nonempty_joined(a, b.drop_last());
        assert((a + b).drop_last() =~= a + b.drop_last());
        assert(nonempty(a + b) =~= nonempty(a) + nonempty(b));
    }
}

/// The records of two outputs that follow each other.
proof fn segments_joined(a: Seq<char>, b: Seq<char>)
    requires
        a.len() > 0 ==> a.last() == '\0',
    ensures
        segments_of(a + b) == segments_of(a) + segments_of(b),
{
    if a.len() == 0 {
        assert(a + b =~= b);
        assert(text::split_on(a, '\0') =~= seq![Seq::<char>::empty()]);
        reveal_with_fuel(nonempty, 2);
        assert(seq![Seq::<char>::empty()].drop_last() =~= Seq::<Seq<char>>::empty());
        assert(segments_of(a) + segments_of(b) =~= segments_of(b));
    } else {
        let c = a.drop_last();
        let none = Seq::<char>::empty();
        assert(c.push('\0') =~= a);
        split_joined(c, b, '\0');
        split_joined(c, none, '\0');
        assert(c.push('\0') + none =~= a);
        assert(text::split_on(none, '\0') =~= seq![none]);
        nonempty_joined(text::split_on(c, '\0'), text::split_on(b, '\0'));
        nonempty_joined(text::split_on(c, '\0'), seq![none]);
        reveal_with_fuel(nonempty, 2);
        assert(seq![none].drop_last() =~= Seq::<Seq<char>>::empty());
        assert(nonempty(seq![none]) =~= Seq::<Seq<char>>::empty());
        assert(segments_of(a) =~= nonempty(text::split_on(c, '\0')));
    }
}

/// Changes that were read before stay in front of those that are read on.
proof fn read_on(segs: Seq<Seq<char>>, i: int, read: Seq<ChangeView>)
    requires
        0 <= i,
    ensures
        match parsed_from(segs, i, Seq::empty()) {
            Ok(v) => parsed_from(segs, i, read) == Ok::<Seq<ChangeView>, StatusErrorView>(read + v),
            Err(e) => parsed_from(segs, i, read) == Err::<Seq<ChangeView>, StatusErrorView>(e),
        },
    decreases segs.len() - i, 0nat,
{
    let none = Seq::<ChangeView>::empty();
    if i >= segs.len() {
        assert(read + none =~= read);
    } else if is_short(segs[i]) {
        read_on(segs, i + 1, read);
    } else {
        let path = path_in(segs[i]);
        let kind = record_kind(letter(segs[i], 0), letter(segs[i], 1));
        match kind {
            RecordKind::Added => {
                one_more(segs, i + 1, read, ChangeView::Added(path));
            },
            RecordKind::Modified => {
                one_more(segs, i + 1, read, ChangeView::Modified(path));
            },
            RecordKind::Deleted => {
                one_more(segs, i + 1, read, ChangeView::Deleted(path));
            },
            RecordKind::Nothing => {
                read_on(segs, i + 1, read);
            },
            RecordKind::Renamed => {
                if i + 1 < segs.len() {
                    one_more(segs, i + 2, read, ChangeView::Renamed(segs[i + 1], path));
                }
            },
            RecordKind::Copied => {
                if i + 1 < segs.len() {
                    one_more(segs, i + 2, read, ChangeView::Added(path));
                }
            },
            _ => {},
        }
    }
}

proof fn one_more(segs: Seq<Seq<char>>, i: int, read: Seq<ChangeView>, c: ChangeView)
    requires
        0 < i,
    ensures
        match parsed_from(segs, i, Seq::empty().push(c)) {
            Ok(v) => parsed_from(segs, i, read.push(c)) == Ok::<Seq<ChangeView>, StatusErrorView>(
                read + v,
            ),
            Err(e) => parsed_from(segs, i, read.push(c)) == Err::<
                Seq<ChangeView>,
                StatusErrorView,
            >(e),
        },
    decreases segs.len() - i, 1nat,
{
    let none = Seq::<ChangeView>::empty();
    read_on(segs, i, none.push(c));
    read_on(segs, i, read.push(c));
    match parsed_from(segs, i, none) {
        Ok(v) => {
            assert(read + (none.push(c) + v) =~= read.push(c) + v);
        },
        Err(_) => {},
    }
}

/// The records of an output behind another one are read as they are.
proof fn read_behind(a: Seq<Seq<char>>, b: Seq<Seq<char>>, i: int, read: Seq<ChangeView>)
    requires
        0 <= i <= a.len(),
    ensures
        match parsed_from(a, i, read) {
            Ok(v) => parsed_from(a + b, i, read) == parsed_from(b, 0, v),
            Err(StatusErrorView::NoOrigin(_)) => true,
            Err(e) => parsed_from(a + b, i, read) == Err::<Seq<ChangeView>, StatusErrorView>(e),
        },
    decreases a.len() - i,
{
    if i == a.len() {
        shifted(a, b, 0, read);
    } else {
        assert((a + b)[i] == a[i]);
        if is_short(a[i]) {
            read_behind(a, b, i + 1, read);
        } else {
            let path = path_in(a[i]);
            match record_kind(letter(a[i], 0), letter(a[i], 1)) {
                RecordKind::Added => {
                    read_behind(a, b, i + 1, read.push(ChangeView::Added(path)));
                },
                RecordKind::Modified => {
                    read_behind(a, b, i + 1, read.push(ChangeView::Modified(path)));
                },
                RecordKind::Deleted => {
                    read_behind(a, b, i + 1, read.push(ChangeView::Deleted(path)));
                },
                RecordKind::Nothing => {
                    read_behind(a, b, i + 1, read);
                },
                RecordKind::Renamed => {
                    if i + 1 < a.len() {
                        assert((a + b)[i + 1] == a[i + 1]);
                        read_behind(a, b, i + 2, read.push(ChangeView::Renamed(a[i + 1], path)));
                    }
                },
                RecordKind::Copied => {
                    if i + 1 < a.len() {
                        read_behind(a, b, i + 2, read.push(ChangeView::Added(path)));
                    }
                },
                _ => {},
            }
        }
    }
}

/// Records mean the same wherever they stand.
proof fn shifted(a: Seq<Seq<char>>, b: Seq<Seq<char>>, i: int, read: Seq<ChangeView>)
    requires
        0 <= i,
    ensures
        parsed_from(a + b, a.len() + i, read) == parsed_from(b, i, read),
    decreases b.len() - i,
{
    if i < b.len() {
        assert((a + b)[a.len() + i] == b[i]);
        if is_short(b[i]) {
            shifted(a, b, i + 1, read);
        } else {
            let path = path_in(b[i]);
            match record_kind(letter(b[i], 0), letter(b[i], 1)) {
                RecordKind::Added => {
                    shifted(a, b, i + 1, read.push(ChangeView::Added(path)));
                },
                RecordKind::Modified => {
                    shifted(a, b, i + 1, read.push(ChangeView::Modified(path)));
                },
                RecordKind::Deleted => {
                    shifted(a, b, i + 1, read.push(ChangeView::Deleted(path)));
                },
                RecordKind::Nothing => {
                    shifted(a, b, i + 1, read);
                },
                RecordKind::Renamed => {
                    if i + 1 < b.len() {
                        assert((a + b)[a.len() + i + 1] == b[i + 1]);
                        shifted(a, b, i + 2, read.push(ChangeView::Renamed(b[i + 1], path)));
                    }
                },
                RecordKind::Copied => {
                    if i + 1 < b.len() {
                        shifted(a, b, i + 2, read.push(ChangeView::Added(path)));
                    }
                },
                _ => {},
            }
        }
    }
}

/// Outputs that are joined at the end of a record are read as the changes of the first
/// and those of the second; what is wrong with one of them is wrong with both, the first
/// coming first. Only a first output that ends within a renaming may be completed.
pub proof fn law_joined_outputs(a: Seq<char>, b: Seq<char>)
    requires
        a.len() > 0 ==> a.last() == '\0',
    ensures
        match parsed(a) {
            Ok(x) => match parsed(b) {
                Ok(y) => parsed(a + b) == Ok::<Seq<ChangeView>, StatusErrorView>(x + y),
                Err(e) => parsed(a + b) == Err::<Seq<ChangeView>, StatusErrorView>(e),
            },
            Err(StatusErrorView::NoOrigin(_)) => true,
            Err(e) => parsed(a + b) == Err::<Seq<ChangeView>, StatusErrorView>(e),
        },
{
    segments_joined(a, b);
    read_behind(segments_of(a), segments_of(b), 0, Seq::empty());
    if let Ok(x) = parsed(a) {
        read_on(segments_of(b), 0, x);
    }
}

/// The paths of a commit, from record `i` on: of a renamed or copied file both.
pub open spec fn touched_from(segs: Seq<Seq<char>>, i: int, read: Seq<Seq<char>>) -> Seq<Seq<char>>
    decreases segs.len() + 3 - i,
{
    if i >= segs.len() {
        read
    } else {
        let two = segs[i].len() > 0 && (segs[i][0] == 'R' || segs[i][0] == 'C');
        let first = if i + 1 < segs.len() {
            read.push(segs[i + 1])
        } else {
            read
        };
        if two {
            let second = if i + 2 < segs.len() {
                first.push(segs[i + 2])
            } else {
                first
            };
            touched_from(segs, i + 3, second)
        } else {
            touched_from(segs, i + 2, first)
        }
    }
}

/// How often a text occurs.
pub open spec fn occurrences(list: Seq<Seq<char>>, t: Seq<char>) -> nat
    decreases list.len(),
{
    if list.len() == 0 {
        0
    } else {
        occurrences(list.drop_last(), t) + if list.last() == t {
            1nat
        } else {
            0
        }
    }
}

/// The same texts, each equally often.
pub open spec fn same_paths(a: Seq<Seq<char>>, b: Seq<Seq<char>>) -> bool {
    forall|t: Seq<char>| occurrences(a, t) == #[trigger] occurrences(b, t)
}

proof fn no_occurrence(list: Seq<Seq<char>>, t: Seq<char>)
    requires
        !list.contains(t),
    ensures
        occurrences(list, t) == 0,
    decreases list.len(),
{
    if list.len() > 0 {
        assert(list.last() == list[list.len() - 1]);
        assert(!list.drop_last().contains(t)) by {
            if list.drop_last().contains(t) {
                let k = choose|k: int|
                    0 <= k < list.drop_last().len() && list.drop_last()[k] == t;
                assert(list[k] == t);
            }
        }
        no_occurrence(list.drop_last(), t);
    }
}

fn count_of(list: &Vec<String>, t: &str) -> (r: usize)
    ensures
        r == occurrences(text::texts(list@), t@),
{
    let ghost all = text::texts(list@);
    let mut n: usize = 0;
    let mut i: usize = 0;
    assert(all.take(0) =~= Seq::<Seq<char>>::empty());
    while i < list.len()
        invariant
            i <= list@.len(),
            n <= i,
            all == text::texts(list@),
            n == occurrences(all.take(i as int), t@),
        decreases list.len() - i,
    {
        assert(all.take(i + 1).drop_last() =~= all.take(i as int));
        assert(all.take(i + 1).last() == list@[i as int]@);
        if text::same(list[i].as_str(), t) {
            n = n + 1;
        }
        i = i + 1;
    }
    assert(all.take(i as int) =~= all);
    n
}

fn covers(a: &Vec<String>, b: &Vec<String>) -> (r: bool)
    ensures
        r == forall|k: int|
            0 <= k < a@.len() ==> occurrences(text::texts(a@), #[trigger] text::texts(a@)[k])
                == occurrences(text::texts(b@), text::texts(a@)[k]),
{
    let ghost x = text::texts(a@);
    let ghost y = text::texts(b@);
    let mut i: usize = 0;
    while i < a.len()
        invariant
            i <= a@.len(),
            x == text::texts(a@),
            y == text::texts(b@),
            forall|k: int|
                0 <= k < i ==> occurrences(x, #[trigger] x[k]) == occurrences(y, x[k]),
        decreases a.len() - i,
    {
        let m: usize = count_of(a, a[i].as_str());
        let n: usize = count_of(b, a[i].as_str());
        assert(a@[i as int]@ == x[i as int]);
        if m != n {
            assert(occurrences(x, x[i as int]) != occurrences(y, x[i as int]));
            return false;
        }
        i = i + 1;
    }
    true
}

/// The paths of a commit. `data` is the output of `git diff-tree --name-status -z`.
fn touched(data: &str) -> (r: Vec<String>)
    ensures
        text::texts(r@) == touched_from(segments_of(data@), 0, Seq::empty()),
{
    let list = segments(data);
    let ghost segs = text::texts(list@);
    let mut seen: Vec<String> = Vec::new();
    let mut i: usize = 0;
    assert(text::texts(seen@) =~= Seq::<Seq<char>>::empty());
    while i < list.len()
        invariant
            segs == text::texts(list@),
            segs == segments_of(data@),
            touched_from(segs, 0, Seq::empty()) == touched_from(
                segs,
                i as int,
                text::texts(seen@),
            ),
        decreases list.len() - i,
    {
        let v = text::chars_of(list[i].as_str());
        assert(v@ == segs[i as int]);
        let two: bool = v.len() > 0 && (v[0] == 'R' || v[0] == 'C');
        let n: usize = list.len();
        if n - i > 1 {
            let ghost before = seen@;
            let s = owned(list[i + 1].as_str());
            assert(s@ == segs[i + 1]);
            seen.push(s);
            proof {
                text::texts_push(before, s);
            }
        }
        if two && n - i > 2 {
            let ghost before = seen@;
            let s = owned(list[i + 2].as_str());
            assert(s@ == segs[i + 2]);
            seen.push(s);
            proof {
                text::texts_push(before, s);
            }
        }
        let step: usize = if two {
            3
        } else {
            2
        };
        if n - i <= step {
            proof {
                let end = if two {
                    i + 3
                } else {
                    i + 2
                };
                assert(touched_from(segs, end, text::texts(seen@)) == text::texts(seen@));
                assert(touched_from(segs, n as int, text::texts(seen@)) == text::texts(seen@));
            }
            i = n;
        } else {
            i = i + step;
        }
    }
    seen
}

/// Whether two lists hold the same texts, each equally often.
fn paths_agree(seen: &Vec<String>, paths: &Vec<String>) -> (r: bool)
    ensures
        r == same_paths(text::texts(seen@), text::texts(paths@)),
{
    let r = covers(seen, paths) && covers(paths, seen);
    proof {
        let a = text::texts(seen@);
        let b = text::texts(paths@);
        if r {
            assert forall|t: Seq<char>| occurrences(a, t) == #[trigger] occurrences(b, t) by {
                if a.contains(t) {
                    let k = choose|k: int| 0 <= k < a.len() && a[k] == t;
                    assert(occurrences(a, a[k]) == occurrences(b, a[k]));
                } else if b.contains(t) {
                    let k = choose|k: int| 0 <= k < b.len() && b[k] == t;
                    assert(occurrences(b, b[k]) == occurrences(a, b[k]));
                } else {
                    no_occurrence(a, t);
                    no_occurrence(b, t);
                }
            }
        }
    }
    r
}

/// The texts in quotes.
pub open spec fn quoted_texts(list: Seq<Seq<char>>) -> Seq<Seq<char>> {
    Seq::new(list.len(), |i: int| text::debug_text(list[i]))
}

/// The texts in quotes, within brackets.
pub open spec fn debug_list(list: Seq<Seq<char>>) -> Seq<char> {
    "["@ + text::join_with(quoted_texts(list), ", "@) + "]"@
}

fn quoted_list(list: &Vec<String>) -> (r: String)
    ensures
        r@ == debug_list(text::texts(list@)),
{
    let mut all: Vec<String> = Vec::new();
    let mut i: usize = 0;
    while i < list.len()
        invariant
            i <= list@.len(),
            all@.len() == i,
            forall|k: int| 0 <= k < i ==> (#[trigger] all@[k])@ == text::debug_text(list@[k]@),
        decreases list.len() - i,
    {
        all.push(text::quoted(list[i].as_str()));
        i = i + 1;
    }
    assert(text::texts(all@) =~= quoted_texts(text::texts(list@)));
    let mut s = owned("[");
    s.append(text::join(&all, ", ").as_str());
    s.append("]");
    s
}

/// The second list holds the texts of the first in dictionary order.
pub open spec fn is_sorted_list(list: Seq<Seq<char>>, sorted: Seq<Seq<char>>) -> bool {
    &&& sorted.len() == list.len()
    &&& same_paths(list, sorted)
    &&& forall|i: int, j: int|
        0 <= i < j < sorted.len() ==> text::at_most(#[trigger] sorted[i], #[trigger] sorted[j])
}

proof fn occurrences_inserted(list: Seq<Seq<char>>, at: int, x: Seq<char>, t: Seq<char>)
    requires
        0 <= at <= list.len(),
    ensures
        occurrences(list.insert(at, x), t) == occurrences(list, t) + if x == t {
            1nat
        } else {
            0
        },
    decreases list.len(),
{
    let more = list.insert(at, x);
    if at == list.len() {
        assert(more.drop_last() =~= list);
    } else {
        occurrences_inserted(list.drop_last(), at, x, t);
        assert(more.drop_last() =~= list.drop_last().insert(at, x));
        assert(more.last() == list.last());
    }
}

/// The texts in dictionary order.
fn sorted_list(list: &Vec<String>) -> (r: Vec<String>)
    ensures
        is_sorted_list(text::texts(list@), text::texts(r@)),
{
    let ghost all = text::texts(list@);
    let mut out: Vec<String> = Vec::new();
    let mut i: usize = 0;
    assert(all.take(0) =~= text::texts(out@));
    while i < list.len()
        invariant
            i <= list@.len(),
            all == text::texts(list@),
            is_sorted_list(all.take(i as int), text::texts(out@)),
        decreases list.len() - i,
    {
        let ghost before = text::texts(out@);
        let x = owned(list[i].as_str());
        let mut at: usize = 0;
        while at < out.len() && text::not_after(out[at].as_str(), x.as_str())
            invariant
                at <= out@.len(),
                before == text::texts(out@),
                forall|k: int| 0 <= k < at ==> text::at_most(#[trigger] before[k], x@),
            decreases out.len() - at,
        {
            assert(before[at as int] == out@[at as int]@);
            at = at + 1;
        }
        proof {
            if at < out.len() {
                assert(before[at as int] == out@[at as int]@);
                text::at_most_total(before[at as int], x@);
            }
        }
        let ghost old_out = out@;
        out.insert(at, x);
        let ghost after = text::texts(out@);
        proof {
            assert(after =~= before.insert(at as int, x@));
            assert(all.take(i + 1).drop_last() =~= all.take(i as int));
            assert(all.take(i + 1).last() == x@);
            assert forall|t: Seq<char>| occurrences(all.take(i + 1), t) == #[trigger] occurrences(
                after,
                t,
            ) by {
                occurrences_inserted(before, at as int, x@, t);
                assert(occurrences(all.take(i as int), t) == occurrences(before, t));
            }
            assert forall|p: int, q: int| 0 <= p < q < after.len() implies text::at_most(
                #[trigger] after[p],
                #[trigger] after[q],
            ) by {
                if p == at {
                    assert(after[q] == before[q - 1]);
                    if q - 1 > at {
                        assert(text::at_most(before[at as int], before[q - 1]));
                        text::at_most_chain(x@, before[at as int], before[q - 1]);
                    }
                } else if q == at {
                    assert(after[p] == before[p]);
                } else {
                    let a = if p < at {
                        p
                    } else {
                        p - 1
                    };
                    let b = if q < at {
                        q
                    } else {
                        q - 1
                    };
                    assert(after[p] == before[a] && after[q] == before[b]);
                }
            }
        }
        i = i + 1;
    }
    assert(all.take(i as int) =~= all);
    out
}

/// What is said of a commit that holds other paths than it should: both lists in
/// dictionary order.
pub open spec fn verify_text(seen: Seq<Seq<char>>, expected: Seq<Seq<char>>) -> Seq<char> {
    "提交验证失败（G-05）：本次 commit 实际包含 "@ + text::decimal(seen.len()) + " 个路径（"@ + debug_list(
        seen,
    ) + "），预期只包含 "@ + debug_list(expected)
}

/// Looks whether a commit touches exactly the given paths, and else says what it
/// touches. `data` is the output of `git diff-tree --name-status -z` for the commit.
pub fn verify_single_path_commit(data: &str, paths: &Vec<String>) -> (r: Result<(), String>)
    ensures
        ({
            let seen = touched_from(segments_of(data@), 0, Seq::empty());
            match r {
                Ok(()) => same_paths(seen, text::texts(paths@)),
                Err(e) => !same_paths(seen, text::texts(paths@)) && exists|
                    a: Seq<Seq<char>>,
                    b: Seq<Seq<char>>,
                |
                    #![trigger verify_text(a, b)]
                    is_sorted_list(seen, a) && is_sorted_list(text::texts(paths@), b) && e@
                        == verify_text(a, b),
            }
        }),
{
    let seen = touched(data);
    if paths_agree(&seen, paths) {
        return Ok(());
    }
    let a = sorted_list(&seen);
    let b = sorted_list(paths);
    let mut s = owned("提交验证失败（G-05）：本次 commit 实际包含 ");
    s.append(text::number(a.len() as u64).as_str());
    s.append(" 个路径（");
    s.append(quoted_list(&a).as_str());
    s.append("），预期只包含 ");
    s.append(quoted_list(&b).as_str());
    assert(s@ == verify_text(text::texts(a@), text::texts(b@)));
    Err(s)
}

/// The first eight lines that say something, in one line.
pub open spec fn gist(output: Seq<char>) -> Seq<char> {
    let lines = rules::nonblank(text::split_on(output, '\n'));
    let shown = if lines.len() > 8 {
        lines.take(8)
    } else {
        lines
    };
    text::join_with(shown, " | "@)
}

/// What a failed command says: its errors, or else its output.
pub open spec fn summary_of(stderr: Seq<char>, stdout: Seq<char>) -> Seq<char> {
    if gist(stderr).len() == 0 {
        gist(stdout)
    } else {
        gist(stderr)
    }
}

/// The lines of an output that say something, trimmed.
pub fn telling_lines(output: &str) -> (r: Vec<String>)
    ensures
        text::texts(r@) == rules::nonblank(text::split_on(output@, '\n')),
{
    let parts = text::split(output, '\n');
    let ghost all = text::texts(parts@);
    let mut out: Vec<String> = Vec::new();
    let mut i: usize = 0;
    assert(all.take(0) =~= Seq::<Seq<char>>::empty());
    assert(text::texts(out@) =~= Seq::<Seq<char>>::empty());
    while i < parts.len()
        invariant
            all == text::texts(parts@),
            i <= parts@.len(),
            text::texts(out@) == rules::nonblank(all.take(i as int)),
        decreases parts.len() - i,
    {
        assert(all.take(i + 1).drop_last() =~= all.take(i as int));
        assert(all.take(i + 1).last() == parts@[i as int]@);
        let line = text::trim(parts[i].as_str());
        if !line.as_str().is_empty() {
            let ghost before = out@;
            out.push(line);
            proof {
                text::texts_push(before, line);
            }
        }
        i = i + 1;
    }
    assert(all.take(i as int) =~= all);
    out
}

fn pick(output: &str) -> (r: String)
    ensures
        r@ == gist(output@),
{
    let mut lines = telling_lines(output);
    let ghost all = text::texts(lines@);
    if lines.len() > 8 {
        lines.truncate(8);
        assert(text::texts(lines@) =~= all.take(8));
    }
    text::join(&lines, " | ")
}

/// What a failed command says.
pub fn summarize(stderr: &str, stdout: &str) -> (r: String)
    ensures
        r@ == summary_of(stderr@, stdout@),
{
    let chosen = pick(stderr);
    if chosen.as_str().is_empty() {
        pick(stdout)
    } else {
        chosen
    }
}

/// The output of `git status` for one record.
pub open spec fn one_record(x: char, y: char, path: Seq<char>) -> Seq<char> {
    (seq![x, y, ' '] + path).push('\0')
}

/// A path that git can write: it is not empty and holds no zero.
pub open spec fn is_path(path: Seq<char>) -> bool {
    path.len() > 0 && !path.contains('\0')
}

/// Two letters as git writes them.
pub open spec fn is_letter(c: char) -> bool {
    0 < (c as int) && (c as int) < 0x80
}

proof fn one_segment(x: char, y: char, path: Seq<char>)
    requires
        is_letter(x),
        is_letter(y),
        is_path(path),
    ensures
        segments_of(one_record(x, y, path)) == seq![seq![x, y, ' '] + path],
{
    let record = seq![x, y, ' '] + path;
    assert(!record.contains('\0')) by {
        if record.contains('\0') {
            let i = choose|i: int| 0 <= i < record.len() && record[i] == '\0';
            if i >= 3 {
                assert(path[i - 3] == '\0');
            }
        }
    }
    last_segment(record);
}

proof fn last_segment(record: Seq<char>)
    requires
        is_path(record),
    ensures
        segments_of(record.push('\0')) == seq![record],
{
    let none = Seq::<char>::empty();
    text::split_whole(record, '\0');
    split_joined(record, none, '\0');
    assert(record.push('\0') + none =~= record.push('\0'));
    assert(text::split_on(none, '\0') =~= seq![none]);
    let parts = text::split_on(record.push('\0'), '\0');
    assert(parts =~= seq![record, none]);
    assert(parts.drop_last() =~= seq![record]);
    assert(parts.drop_last().drop_last() =~= Seq::<Seq<char>>::empty());
    reveal_with_fuel(nonempty, 3);
    assert(nonempty(parts.drop_last().drop_last()) =~= Seq::<Seq<char>>::empty());
    assert(nonempty(parts.drop_last()) =~= seq![record]);
    assert(nonempty(parts) =~= seq![record]);
}

/// What one record of `git status` says, by its letter for the index and that for the
/// working tree. A change counts whether it was staged or not: what was modified, or
/// changed its type, is modified; what was added or is not tracked is added; what was
/// deleted is deleted. A conflict, a letter that is not known and a renaming without its
/// old path are errors. Nothing else is passed over but a record that says nothing.
pub proof fn law_what_a_record_says(x: char, y: char, path: Seq<char>)
    requires
        is_letter(x),
        is_letter(y),
        is_path(path),
    ensures
        ({
            let says = parsed(one_record(x, y, path));
            let conflict = x == 'U' || y == 'U' || (x == 'A' && y == 'A') || (x == 'D' && y == 'D');
            let moved = x == 'R' || y == 'R' || x == 'C';
            &&& conflict <==> says == Err::<Seq<ChangeView>, StatusErrorView>(
                StatusErrorView::Conflict(path),
            )
            &&& !conflict && moved <==> says == Err::<Seq<ChangeView>, StatusErrorView>(
                StatusErrorView::NoOrigin(path),
            )
            &&& says matches Ok(v) ==> v.len() == (if x == ' ' && y == ' ' {
                0int
            } else {
                1
            })
            &&& !conflict && !moved && (x == 'M' || x == 'T' || (x == ' ' && (y == 'M' || y
                == 'T'))) <==> says == Ok::<Seq<ChangeView>, StatusErrorView>(
                seq![ChangeView::Modified(path)],
            )
            &&& !conflict && !moved && (x == 'A' || (x == '?' && y == '?')) <==> says == Ok::<
                Seq<ChangeView>,
                StatusErrorView,
            >(seq![ChangeView::Added(path)])
            &&& !conflict && !moved && (x == 'D' || (x == ' ' && y == 'D')) <==> says == Ok::<
                Seq<ChangeView>,
                StatusErrorView,
            >(seq![ChangeView::Deleted(path)])
            &&& (x == ' ' && y == ' ') <==> says == Ok::<Seq<ChangeView>, StatusErrorView>(
                Seq::<ChangeView>::empty(),
            )
            &&& says matches Err(StatusErrorView::Unknown(c)) ==> c == (if x == ' ' {
                y
            } else {
                x
            })
        }),
{
    one_segment(x, y, path);
    ascii_letters(x, y, path);
    let record = seq![x, y, ' '] + path;
    let segs = seq![record];
    assert(segs[0] == record);
    let none = Seq::<ChangeView>::empty();
    reveal_with_fuel(parsed_from, 2);
    assert(none.push(ChangeView::Modified(path)) =~= seq![ChangeView::Modified(path)]);
    assert(none.push(ChangeView::Added(path)) =~= seq![ChangeView::Added(path)]);
    assert(none.push(ChangeView::Deleted(path)) =~= seq![ChangeView::Deleted(path)]);
    assert(seq![ChangeView::Modified(path)][0] == ChangeView::Modified(path));
    assert(seq![ChangeView::Added(path)][0] == ChangeView::Added(path));
    assert(seq![ChangeView::Deleted(path)][0] == ChangeView::Deleted(path));
}

/// A record of a renamed file is one change with both paths, the old one from the record
/// behind it; a copied file is a new one, and what it was copied from is left alone.
pub proof fn law_what_a_renaming_says(x: char, y: char, path: Seq<char>, origin: Seq<char>)
    requires
        is_letter(x),
        is_letter(y),
        is_path(path),
        is_path(origin),
        x != 'U' && y != 'U',
        x == 'R' || y == 'R' || x == 'C',
    ensures
        parsed(one_record(x, y, path) + origin.push('\0')) == Ok::<
            Seq<ChangeView>,
            StatusErrorView,
        >(
            if x == 'R' || y == 'R' {
                seq![ChangeView::Renamed(origin, path)]
            } else {
                seq![ChangeView::Added(path)]
            },
        ),
{
    one_segment(x, y, path);
    ascii_letters(x, y, path);
    last_segment(origin);
    let record = seq![x, y, ' '] + path;
    segments_joined(one_record(x, y, path), origin.push('\0'));
    let segs = segments_of(one_record(x, y, path) + origin.push('\0'));
    assert(segs =~= seq![record, origin]);
    assert(segs[0] == record && segs[1] == origin);
    let none = Seq::<ChangeView>::empty();
    reveal_with_fuel(parsed_from, 3);
    assert(none.push(ChangeView::Renamed(origin, path)) =~= seq![ChangeView::Renamed(origin, path)]);
    assert(none.push(ChangeView::Added(path)) =~= seq![ChangeView::Added(path)]);
}

/// How often a text occurs in a list is what the multiset of the list says.
proof fn occurrences_in_multiset(list: Seq<Seq<char>>, t: Seq<char>)
    ensures
        occurrences(list, t) == list.to_multiset().count(t),
    decreases list.len(),
{
    broadcast use vstd::seq_lib::group_to_multiset_ensures;

    if list.len() > 0 {
        occurrences_in_multiset(list.drop_last(), t);
        assert(list.drop_last().push(list.last()) =~= list);
    }
}

/// A commit passes the check where it touches just the given paths, each as often, in
/// whatever order: as multisets the two lists are equal.
pub proof fn law_only_the_order_may_differ(a: Seq<Seq<char>>, b: Seq<Seq<char>>)
    ensures
        same_paths(a, b) <==> a.to_multiset() == b.to_multiset(),
        same_paths(a, b) ==> a.len() == b.len(),
{
    assert forall|t: Seq<char>| occurrences(a, t) == a.to_multiset().count(t)
        && #[trigger] occurrences(b, t) == b.to_multiset().count(t) by {
        occurrences_in_multiset(a, t);
        occurrences_in_multiset(b, t);
    }
    broadcast use vstd::seq_lib::group_to_multiset_ensures;

    if same_paths(a, b) {
        assert forall|t: Seq<char>| a.to_multiset().count(t) == b.to_multiset().count(t) by {
            assert(occurrences(a, t) == occurrences(b, t));
        }
        assert(a.to_multiset() =~= b.to_multiset());
        a.to_multiset_ensures();
        b.to_multiset_ensures();
        assert(a.to_multiset().len() == a.len());
    }
}

proof fn touched_shift(a: Seq<Seq<char>>, b: Seq<Seq<char>>, i: int, read: Seq<Seq<char>>)
    requires
        0 <= i,
    ensures
        touched_from(a + b, a.len() + i, read) == touched_from(b, i, read),
    decreases b.len() + 3 - i,
{
    let whole = a + b;
    if i < b.len() {
        assert(whole[a.len() + i] == b[i]);
        if i + 1 < b.len() {
            assert(whole[a.len() + i + 1] == b[i + 1]);
        }
        if i + 2 < b.len() {
            assert(whole[a.len() + i + 2] == b[i + 2]);
        }
        let two = b[i].len() > 0 && (b[i][0] == 'R' || b[i][0] == 'C');
        let first = if i + 1 < b.len() {
            read.push(b[i + 1])
        } else {
            read
        };
        if two {
            let second = if i + 2 < b.len() {
                first.push(b[i + 2])
            } else {
                first
            };
            touched_shift(a, b, i + 3, second);
        } else {
            touched_shift(a, b, i + 2, first);
        }
    }
}

proof fn touched_on(segs: Seq<Seq<char>>, i: int, read: Seq<Seq<char>>)
    requires
        0 <= i,
    ensures
        touched_from(segs, i, read) == read + touched_from(segs, i, Seq::empty()),
    decreases segs.len() + 3 - i,
{
    let none = Seq::<Seq<char>>::empty();
    if i >= segs.len() {
        assert(read + none =~= read);
    } else {
        let two = segs[i].len() > 0 && (segs[i][0] == 'R' || segs[i][0] == 'C');
        let first = if i + 1 < segs.len() {
            seq![segs[i + 1]]
        } else {
            none
        };
        let second = if i + 2 < segs.len() {
            first.push(segs[i + 2])
        } else {
            first
        };
        assert(none.push(segs[i + 1]) =~= seq![segs[i + 1]]);
        assert(read.push(segs[i + 1]) =~= read + seq![segs[i + 1]]);
        assert(read + none =~= read);
        let here = if two {
            second
        } else {
            first
        };
        let next = if two {
            i + 3
        } else {
            i + 2
        };
        if i + 2 < segs.len() {
            assert((read + first).push(segs[i + 2]) =~= read + second);
        }
        touched_on(segs, next, read + here);
        touched_on(segs, next, here);
        assert(touched_from(segs, i, read) == touched_from(segs, next, read + here));
        assert(touched_from(segs, i, none) == touched_from(segs, next, here));
        assert((read + here) + touched_from(segs, next, none) =~= read + (here + touched_from(
            segs,
            next,
            none,
        )));
    }
}

/// Every entry of a commit names the paths that it touches: one, or the old and the new
/// one where the file was renamed or copied; entries behind it are read as they are.
pub proof fn law_touched_paths(status: Seq<char>, paths: Seq<Seq<char>>, rest: Seq<Seq<char>>)
    requires
        status.len() > 0,
        paths.len() == (if status[0] == 'R' || status[0] == 'C' {
            2int
        } else {
            1
        }),
    ensures
        touched_from(seq![status] + paths + rest, 0, Seq::empty()) == paths + touched_from(
            rest,
            0,
            Seq::empty(),
        ),
{
    let none = Seq::<Seq<char>>::empty();
    let head = seq![status] + paths;
    let whole = head + rest;
    assert(whole[0] == status);
    assert(whole[1] == paths[0]);
    if paths.len() == 2 {
        assert(whole[2] == paths[1]);
        assert(none.push(paths[0]).push(paths[1]) =~= paths);
    } else {
        assert(none.push(paths[0]) =~= paths);
    }
    assert(touched_from(whole, 0, none) == touched_from(whole, head.len() as int, paths));
    touched_shift(head, rest, 0, paths);
    touched_on(rest, 0, paths);
}

/// What a failed command says comes from its errors; from its output only where the errors
/// say nothing.
pub proof fn law_errors_are_told_first(stderr: Seq<char>, stdout: Seq<char>)
    ensures
        gist(stderr).len() > 0 ==> summary_of(stderr, stdout) == gist(stderr),
        gist(stderr).len() == 0 ==> summary_of(stderr, stdout) == gist(stdout),
{
}

} // verus!

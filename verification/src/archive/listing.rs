//! The listing of an archive: what the engine reports of its members, which of
//! them are refused, and which directories of a git project it holds.

use crate::fsutil;
use crate::fsutil::PathError;
use crate::text;
use vstd::prelude::*;

verus! {

/// The directory for archives that could not be extracted completely.
pub const QUARANTINE_DIR_NAME: &'static str = "解压失败";

/// The position of the first part that is `.git`, at or after `from`.
pub open spec fn git_part(parts: Seq<Seq<char>>, from: int) -> Option<int>
    decreases parts.len() - from,
{
    if from < 0 || from >= parts.len() {
        None
    } else if text::lower(parts[from]) == ".git"@ {
        Some(from)
    } else {
        git_part(parts, from + 1)
    }
}

/// The directory that directly holds the first `.git` of a path; empty for the
/// root of the archive.
pub open spec fn git_boundary(rel: Seq<char>) -> Option<Seq<char>> {
    let parts = text::split_on(rel, '/');
    match git_part(parts, 0) {
        Some(i) => Some(text::join_with(parts.take(i), seq!['/'])),
        None => None,
    }
}

/// The first parts of a list, as strings of their own.
fn first_parts(parts: &Vec<String>, n: usize) -> (r: Vec<String>)
    requires
        n <= parts@.len(),
    ensures
        text::texts(r@) == text::texts(parts@).take(n as int),
{
    let mut r: Vec<String> = Vec::new();
    let mut i: usize = 0;
    while i < n
        invariant
            i <= n <= parts@.len(),
            text::texts(r@) == text::texts(parts@).take(i as int),
        decreases n - i,
    {
        let ghost before = r@;
        r.push(parts[i].clone());
        assert(text::texts(r@) =~= text::texts(before).push(parts@[i as int]@));
        i = i + 1;
        assert(text::texts(r@) =~= text::texts(parts@).take(i as int));
    }
    r
}

/// The directory that directly holds the `.git` in a member's path.
pub fn git_boundary_prefix(rel: &str) -> (r: Option<String>)
    ensures
        text::text_option(r) == git_boundary(rel@),
{
    let parts = text::split(rel, '/');
    let ghost all = text::texts(parts@);
    let mut i: usize = 0;
    while i < parts.len()
        invariant
            all == text::texts(parts@),
            all == text::split_on(rel@, '/'),
            i <= parts@.len(),
            git_part(all, 0) == git_part(all, i as int),
        decreases parts.len() - i,
    {
        assert(all[i as int] == parts@[i as int]@);
        if text::same(text::lower_text(parts[i].as_str()).as_str(), ".git") {
            proof {
                reveal_strlit("/");
                assert("/"@ =~= seq!['/']);
            }
            return Some(text::join(&first_parts(&parts, i), "/"));
        }
        i = i + 1;
    }
    None
}

/// The path grown part by part: an empty start takes no slash.
pub open spec fn grown(parts: Seq<Seq<char>>) -> Seq<char>
    decreases parts.len(),
{
    if parts.len() == 0 {
        Seq::empty()
    } else {
        let before = grown(parts.drop_last());
        if before.len() == 0 {
            parts.last()
        } else {
            before.push('/') + parts.last()
        }
    }
}

/// Some start of the path, by whole components, is one of the directories.
pub open spec fn is_inside(subtrees: Set<Seq<char>>, rel: Seq<char>) -> bool {
    exists|k: int|
        1 <= k <= text::split_on(rel, '/').len() && subtrees.contains(
            #[trigger] grown(text::split_on(rel, '/').take(k)),
        )
}

/// The set of the strings in a list.
pub open spec fn text_set(v: Seq<String>) -> Set<Seq<char>> {
    text::texts(v).to_set()
}

/// Whether a list holds a text.
pub fn holds(list: &Vec<String>, s: &str) -> (r: bool)
    ensures
        r == text_set(list@).contains(s@),
{
    let ghost all = text::texts(list@);
    let mut i: usize = 0;
    while i < list.len()
        invariant
            all == text::texts(list@),
            i <= list@.len(),
            forall|k: int| 0 <= k < i ==> all[k] != s@,
        decreases list.len() - i,
    {
        if text::same(list[i].as_str(), s) {
            assert(all[i as int] == s@);
            assert(all.contains(s@));
            return true;
        }
        i = i + 1;
    }
    assert(!all.contains(s@));
    false
}

/// Whether a member lies in a directory that directly holds `.git`; paths are
/// compared by whole components.
pub fn inside_git_subtree(subtrees: &Vec<String>, rel: &str) -> (r: bool)
    ensures
        r == is_inside(text_set(subtrees@), rel@),
{
    let parts = text::split(rel, '/');
    let ghost all = text::texts(parts@);
    let mut prefix = String::new();
    let mut i: usize = 0;
    assert(prefix@ =~= grown(all.take(0)));
    while i < parts.len()
        invariant
            all == text::texts(parts@),
            all == text::split_on(rel@, '/'),
            i <= parts@.len(),
            prefix@ == grown(all.take(i as int)),
            forall|k: int|
                1 <= k <= i ==> !text_set(subtrees@).contains(#[trigger] grown(all.take(k))),
        decreases parts.len() - i,
    {
        assert(all.take(i + 1).drop_last() =~= all.take(i as int));
        assert(all.take(i + 1).last() == parts@[i as int]@);
        if !prefix.as_str().is_empty() {
            prefix.push('/');
            prefix.append(parts[i].as_str());
        } else {
            prefix.append(parts[i].as_str());
            assert(prefix@ =~= parts@[i as int]@);
        }
        assert(prefix@ == grown(all.take(i + 1)));
        if holds(subtrees, prefix.as_str()) {
            return true;
        }
        i = i + 1;
    }
    false
}

/// In a path whose components are not empty, each start that is compared is
/// whole components joined with slashes.
pub proof fn law_inside_by_components(parts: Seq<Seq<char>>, k: int)
    requires
        1 <= k <= parts.len(),
        forall|i: int| 0 <= i < parts.len() ==> (#[trigger] parts[i]).len() > 0,
    ensures
        grown(parts.take(k)) == text::join_with(parts.take(k), seq!['/']),
        grown(parts.take(k)).len() > 0,
    decreases k,
{
    let head = parts.take(k);
    assert(head.last() == parts[k - 1]);
    if k == 1 {
        assert(head.drop_last() =~= Seq::<Seq<char>>::empty());
        assert(grown(head.drop_last()).len() == 0);
    } else {
        law_inside_by_components(parts, k - 1);
        assert(head.drop_last() =~= parts.take(k - 1));
        let before = text::join_with(parts.take(k - 1), seq!['/']);
        assert(before.push('/') + head.last() =~= before + seq!['/'] + head.last());
    }
}

/// The suffix of a single compressed stream, in a lower-case name.
pub open spec fn stream_suffix(name: Seq<char>) -> Option<Seq<char>> {
    if text::has_suffix(name, ".tgz"@) {
        Some(".tgz"@)
    } else if text::has_suffix(name, ".tbz2"@) {
        Some(".tbz2"@)
    } else if text::has_suffix(name, ".tbz"@) {
        Some(".tbz"@)
    } else if text::has_suffix(name, ".txz"@) {
        Some(".txz"@)
    } else if text::has_suffix(name, ".tzst"@) {
        Some(".tzst"@)
    } else if text::has_suffix(name, ".bz2"@) {
        Some(".bz2"@)
    } else if text::has_suffix(name, ".gz"@) {
        Some(".gz"@)
    } else if text::has_suffix(name, ".xz"@) {
        Some(".xz"@)
    } else if text::has_suffix(name, ".lzma"@) {
        Some(".lzma"@)
    } else if text::has_suffix(name, ".zst"@) {
        Some(".zst"@)
    } else if text::has_suffix(name, ".lz4"@) {
        Some(".lz4"@)
    } else if text::has_suffix(name, ".lz"@) {
        Some(".lz"@)
    } else if text::has_suffix(name, ".z"@) {
        Some(".z"@)
    } else if text::has_suffix(name, ".br"@) {
        Some(".br"@)
    } else {
        None
    }
}

/// A suffix that stands for a compressed tar file.
pub open spec fn is_tar_suffix(suffix: Seq<char>) -> bool {
    ||| suffix == ".tgz"@
    ||| suffix == ".tbz2"@
    ||| suffix == ".tbz"@
    ||| suffix == ".txz"@
    ||| suffix == ".tzst"@
}

/// The name without one layer of compression.
pub open spec fn unpacked_name(name: Seq<char>) -> Option<Seq<char>> {
    match stream_suffix(text::lower(name)) {
        None => None,
        Some(suffix) => {
            let stem = name.subrange(0, name.len() - suffix.len());
            if stem.len() == 0 {
                None
            } else if is_tar_suffix(suffix) && !text::has_suffix(text::lower(stem), ".tar"@) {
                Some(stem + ".tar"@)
            } else {
                Some(stem)
            }
        },
    }
}

fn find_stream_suffix(name: &str) -> (r: Option<&'static str>)
    ensures
        match r {
            Some(s) => stream_suffix(name@) == Some(s@) && text::has_suffix(name@, s@),
            None => stream_suffix(name@) is None,
        },
{
    if text::ends_with(name, ".tgz") {
        Some(".tgz")
    } else if text::ends_with(name, ".tbz2") {
        Some(".tbz2")
    } else if text::ends_with(name, ".tbz") {
        Some(".tbz")
    } else if text::ends_with(name, ".txz") {
        Some(".txz")
    } else if text::ends_with(name, ".tzst") {
        Some(".tzst")
    } else if text::ends_with(name, ".bz2") {
        Some(".bz2")
    } else if text::ends_with(name, ".gz") {
        Some(".gz")
    } else if text::ends_with(name, ".xz") {
        Some(".xz")
    } else if text::ends_with(name, ".lzma") {
        Some(".lzma")
    } else if text::ends_with(name, ".zst") {
        Some(".zst")
    } else if text::ends_with(name, ".lz4") {
        Some(".lz4")
    } else if text::ends_with(name, ".lz") {
        Some(".lz")
    } else if text::ends_with(name, ".z") {
        Some(".z")
    } else if text::ends_with(name, ".br") {
        Some(".br")
    } else {
        None
    }
}

/// The name of a compressed stream without one layer of compression; `None` for
/// any other name.
pub fn stream_stem(name: &str) -> (r: Option<String>)
    ensures
        text::text_option(r) == unpacked_name(name@),
{
    let lower = text::lower_text(name);
    let suffix = match find_stream_suffix(lower.as_str()) {
        Some(suffix) => suffix,
        None => return None,
    };
    let v = text::chars_of(name);
    let n: usize = v.len() - suffix.unicode_len();
    if n == 0 {
        return None;
    }
    let mut stem = text::string_of(&v, 0, n);
    if (text::same(suffix, ".tgz") || text::same(suffix, ".tbz2") || text::same(suffix, ".tbz")
        || text::same(suffix, ".txz") || text::same(suffix, ".tzst")) && !text::ends_with(
        text::lower_text(stem.as_str()).as_str(),
        ".tar",
    ) {
        stem.append(".tar");
    }
    Some(stem)
}

/// The name of the only member of a stream that does not name it.
pub open spec fn stream_member(name: Option<Seq<char>>) -> Seq<char> {
    match name {
        None => "content"@,
        Some(n) => match unpacked_name(n) {
            Some(stem) => stem,
            None => match fsutil::inner_dot(n) {
                Some(dot) => n.take(dot),
                None => n,
            },
        },
    }
}

/// The name under which the only member of a stream is listed when the engine
/// gives none: the archive's name without its last suffix.
pub fn stream_member_name(name: Option<&str>) -> (r: String)
    ensures
        r@ == stream_member(
            match name {
                Some(n) => Some(n@),
                None => None,
            },
        ),
{
    let n = match name {
        Some(n) => n,
        None => return "content".to_owned(),
    };
    if let Some(stem) = stream_stem(n) {
        return stem;
    }
    let v = text::chars_of(n);
    assert(v@.take(v@.len() as int) =~= v@);
    match text::last_index(&v, v.len(), '.') {
        Some(i) => {
            if i > 0 {
                assert(v@.subrange(0, i as int) =~= v@.take(i as int));
                text::string_of(&v, 0, i)
            } else {
                n.to_owned()
            }
        },
        None => n.to_owned(),
    }
}

/// Limits on what an archive may hold; zero for no limit, except for the
/// number of entries.
#[derive(Clone, Copy, Debug)]
pub struct ListLimits {
    pub max_entries: u64,
    pub max_file_gib: u64,
    pub max_unpacked_gib: u64,
}

/// The limits in bytes fit in a `u64`.
pub open spec fn limits_fit(limits: ListLimits) -> bool {
    limits.max_file_gib < 0x4_0000_0000 && limits.max_unpacked_gib < 0x4_0000_0000
}

/// Why an archive is refused by its listing.
#[derive(Clone, Copy, Debug, PartialEq, Eq, Structural)]
pub enum ListError {
    /// The path of a member is not safe.
    Path(PathError),
    /// A member would go to a work or system directory.
    WorkArea,
    /// A member would go where neither tool looks.
    ReservedName,
    /// A member is encrypted.
    Encrypted,
    /// A member is a link, a reparse point or an alternate stream.
    Link,
    /// A member is a Unix symbolic link.
    UnixLink,
    /// A member's size is no number.
    BadSize,
    /// The entries can no longer be counted.
    CountOverflow,
    /// The sizes can no longer be added.
    TotalOverflow,
    /// More entries than allowed.
    TooManyEntries,
    /// A file larger than allowed.
    FileTooLarge,
    /// More bytes in all than allowed.
    ArchiveTooLarge,
    /// A member with a hundred fields and more.
    TooManyFields,
    /// A member with the same field twice.
    DuplicateField,
}

/// A field of a member: its name and its value.
pub type FieldView = (Seq<char>, Seq<char>);

/// The value of the first field with the given name.
pub open spec fn field_value(fields: Seq<FieldView>, key: Seq<char>) -> Option<Seq<char>>
    decreases fields.len(),
{
    if fields.len() == 0 {
        None
    } else if fields[0].0 == key {
        Some(fields[0].1)
    } else {
        field_value(fields.drop_first(), key)
    }
}

/// The fields of a member as they were read.
pub open spec fn field_views(fields: Seq<(String, String)>) -> Seq<FieldView> {
    Seq::new(fields.len(), |i: int| (fields[i].0@, fields[i].1@))
}

/// The block describes a member, though it may not name it.
pub open spec fn has_metadata(fields: Seq<FieldView>) -> bool {
    ||| field_value(fields, "Size"@) is Some
    ||| field_value(fields, "Packed Size"@) is Some
    ||| field_value(fields, "Folder"@) is Some
    ||| field_value(fields, "Encrypted"@) is Some
    ||| field_value(fields, "Attributes"@) is Some
}

/// The path of the member that the block describes, if it describes one.
pub open spec fn member_path(fields: Seq<FieldView>, stream_name: Seq<char>) -> Option<Seq<char>> {
    match field_value(fields, "Path"@) {
        Some(path) => if path == "."@ || path == "./"@ {
            None
        } else {
            Some(path)
        },
        None => if !has_metadata(fields) || stream_name == "."@ || stream_name == "./"@ {
            None
        } else {
            Some(stream_name)
        },
    }
}

/// A directory that belongs to this program or to the system.
pub open spec fn is_work_area(part: Seq<char>) -> bool {
    let p = text::lower(part);
    ||| p == text::lower(".jchtools-work"@)
    ||| p == text::lower("$RECYCLE.BIN"@)
    ||| p == text::lower("System Volume Information"@)
}

/// One of the parts belongs to this program or to the system.
pub open spec fn in_work_area(path: Seq<char>) -> bool {
    exists|i: int|
        0 <= i < text::split_on(path, '/').len() && is_work_area(
            #[trigger] text::split_on(path, '/')[i],
        )
}

/// The path lies where neither tool looks.
pub open spec fn is_reserved(path: Seq<char>, at_root: bool) -> bool {
    ||| at_root && text::split_on(path, '/')[0] == QUARANTINE_DIR_NAME@
    ||| exists|i: int|
        0 <= i < text::split_on(path, '/').len() && text::has_prefix(
            #[trigger] text::split_on(path, '/')[i],
            ".jchtools-link-"@,
        )
}

/// A field that is set to something.
pub open spec fn is_set(fields: Seq<FieldView>, key: Seq<char>) -> bool {
    match field_value(fields, key) {
        Some(v) => v.len() > 0 && v != "-"@,
        None => false,
    }
}

/// The member is a link of some kind.
pub open spec fn is_linked(fields: Seq<FieldView>) -> bool {
    ||| is_set(fields, "Symbolic Link"@)
    ||| is_set(fields, "Hard Link"@)
    ||| is_set(fields, "Reparse"@)
    ||| is_set(fields, "Alternate Stream"@)
}

/// The attributes of the member.
pub open spec fn attributes(fields: Seq<FieldView>) -> Seq<char> {
    match field_value(fields, "Attributes"@) {
        Some(v) => v,
        None => Seq::empty(),
    }
}

/// One of the attribute words marks a Unix link.
pub open spec fn is_unix_link(attr: Seq<char>) -> bool {
    exists|i: int|
        0 <= i < text::words(attr).len() && text::has_prefix(#[trigger] text::words(attr)[i], "l"@)
}

/// The member is a directory.
pub open spec fn is_folder(fields: Seq<FieldView>) -> bool {
    let attr = attributes(fields);
    ||| field_value(fields, "Folder"@) == Some("+"@)
    ||| attr.len() > 0 && (attr[0] == 'D' || attr[0] == 'd')
}

/// A member that the listing allows: its safe path, and its size if it has one.
pub struct EntryView {
    pub path: Seq<char>,
    pub size: Option<u64>,
}

/// The size of a member: nothing for a directory, unknown where it is not given.
pub open spec fn entry_size(fields: Seq<FieldView>) -> Result<Option<u64>, ListError> {
    if is_folder(fields) {
        Ok(Some(0))
    } else {
        match field_value(fields, "Size"@) {
            Some(s) => if s.len() == 0 {
                Ok(None)
            } else {
                match text::parsed_u64(s) {
                    Some(n) => Ok(Some(n)),
                    None => Err(ListError::BadSize),
                }
            },
            None => Ok(None),
        }
    }
}

/// The member with the given path, or why it is refused.
pub open spec fn entry_of(fields: Seq<FieldView>, raw: Seq<char>, at_root: bool) -> Result<
    EntryView,
    ListError,
> {
    match fsutil::safe_path(raw) {
        Err(e) => Err(ListError::Path(e)),
        Ok(path) => if in_work_area(path) {
            Err(ListError::WorkArea)
        } else if is_reserved(path, at_root) {
            Err(ListError::ReservedName)
        } else if field_value(fields, "Encrypted"@) == Some("+"@) {
            Err(ListError::Encrypted)
        } else if is_linked(fields) {
            Err(ListError::Link)
        } else if is_unix_link(attributes(fields)) {
            Err(ListError::UnixLink)
        } else {
            match entry_size(fields) {
                Err(e) => Err(e),
                Ok(size) => Ok(EntryView { path, size }),
            }
        },
    }
}

/// What has been read of a listing.
pub struct ListView {
    pub fields: Seq<FieldView>,
    pub total: u64,
    pub count: u64,
    pub sizes_complete: bool,
    pub git_subtrees: Set<Seq<char>>,
}

/// Before the first line.
pub open spec fn list_start() -> ListView {
    ListView {
        fields: Seq::empty(),
        total: 0,
        count: 0,
        sizes_complete: true,
        git_subtrees: Set::empty(),
    }
}

/// Takes a member into the totals.
pub open spec fn with_entry(l: ListView, entry: EntryView, limits: ListLimits) -> Result<
    ListView,
    ListError,
> {
    let size = match entry.size {
        Some(n) => n,
        None => 0u64,
    };
    if l.count + 1 > u64::MAX {
        Err(ListError::CountOverflow)
    } else if l.total + size > u64::MAX {
        Err(ListError::TotalOverflow)
    } else if l.count + 1 > limits.max_entries {
        Err(ListError::TooManyEntries)
    } else if limits.max_file_gib > 0 && size > limits.max_file_gib * 0x4000_0000 {
        Err(ListError::FileTooLarge)
    } else if limits.max_unpacked_gib > 0 && l.total + size > limits.max_unpacked_gib * 0x4000_0000 {
        Err(ListError::ArchiveTooLarge)
    } else {
        Ok(
            ListView {
                fields: Seq::empty(),
                total: (l.total + size) as u64,
                count: (l.count + 1) as u64,
                sizes_complete: l.sizes_complete && entry.size is Some,
                git_subtrees: match git_boundary(entry.path) {
                    Some(prefix) => l.git_subtrees.insert(prefix),
                    None => l.git_subtrees,
                },
            },
        )
    }
}

/// The end of a block.
pub open spec fn block_end(
    l: ListView,
    stream_name: Seq<char>,
    at_root: bool,
    limits: ListLimits,
) -> Result<ListView, ListError> {
    match member_path(l.fields, stream_name) {
        None => Ok(ListView { fields: Seq::empty(), ..l }),
        Some(raw) => match entry_of(l.fields, raw, at_root) {
            Err(e) => Err(e),
            Ok(entry) => with_entry(l, entry, limits),
        },
    }
}

/// One line of the listing.
pub open spec fn list_line(
    l: ListView,
    line: Seq<char>,
    stream_name: Seq<char>,
    at_root: bool,
    limits: ListLimits,
) -> Result<ListView, ListError> {
    if text::trimmed(line).len() == 0 {
        block_end(l, stream_name, at_root, limits)
    } else {
        match text::cut_once(line, " = "@) {
            None => Ok(l),
            Some((key, value)) => if l.fields.len() >= 100 {
                Err(ListError::TooManyFields)
            } else if field_value(l.fields, key) is Some {
                Err(ListError::DuplicateField)
            } else {
                Ok(ListView { fields: l.fields.push((key, value)), ..l })
            },
        }
    }
}

/// The listing after some lines.
pub open spec fn list_read(
    lines: Seq<Seq<char>>,
    stream_name: Seq<char>,
    at_root: bool,
    limits: ListLimits,
) -> Result<ListView, ListError>
    decreases lines.len(),
{
    if lines.len() == 0 {
        Ok(list_start())
    } else {
        match list_read(lines.drop_last(), stream_name, at_root, limits) {
            Err(e) => Err(e),
            Ok(l) => list_line(l, lines.last(), stream_name, at_root, limits),
        }
    }
}

/// The whole listing: its lines, and the end of the last block.
pub open spec fn listed(
    lines: Seq<Seq<char>>,
    stream_name: Seq<char>,
    at_root: bool,
    limits: ListLimits,
) -> Result<ListView, ListError> {
    match list_read(lines, stream_name, at_root, limits) {
        Err(e) => Err(e),
        Ok(l) => block_end(l, stream_name, at_root, limits),
    }
}

/// What the listing of an archive comes to.
#[derive(Debug)]
pub struct Listing {
    /// The bytes of all members.
    pub total: u64,
    /// Every member has a known size.
    pub sizes_complete: bool,
    /// The directories that directly hold `.git`.
    pub git_subtrees: Vec<String>,
}

/// Reads the listing of an archive.
#[derive(Debug)]
pub struct Lister {
    fields: Vec<(String, String)>,
    total: u64,
    count: u64,
    sizes_complete: bool,
    git_subtrees: Vec<String>,
    stream_name: String,
    at_root: bool,
    limits: ListLimits,
}

impl View for Lister {
    type V = ListView;

    closed spec fn view(&self) -> ListView {
        ListView {
            fields: field_views(self.fields@),
            total: self.total,
            count: self.count,
            sizes_complete: self.sizes_complete,
            git_subtrees: text_set(self.git_subtrees@),
        }
    }
}

impl Lister {
    /// The name that stands for a member without one.
    pub closed spec fn stream(&self) -> Seq<char> {
        self.stream_name@
    }

    /// The archive lies directly in the chosen directory.
    pub closed spec fn top(&self) -> bool {
        self.at_root
    }

    /// The limits that apply.
    pub closed spec fn bounds(&self) -> ListLimits {
        self.limits
    }

    /// A reader that has seen nothing.
    pub fn new(stream_name: String, at_root: bool, limits: ListLimits) -> (r: Lister)
        ensures
            r@ == list_start(),
            r.stream() == stream_name@,
            r.top() == at_root,
            r.bounds() == limits,
    {
        let r = Lister {
            fields: Vec::new(),
            total: 0,
            count: 0,
            sizes_complete: true,
            git_subtrees: Vec::new(),
            stream_name,
            at_root,
            limits,
        };
        assert(r@.fields =~= list_start().fields);
        assert(r@.git_subtrees =~= list_start().git_subtrees);
        r
    }
}

/// The value of a field.
fn find_field<'a>(fields: &'a Vec<(String, String)>, key: &str) -> (r: Option<&'a String>)
    ensures
        match r {
            Some(v) => field_value(field_views(fields@), key@) == Some(v@),
            None => field_value(field_views(fields@), key@) is None,
        },
{
    let ghost all = field_views(fields@);
    let mut i: usize = 0;
    assert(all.skip(0) =~= all);
    while i < fields.len()
        invariant
            all == field_views(fields@),
            i <= fields@.len(),
            field_value(all, key@) == field_value(all.skip(i as int), key@),
        decreases fields.len() - i,
    {
        assert(all.skip(i as int)[0] == all[i as int]);
        if text::same(fields[i].0.as_str(), key) {
            return Some(&fields[i].1);
        }
        assert(all.skip(i as int).drop_first() =~= all.skip(i + 1));
        i = i + 1;
    }
    assert(all.skip(i as int) =~= Seq::<FieldView>::empty());
    None
}

/// Whether a field has the given value.
fn field_is(fields: &Vec<(String, String)>, key: &str, value: &str) -> (r: bool)
    ensures
        r == (field_value(field_views(fields@), key@) == Some(value@)),
{
    match find_field(fields, key) {
        Some(v) => text::same(v.as_str(), value),
        None => false,
    }
}

/// Whether a field is set to something.
fn field_set(fields: &Vec<(String, String)>, key: &str) -> (r: bool)
    ensures
        r == is_set(field_views(fields@), key@),
{
    match find_field(fields, key) {
        Some(v) => !v.as_str().is_empty() && !text::same(v.as_str(), "-"),
        None => false,
    }
}

fn work_area(part: &str) -> (r: bool)
    ensures
        r == is_work_area(part@),
{
    text::same_ignoring_case(part, ".jchtools-work") || text::same_ignoring_case(
        part,
        "$RECYCLE.BIN",
    ) || text::same_ignoring_case(part, "System Volume Information")
}

fn any_work_area(path: &str) -> (r: bool)
    ensures
        r == in_work_area(path@),
{
    let parts = text::split(path, '/');
    let ghost all = text::texts(parts@);
    let mut i: usize = 0;
    while i < parts.len()
        invariant
            all == text::texts(parts@),
            all == text::split_on(path@, '/'),
            i <= parts@.len(),
            forall|k: int| 0 <= k < i ==> !is_work_area(#[trigger] all[k]),
        decreases parts.len() - i,
    {
        assert(all[i as int] == parts@[i as int]@);
        if work_area(parts[i].as_str()) {
            return true;
        }
        i = i + 1;
    }
    false
}

fn reserved(path: &str, at_root: bool) -> (r: bool)
    ensures
        r == is_reserved(path@, at_root),
{
    let parts = text::split(path, '/');
    let ghost all = text::texts(parts@);
    proof {
        text::split_nonempty(path@, '/');
        assert(all[0] == parts@[0]@);
    }
    if at_root && text::same(parts[0].as_str(), QUARANTINE_DIR_NAME) {
        return true;
    }
    let mut i: usize = 0;
    while i < parts.len()
        invariant
            all == text::texts(parts@),
            all == text::split_on(path@, '/'),
            i <= parts@.len(),
            !(at_root && all[0] == QUARANTINE_DIR_NAME@),
            forall|k: int|
                0 <= k < i ==> !text::has_prefix(#[trigger] all[k], ".jchtools-link-"@),
        decreases parts.len() - i,
    {
        assert(all[i as int] == parts@[i as int]@);
        if text::starts_with(parts[i].as_str(), ".jchtools-link-") {
            return true;
        }
        i = i + 1;
    }
    false
}

fn unix_link(attr: &str) -> (r: bool)
    ensures
        r == is_unix_link(attr@),
{
    let list = text::split_words(attr);
    let ghost all = text::texts(list@);
    let mut i: usize = 0;
    while i < list.len()
        invariant
            all == text::texts(list@),
            all == text::words(attr@),
            i <= list@.len(),
            forall|k: int| 0 <= k < i ==> !text::has_prefix(#[trigger] all[k], "l"@),
        decreases list.len() - i,
    {
        assert(all[i as int] == list@[i as int]@);
        if text::starts_with(list[i].as_str(), "l") {
            return true;
        }
        i = i + 1;
    }
    false
}

/// A member that the listing allows.
struct Entry {
    path: String,
    size: Option<u64>,
}

/// The member with the given path, or why it is refused.
fn check_entry(fields: &Vec<(String, String)>, raw: &str, at_root: bool) -> (r: Result<
    Entry,
    ListError,
>)
    ensures
        match r {
            Ok(e) => entry_of(field_views(fields@), raw@, at_root) == Ok::<EntryView, ListError>(
                EntryView { path: e.path@, size: e.size },
            ),
            Err(e) => entry_of(field_views(fields@), raw@, at_root) == Err::<
                EntryView,
                ListError,
            >(e),
        },
{
    let path = match fsutil::safe_relative(raw) {
        Ok(path) => path,
        Err(e) => return Err(ListError::Path(e)),
    };
    if any_work_area(path.as_str()) {
        return Err(ListError::WorkArea);
    }
    if reserved(path.as_str(), at_root) {
        return Err(ListError::ReservedName);
    }
    if field_is(fields, "Encrypted", "+") {
        return Err(ListError::Encrypted);
    }
    if field_set(fields, "Symbolic Link") || field_set(fields, "Hard Link") || field_set(
        fields,
        "Reparse",
    ) || field_set(fields, "Alternate Stream") {
        return Err(ListError::Link);
    }
    let attr = match find_field(fields, "Attributes") {
        Some(v) => v.clone(),
        None => String::new(),
    };
    assert(attr@ =~= attributes(field_views(fields@)));
    if unix_link(attr.as_str()) {
        return Err(ListError::UnixLink);
    }
    let first = text::chars_of(attr.as_str());
    let directory = field_is(fields, "Folder", "+") || (first.len() > 0 && (first[0] == 'D'
        || first[0] == 'd'));
    let size: Option<u64> = if directory {
        Some(0)
    } else {
        match find_field(fields, "Size") {
            Some(s) => {
                if s.as_str().is_empty() {
                    None
                } else {
                    match text::parse_u64(s.as_str()) {
                        Some(n) => Some(n),
                        None => return Err(ListError::BadSize),
                    }
                }
            },
            None => None,
        }
    };
    Ok(Entry { path, size })
}

impl Lister {
    /// The path of the member that the block describes.
    fn block_path(&self) -> (r: Option<String>)
        ensures
            text::text_option(r) == member_path(self@.fields, self.stream()),
    {
        let fields = &self.fields;
        let raw = match find_field(fields, "Path") {
            Some(path) => path.clone(),
            None => {
                if find_field(fields, "Size").is_none() && find_field(
                    fields,
                    "Packed Size",
                ).is_none() && find_field(fields, "Folder").is_none() && find_field(
                    fields,
                    "Encrypted",
                ).is_none() && find_field(fields, "Attributes").is_none() {
                    return None;
                }
                self.stream_name.clone()
            },
        };
        if text::same(raw.as_str(), ".") || text::same(raw.as_str(), "./") {
            None
        } else {
            Some(raw)
        }
    }

    /// The end of a block: its member is checked and counted.
    fn flush(&mut self) -> (r: Result<(), ListError>)
        requires
            limits_fit(old(self).bounds()),
        ensures
            final(self).stream() == old(self).stream(),
            final(self).top() == old(self).top(),
            final(self).bounds() == old(self).bounds(),
            match r {
                Ok(()) => block_end(
                    old(self)@,
                    old(self).stream(),
                    old(self).top(),
                    old(self).bounds(),
                ) == Ok::<ListView, ListError>(final(self)@),
                Err(e) => block_end(
                    old(self)@,
                    old(self).stream(),
                    old(self).top(),
                    old(self).bounds(),
                ) == Err::<ListView, ListError>(e),
            },
    {
        let raw = match self.block_path() {
            Some(raw) => raw,
            None => {
                self.fields = Vec::new();
                assert(field_views(self.fields@) =~= Seq::<FieldView>::empty());
                return Ok(());
            },
        };
        let entry = match check_entry(&self.fields, raw.as_str(), self.at_root) {
            Ok(entry) => entry,
            Err(e) => return Err(e),
        };
        let size: u64 = match entry.size {
            Some(n) => n,
            None => 0,
        };
        if self.count == u64::MAX {
            return Err(ListError::CountOverflow);
        }
        let count: u64 = self.count + 1;
        let total: u64 = match self.total.checked_add(size) {
            Some(total) => total,
            None => return Err(ListError::TotalOverflow),
        };
        if count > self.limits.max_entries {
            return Err(ListError::TooManyEntries);
        }
        if self.limits.max_file_gib > 0 && size > self.limits.max_file_gib * 0x4000_0000 {
            return Err(ListError::FileTooLarge);
        }
        if self.limits.max_unpacked_gib > 0 && total > self.limits.max_unpacked_gib * 0x4000_0000 {
            return Err(ListError::ArchiveTooLarge);
        }
        if let Some(prefix) = git_boundary_prefix(entry.path.as_str()) {
            let ghost before = self.git_subtrees@;
            if !holds(&self.git_subtrees, prefix.as_str()) {
                self.git_subtrees.push(prefix);
                assert(text::texts(self.git_subtrees@) =~= text::texts(before).push(prefix@));
                proof {
                    set_after_push(text::texts(before), prefix@);
                }
            } else {
                assert(text_set(before).insert(prefix@) =~= text_set(before));
            }
        }
        self.fields = Vec::new();
        assert(field_views(self.fields@) =~= Seq::<FieldView>::empty());
        self.count = count;
        self.total = total;
        if entry.size.is_none() {
            self.sizes_complete = false;
        }
        Ok(())
    }

    /// Reads one line that the engine wrote.
    pub fn feed(&mut self, line: &str) -> (r: Result<(), ListError>)
        requires
            limits_fit(old(self).bounds()),
        ensures
            final(self).stream() == old(self).stream(),
            final(self).top() == old(self).top(),
            final(self).bounds() == old(self).bounds(),
            match r {
                Ok(()) => list_line(
                    old(self)@,
                    line@,
                    old(self).stream(),
                    old(self).top(),
                    old(self).bounds(),
                ) == Ok::<ListView, ListError>(final(self)@),
                Err(e) => list_line(
                    old(self)@,
                    line@,
                    old(self).stream(),
                    old(self).top(),
                    old(self).bounds(),
                ) == Err::<ListView, ListError>(e),
            },
    {
        if text::trim(line).as_str().is_empty() {
            return self.flush();
        }
        if let Some((key, value)) = text::split_once(line, " = ") {
            if self.fields.len() >= 100 {
                return Err(ListError::TooManyFields);
            }
            if find_field(&self.fields, key.as_str()).is_some() {
                return Err(ListError::DuplicateField);
            }
            let ghost before = self.fields@;
            self.fields.push((key, value));
            assert(field_views(self.fields@) =~= field_views(before).push((key@, value@)));
        }
        Ok(())
    }

    /// The listing, after the last line.
    pub fn finish(self) -> (r: Result<Listing, ListError>)
        requires
            limits_fit(self.bounds()),
        ensures
            match r {
                Ok(l) => block_end(self@, self.stream(), self.top(), self.bounds()) matches Ok(v)
                    && v.total == l.total && v.sizes_complete == l.sizes_complete
                    && v.git_subtrees == text_set(l.git_subtrees@),
                Err(e) => block_end(self@, self.stream(), self.top(), self.bounds()) == Err::<
                    ListView,
                    ListError,
                >(e),
            },
    {
        let mut reader = self;
        match reader.flush() {
            Ok(()) => Ok(
                Listing {
                    total: reader.total,
                    sizes_complete: reader.sizes_complete,
                    git_subtrees: reader.git_subtrees,
                },
            ),
            Err(e) => Err(e),
        }
    }
}

/// One more element in the list is one more in its set.
proof fn set_after_push(s: Seq<Seq<char>>, x: Seq<char>)
    ensures
        s.push(x).to_set() == s.to_set().insert(x),
{
    assert forall|y: Seq<char>| s.push(x).to_set().contains(y) <==> s.to_set().insert(x).contains(
        y,
    ) by {
        if s.contains(y) {
            let i = choose|i: int| 0 <= i < s.len() && s[i] == y;
            assert(s.push(x)[i] == y);
        }
        if y == x {
            assert(s.push(x)[s.len() as int] == y);
        }
        if s.push(x).contains(y) {
            let i = choose|i: int| 0 <= i < s.push(x).len() && s.push(x)[i] == y;
            if i < s.len() {
                assert(s[i] == y);
            }
        }
    }
    assert(s.push(x).to_set() =~= s.to_set().insert(x));
}

/// Reads the listing of an archive from the lines that the engine wrote.
pub fn list(lines: &Vec<String>, stream_name: String, at_root: bool, limits: ListLimits) -> (r:
    Result<Listing, ListError>)
    requires
        limits_fit(limits),
    ensures
        match r {
            Ok(l) => listed(text::texts(lines@), stream_name@, at_root, limits) matches Ok(v)
                && v.total == l.total && v.sizes_complete == l.sizes_complete && v.git_subtrees
                == text_set(l.git_subtrees@),
            Err(e) => listed(text::texts(lines@), stream_name@, at_root, limits) == Err::<
                ListView,
                ListError,
            >(e),
        },
{
    let ghost all = text::texts(lines@);
    let ghost stream = stream_name@;
    let mut reader = Lister::new(stream_name, at_root, limits);
    let mut i: usize = 0;
    assert(all.take(0) =~= Seq::<Seq<char>>::empty());
    while i < lines.len()
        invariant
            all == text::texts(lines@),
            limits_fit(limits),
            stream == stream_name@,
            reader.stream() == stream,
            reader.top() == at_root,
            reader.bounds() == limits,
            i <= lines@.len(),
            list_read(all.take(i as int), stream, at_root, limits) == Ok::<ListView, ListError>(
                reader@,
            ),
        decreases lines.len() - i,
    {
        assert(all.take(i + 1).drop_last() =~= all.take(i as int));
        assert(all.take(i + 1).last() == lines@[i as int]@);
        if let Err(e) = reader.feed(lines[i].as_str()) {
            proof {
                list_error_stays(all, stream, at_root, limits, i + 1, e);
            }
            return Err(e);
        }
        i = i + 1;
    }
    assert(all.take(i as int) =~= all);
    reader.finish()
}

/// An error among the first lines stays.
proof fn list_error_stays(
    lines: Seq<Seq<char>>,
    stream_name: Seq<char>,
    at_root: bool,
    limits: ListLimits,
    n: int,
    e: ListError,
)
    requires
        0 <= n <= lines.len(),
        list_read(lines.take(n), stream_name, at_root, limits) == Err::<ListView, ListError>(e),
    ensures
        list_read(lines, stream_name, at_root, limits) == Err::<ListView, ListError>(e),
    decreases lines.len(),
{
    if n < lines.len() {
        assert(lines.drop_last().take(n) =~= lines.take(n));
        list_error_stays(lines.drop_last(), stream_name, at_root, limits, n, e);
    } else {
        assert(lines.take(n) =~= lines);
    }
}

/// A listing that is accepted keeps the limits on entries and on bytes.
pub proof fn law_listing_within_limits(
    lines: Seq<Seq<char>>,
    stream_name: Seq<char>,
    at_root: bool,
    limits: ListLimits,
)
    ensures
        list_read(lines, stream_name, at_root, limits) matches Ok(l) ==> l.count
            <= limits.max_entries && (limits.max_unpacked_gib > 0 ==> l.total
            <= limits.max_unpacked_gib * 0x4000_0000),
    decreases lines.len(),
{
    if lines.len() > 0 {
        law_listing_within_limits(lines.drop_last(), stream_name, at_root, limits);
    }
}

/// The value of a field is that of the first field with its name; there is none only where
/// no field has the name.
pub proof fn law_fields_are_found(fields: Seq<FieldView>, key: Seq<char>)
    ensures
        match field_value(fields, key) {
            Some(v) => exists|i: int|
                0 <= i < fields.len() && #[trigger] fields[i] == (key, v) && forall|k: int|
                    0 <= k < i ==> (#[trigger] fields[k]).0 != key,
            None => forall|k: int| 0 <= k < fields.len() ==> (#[trigger] fields[k]).0 != key,
        },
    decreases fields.len(),
{
    if fields.len() > 0 {
        let rest = fields.drop_first();
        if fields[0].0 != key {
            law_fields_are_found(rest, key);
            match field_value(rest, key) {
                Some(v) => {
                    let i = choose|i: int|
                        0 <= i < rest.len() && #[trigger] rest[i] == (key, v) && forall|k: int|
                            0 <= k < i ==> (#[trigger] rest[k]).0 != key;
                    assert(fields[i + 1] == (key, v));
                    assert forall|k: int| 0 <= k < i + 1 implies (#[trigger] fields[k]).0 != key by {
                        if k > 0 {
                            assert(rest[k - 1] == fields[k]);
                        }
                    }
                },
                None => {
                    assert forall|k: int| 0 <= k < fields.len() implies (#[trigger] fields[k]).0
                        != key by {
                        if k > 0 {
                            assert(rest[k - 1] == fields[k]);
                        }
                    }
                },
            }
        } else {
            assert(fields[0] == (key, fields[0].1));
        }
    }
}

/// A member is listed exactly where nothing speaks against it: its path is safe and leads
/// to no work or system directory and to no reserved name, it is not encrypted and no link
/// of any kind, and its size can be read. What is listed is its safe path.
pub proof fn law_which_members_are_listed(fields: Seq<FieldView>, raw: Seq<char>, at_root: bool)
    ensures
        ({
            let r = entry_of(fields, raw, at_root);
            let encrypted = field_value(fields, "Encrypted"@) == Some("+"@);
            let linked = is_set(fields, "Symbolic Link"@) || is_set(fields, "Hard Link"@) || is_set(
                fields,
                "Reparse"@,
            ) || is_set(fields, "Alternate Stream"@);
            match fsutil::safe_path(raw) {
                Err(e) => r == Err::<EntryView, ListError>(ListError::Path(e)),
                Ok(path) => {
                    let barred = in_work_area(path) || is_reserved(path, at_root);
                    &&& in_work_area(path) <==> r == Err::<EntryView, ListError>(
                        ListError::WorkArea,
                    )
                    &&& !in_work_area(path) && is_reserved(path, at_root) <==> r == Err::<
                        EntryView,
                        ListError,
                    >(ListError::ReservedName)
                    &&& !barred && encrypted <==> r == Err::<EntryView, ListError>(
                        ListError::Encrypted,
                    )
                    &&& !barred && !encrypted && linked <==> r == Err::<EntryView, ListError>(
                        ListError::Link,
                    )
                    &&& r is Ok <==> !barred && !encrypted && !linked && !is_unix_link(
                        attributes(fields),
                    ) && entry_size(fields) is Ok
                    &&& r matches Ok(e) ==> e.path == path && entry_size(fields) == Ok::<
                        Option<u64>,
                        ListError,
                    >(e.size)
                },
            }
        }),
{
}

/// A field counts as set where it has a value other than a dash.
pub proof fn law_what_is_set(fields: Seq<FieldView>, key: Seq<char>)
    ensures
        is_set(fields, key) <==> (field_value(fields, key) matches Some(v) && v.len() > 0 && !(
        v.len() == 1 && v[0] == '-')),
{
    reveal_strlit("-");
    if let Some(v) = field_value(fields, key) {
        if v.len() == 1 && v[0] == '-' {
            assert(v =~= "-"@);
        }
    }
}

/// A directory has no bytes; a file has those that are written down, if any are; what is
/// written down and is no number is an error.
pub proof fn law_sizes_of_members(fields: Seq<FieldView>, n: u64)
    ensures
        is_folder(fields) ==> entry_size(fields) == Ok::<Option<u64>, ListError>(Some(0)),
        !is_folder(fields) && field_value(fields, "Size"@) == Some(text::decimal(n as nat))
            ==> entry_size(fields) == Ok::<Option<u64>, ListError>(Some(n)),
        !is_folder(fields) && (field_value(fields, "Size"@) is None || field_value(
            fields,
            "Size"@,
        )->0.len() == 0) ==> entry_size(fields) == Ok::<Option<u64>, ListError>(None),
        field_value(fields, "Folder"@) == Some("+"@) ==> is_folder(fields),
{
    text::law_parse_decimal(n);
    text::law_decimal_value(n as nat);
}

/// A member that is listed counts once and adds its bytes; the archive is refused exactly
/// where that makes too many entries, a file too large or too many bytes, each limit in
/// force only where it is set, that on entries always.
pub proof fn law_members_are_counted(l: ListView, entry: EntryView, limits: ListLimits)
    requires
        l.count < u64::MAX,
    ensures
        ({
            let size = match entry.size {
                Some(n) => n as int,
                None => 0,
            };
            let many = l.count + 1 > limits.max_entries;
            let large = limits.max_file_gib > 0 && size > limits.max_file_gib * 1024 * 1024 * 1024;
            let full = limits.max_unpacked_gib > 0 && l.total + size > limits.max_unpacked_gib
                * 1024 * 1024 * 1024;
            &&& with_entry(l, entry, limits) is Ok <==> l.total + size <= u64::MAX && !many
                && !large && !full
            &&& with_entry(l, entry, limits) matches Ok(m) ==> {
                &&& m.count == l.count + 1
                &&& m.total == l.total + size
                &&& m.sizes_complete <==> l.sizes_complete && entry.size is Some
                &&& m.fields.len() == 0
                &&& git_boundary(entry.path) is None ==> m.git_subtrees == l.git_subtrees
                &&& git_boundary(entry.path) matches Some(dir) ==> m.git_subtrees
                    == l.git_subtrees.insert(dir)
            }
            &&& l.total + size <= u64::MAX && many ==> with_entry(l, entry, limits) == Err::<
                ListView,
                ListError,
            >(ListError::TooManyEntries)
            &&& l.total + size <= u64::MAX && !many && large ==> with_entry(l, entry, limits)
                == Err::<ListView, ListError>(ListError::FileTooLarge)
            &&& l.total + size <= u64::MAX && !many && !large && full ==> with_entry(
                l,
                entry,
                limits,
            ) == Err::<ListView, ListError>(ListError::ArchiveTooLarge)
        }),
{
}

/// The member of a block is the one that its path names; a block that only describes
/// something stands for the one member of a stream; anything else, and the archive's own
/// root, is no member.
pub proof fn law_which_member_a_block_names(fields: Seq<FieldView>, stream_name: Seq<char>)
    ensures
        ({
            let described = field_value(fields, "Size"@) is Some || field_value(
                fields,
                "Packed Size"@,
            ) is Some || field_value(fields, "Folder"@) is Some || field_value(
                fields,
                "Encrypted"@,
            ) is Some || field_value(fields, "Attributes"@) is Some;
            &&& field_value(fields, "Path"@) matches Some(p) ==> member_path(fields, stream_name)
                == (if p == "."@ || p == "./"@ {
                None
            } else {
                Some(p)
            })
            &&& field_value(fields, "Path"@) is None && described && stream_name != "."@
                && stream_name != "./"@ ==> member_path(fields, stream_name) == Some(stream_name)
            &&& field_value(fields, "Path"@) is None && !described ==> member_path(
                fields,
                stream_name,
            ) is None
        }),
{
}

/// A line with a name and a value adds a field to the block, unless the block has the name
/// already or is full; a blank line ends the block; any other line is passed over.
pub proof fn law_lines_make_fields(
    l: ListView,
    key: Seq<char>,
    value: Seq<char>,
    stream_name: Seq<char>,
    at_root: bool,
    limits: ListLimits,
)
    requires
        key.len() > 0,
        !text::is_space(key[0]),
        !key.contains('='),
    ensures
        ({
            let line = key + " = "@ + value;
            let r = list_line(l, line, stream_name, at_root, limits);
            let there = field_value(l.fields, key) is Some;
            &&& l.fields.len() < 100 && !there ==> r == Ok::<ListView, ListError>(
                ListView { fields: l.fields.push((key, value)), ..l },
            )
            &&& l.fields.len() >= 100 ==> r == Err::<ListView, ListError>(ListError::TooManyFields)
            &&& l.fields.len() < 100 && there ==> r == Err::<ListView, ListError>(
                ListError::DuplicateField,
            )
        }),
        list_line(l, Seq::empty(), stream_name, at_root, limits) == block_end(
            l,
            stream_name,
            at_root,
            limits,
        ),
{
    reveal_strlit(" = ");
    let sep = " = "@;
    let line = key + sep + value;
    assert(line[0] == key[0]);
    text::law_trimmed(line);
    text::law_cut_at_the_first_place(line, sep);
    let at = key.len() as int;
    assert(line.subrange(at, at + 3) =~= sep);
    assert(text::occurs_at(line, sep, at));
    assert forall|k: int| 0 <= k < at implies !(#[trigger] text::occurs_at(line, sep, k)) by {
        if text::occurs_at(line, sep, k) {
            assert(line.subrange(k, k + 3)[1] == sep[1]);
            assert(line[k + 1] == '=');
            if k + 1 < at {
                assert(key[k + 1] == '=');
            } else {
                assert(line[at] == sep[0]);
            }
        }
    }
    let (a, b) = text::cut_once(line, sep)->0;
    if a.len() < at {
        let n = a.len() as int;
        assert(line.subrange(n, n + 3) =~= sep) by {
            assert(line == a + sep + b);
        }
        assert(text::occurs_at(line, sep, n));
    }
    if a.len() > at {
        assert(!text::occurs_at(line, sep, at));
    }
    assert(a =~= line.take(at));
    assert(key =~= line.take(at));
    assert(b =~= line.skip(at + 3));
    assert(value =~= line.skip(at + 3));
    text::law_trimmed(Seq::<char>::empty());
}

proof fn git_part_is_first(parts: Seq<Seq<char>>, from: int)
    requires
        0 <= from,
    ensures
        match git_part(parts, from) {
            Some(i) => from <= i < parts.len() && text::lower(parts[i]) == ".git"@ && forall|k: int|
                from <= k < i ==> text::lower(#[trigger] parts[k]) != ".git"@,
            None => forall|k: int|
                from <= k < parts.len() ==> text::lower(#[trigger] parts[k]) != ".git"@,
        },
    decreases parts.len() - from,
{
    if from < parts.len() && text::lower(parts[from]) != ".git"@ {
        git_part_is_first(parts, from + 1);
    }
}

/// A path with a component `.git`, in whatever case, lies in a git project, whose directory
/// is what stands before the first such component; any other path does not.
pub proof fn law_git_projects_are_found(rel: Seq<char>)
    ensures
        ({
            let parts = text::split_on(rel, '/');
            match git_boundary(rel) {
                Some(dir) => exists|i: int|
                    0 <= i < parts.len() && text::lower(#[trigger] parts[i]) == ".git"@ && dir
                        == text::join_with(parts.take(i), seq!['/']) && forall|k: int|
                        0 <= k < i ==> text::lower(#[trigger] parts[k]) != ".git"@,
                None => forall|k: int|
                    0 <= k < parts.len() ==> text::lower(#[trigger] parts[k]) != ".git"@,
            }
        }),
{
    let parts = text::split_on(rel, '/');
    git_part_is_first(parts, 0);
    if let Some(i) = git_part(parts, 0) {
        assert(text::lower(parts[i]) == ".git"@);
    }
}

proof fn ends_alike(name: Seq<char>, ending: Seq<char>)
    ensures
        text::has_suffix(name, ending) ==> name.len() >= ending.len() && forall|k: int|
            1 <= k <= ending.len() ==> #[trigger] name[name.len() - k] == ending[ending.len() - k],
{
    if text::has_suffix(name, ending) {
        let tail = name.subrange(name.len() - ending.len(), name.len() as int);
        assert forall|k: int| 1 <= k <= ending.len() implies #[trigger] name[name.len() - k]
            == ending[ending.len() - k] by {
            assert(tail[ending.len() - k] == name[name.len() - k]);
        }
    }
}

/// The endings of a single compressed stream.
pub open spec fn is_stream_ending(ending: Seq<char>) -> bool {
    ||| ending == ".gz"@ || ending == ".bz2"@ || ending == ".xz"@ || ending == ".lzma"@
    ||| ending == ".zst"@ || ending == ".lz4"@ || ending == ".lz"@ || ending == ".z"@
    ||| ending == ".br"@
}

/// The endings of a compressed tar file.
pub open spec fn is_tar_ending(ending: Seq<char>) -> bool {
    ||| ending == ".tgz"@ || ending == ".tbz2"@ || ending == ".tbz"@ || ending == ".txz"@
    ||| ending == ".tzst"@
}

proof fn ending_is_found(name: Seq<char>, ending: Seq<char>)
    requires
        is_stream_ending(ending) || is_tar_ending(ending),
        text::has_suffix(name, ending),
    ensures
        stream_suffix(name) == Some(ending),
{
    ends_alike(name, ending);
    reveal_strlit(".tgz");
    reveal_strlit(".tbz2");
    reveal_strlit(".tbz");
    reveal_strlit(".txz");
    reveal_strlit(".tzst");
    reveal_strlit(".bz2");
    reveal_strlit(".gz");
    reveal_strlit(".xz");
    reveal_strlit(".lzma");
    reveal_strlit(".zst");
    reveal_strlit(".lz4");
    reveal_strlit(".lz");
    reveal_strlit(".z");
    reveal_strlit(".br");
    ends_alike(name, ".tgz"@);
    ends_alike(name, ".tbz2"@);
    ends_alike(name, ".tbz"@);
    ends_alike(name, ".txz"@);
    ends_alike(name, ".tzst"@);
    ends_alike(name, ".bz2"@);
    ends_alike(name, ".gz"@);
    ends_alike(name, ".xz"@);
    ends_alike(name, ".lzma"@);
    ends_alike(name, ".zst"@);
    ends_alike(name, ".lz4"@);
    ends_alike(name, ".lz"@);
    ends_alike(name, ".z"@);
    ends_alike(name, ".br"@);
    let n = name.len() as int;
    assert(name[n - 1] == ending[ending.len() - 1]);
    assert(name[n - 2] == ending[ending.len() - 2]);
    if ending.len() >= 3 {
        assert(name[n - 3] == ending[ending.len() - 3]);
    }
    if ending.len() >= 4 {
        assert(name[n - 4] == ending[ending.len() - 4]);
    }
    if ending.len() >= 5 {
        assert(name[n - 5] == ending[ending.len() - 5]);
    }
}

/// A compressed stream loses its ending, in whatever case it is written; a compressed tar
/// file becomes a tar file, once.
pub proof fn law_streams_lose_one_layer(stem: Seq<char>, ending: Seq<char>)
    requires
        stem.len() > 0,
        is_stream_ending(text::lower(ending)) || is_tar_ending(text::lower(ending)),
    ensures
        is_stream_ending(text::lower(ending)) ==> unpacked_name(stem + ending) == Some(stem),
        is_tar_ending(text::lower(ending)) && !text::has_suffix(text::lower(stem), ".tar"@)
            ==> unpacked_name(stem + ending) == Some(stem + ".tar"@),
        is_tar_ending(text::lower(ending)) && text::has_suffix(text::lower(stem), ".tar"@)
            ==> unpacked_name(stem + ending) == Some(stem),
{
    let name = stem + ending;
    let low = text::lower(ending);
    assert(text::lower(name) =~= text::lower(stem) + low);
    assert(text::lower(name).subrange(name.len() - low.len(), name.len() as int) =~= low);
    ending_is_found(text::lower(name), low);
    assert(name.subrange(0, name.len() - ending.len()) =~= stem);
    reveal_strlit(".tgz");
    reveal_strlit(".tbz2");
    reveal_strlit(".tbz");
    reveal_strlit(".txz");
    reveal_strlit(".tzst");
    reveal_strlit(".bz2");
    reveal_strlit(".gz");
    reveal_strlit(".xz");
    reveal_strlit(".lzma");
    reveal_strlit(".zst");
    reveal_strlit(".lz4");
    reveal_strlit(".lz");
    reveal_strlit(".z");
    reveal_strlit(".br");
    assert(!is_stream_ending(low) || !is_tar_suffix(low)) by {
        if is_tar_suffix(low) {
            assert(low[low.len() - 1] == 'z' || low[low.len() - 1] == '2' || low[low.len() - 1]
                == 't');
            assert(low[1] == 't');
        }
    }
}

/// A name with no such ending is that of no stream.
pub proof fn law_other_names_are_no_streams(name: Seq<char>)
    requires
        unpacked_name(name) is Some,
    ensures
        exists|ending: Seq<char>|
            #![trigger text::has_suffix(text::lower(name), ending)]
            text::has_suffix(text::lower(name), ending) && (is_stream_ending(ending)
                || is_tar_ending(ending)),
{
    let ending = stream_suffix(text::lower(name))->0;
    assert(text::has_suffix(text::lower(name), ending));
}

/// The work directory of this program and the two directories of the system are out of
/// bounds, in whatever case they are written, and so is all that lies in them.
pub proof fn law_work_areas(path: Seq<char>)
    ensures
        in_work_area(path) <==> exists|i: int|
            0 <= i < text::split_on(path, '/').len() && {
                let p = text::lower(#[trigger] text::split_on(path, '/')[i]);
                p == ".jchtools-work"@ || p == "$recycle.bin"@ || p == "system volume information"@
            },
{
    reveal_strlit(".jchtools-work");
    reveal_strlit("$RECYCLE.BIN");
    reveal_strlit("$recycle.bin");
    reveal_strlit("System Volume Information");
    reveal_strlit("system volume information");
    assert(text::lower(".jchtools-work"@) =~= ".jchtools-work"@);
    assert(text::lower("$RECYCLE.BIN"@) =~= "$recycle.bin"@);
    assert(text::lower("System Volume Information"@) =~= "system volume information"@);
    assert forall|p: Seq<char>| #[trigger] is_work_area(p) <==> {
        let q = text::lower(p);
        q == ".jchtools-work"@ || q == "$recycle.bin"@ || q == "system volume information"@
    } by {}
    if in_work_area(path) {
        let i = choose|i: int|
            0 <= i < text::split_on(path, '/').len() && is_work_area(
                #[trigger] text::split_on(path, '/')[i],
            );
        let p = text::lower(text::split_on(path, '/')[i]);
    }
}

/// What lies in a directory that holds `.git`, at whatever depth, is inside of it, and so
/// is the directory itself.
pub proof fn law_inside_at_every_depth(subtrees: Set<Seq<char>>, rel: Seq<char>, k: int)
    requires
        1 <= k <= text::split_on(rel, '/').len(),
        forall|i: int|
            0 <= i < text::split_on(rel, '/').len() ==> (#[trigger] text::split_on(
                rel,
                '/',
            )[i]).len() > 0,
        subtrees.contains(text::join_with(text::split_on(rel, '/').take(k), seq!['/'])),
    ensures
        is_inside(subtrees, rel),
{
    law_inside_by_components(text::split_on(rel, '/'), k);
}

} // verus!

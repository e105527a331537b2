//! Names and relative paths: what may become a file name, how a path from an
//! archive is made safe, and how a name is changed when its place is taken.

use crate::text;
use vstd::prelude::*;

verus! {

/// Why a name cannot be one component of a path.
#[derive(Clone, Copy, Debug, PartialEq, Eq, Structural)]
pub enum NameError {
    /// Empty, `.`, `..`, or ending in a dot or white space.
    Unsafe,
    /// A control character or one that Windows does not allow.
    ForbiddenCharacter,
    /// A Windows device name.
    Reserved,
    /// More than 255 UTF-16 units.
    TooLong,
}

/// The text of a [`NameError`] without the name.
pub open spec fn name_error_text(e: NameError) -> Seq<char> {
    match e {
        NameError::Unsafe => "不安全或不兼容 Windows 的名称"@,
        NameError::ForbiddenCharacter => "文件名包含 Windows 不支持的字符"@,
        NameError::Reserved => "Windows 保留文件名"@,
        NameError::TooLong => "单个文件名超过 255 个 UTF-16 单元"@,
    }
}

impl NameError {
    /// The message shown for this error.
    pub fn message(self) -> (r: &'static str)
        ensures
            r@ == name_error_text(self),
    {
        match self {
            NameError::Unsafe => "不安全或不兼容 Windows 的名称",
            NameError::ForbiddenCharacter => "文件名包含 Windows 不支持的字符",
            NameError::Reserved => "Windows 保留文件名",
            NameError::TooLong => "单个文件名超过 255 个 UTF-16 单元",
        }
    }
}

/// `char::is_control`: the Unicode category `Cc`.
pub open spec fn is_control(c: char) -> bool {
    c as u32 <= 0x1f || 0x7f <= c as u32 <= 0x9f
}

/// A character that no component may hold.
pub open spec fn is_forbidden(c: char) -> bool {
    ||| is_control(c)
    ||| c == '<'
    ||| c == '>'
    ||| c == ':'
    ||| c == '"'
    ||| c == '/'
    ||| c == '\\'
    ||| c == '|'
    ||| c == '?'
    ||| c == '*'
}

/// A digit that makes `COM` or `LPT` a device name.
pub open spec fn is_port_digit(c: char) -> bool {
    '1' <= c <= '9' || c == '¹' || c == '²' || c == '³'
}

/// A device name in upper case.
pub open spec fn is_device(stem: Seq<char>) -> bool {
    ||| stem == "CON"@
    ||| stem == "PRN"@
    ||| stem == "AUX"@
    ||| stem == "NUL"@
    ||| stem == "CLOCK$"@
    ||| (text::has_prefix(stem, "COM"@) || text::has_prefix(stem, "LPT"@)) && stem.len() == 4
        && is_port_digit(stem.last())
}

/// The name ends as no component may end, or stands for a directory.
pub open spec fn is_unsafe(name: Seq<char>) -> bool {
    ||| name.len() == 0
    ||| name.last() == '.'
    ||| text::is_space(name.last())
}

/// What is wrong with `name`, if its part before the first dot is `stem` in
/// upper case.
pub open spec fn component_error(name: Seq<char>, stem: Seq<char>) -> Option<NameError> {
    if is_unsafe(name) {
        Some(NameError::Unsafe)
    } else if exists|i: int| 0 <= i < name.len() && is_forbidden(#[trigger] name[i]) {
        Some(NameError::ForbiddenCharacter)
    } else if is_device(stem) {
        Some(NameError::Reserved)
    } else if text::units(name) > 255 {
        Some(NameError::TooLong)
    } else {
        None
    }
}

/// The part of a name before its first dot.
pub open spec fn name_stem(name: Seq<char>) -> Seq<char> {
    text::split_on(name, '.')[0]
}

/// What is wrong with `name` as a component.
pub open spec fn name_problem(name: Seq<char>) -> Option<NameError> {
    component_error(name, text::upper_text(name_stem(name)))
}

fn forbidden(c: char) -> (r: bool)
    ensures
        r == is_forbidden(c),
{
    let u: u32 = c as u32;
    u <= 0x1f || (u >= 0x7f && u <= 0x9f) || c == '<' || c == '>' || c == ':' || c == '"' || c
        == '/' || c == '\\' || c == '|' || c == '?' || c == '*'
}

fn device(stem: &str) -> (r: bool)
    ensures
        r == is_device(stem@),
{
    if text::same(stem, "CON") || text::same(stem, "PRN") || text::same(stem, "AUX") || text::same(
        stem,
        "NUL",
    ) || text::same(stem, "CLOCK$") {
        return true;
    }
    if text::starts_with(stem, "COM") || text::starts_with(stem, "LPT") {
        let v = text::chars_of(stem);
        if v.len() == 4 {
            let c: char = v[3];
            return ('1' <= c && c <= '9') || c == '¹' || c == '²' || c == '³';
        }
    }
    false
}

/// Whether the text has more than `max` UTF-16 units.
fn longer_than(v: &Vec<char>, max: usize) -> (r: bool)
    requires
        max < 1_000_000,
    ensures
        r == (text::units(v@) > max),
{
    let mut n: usize = 0;
    let mut i: usize = 0;
    assert(v@.take(0) =~= Seq::<char>::empty());
    while i < v.len()
        invariant
            i <= v@.len(),
            n == text::units(v@.take(i as int)),
            n <= max < 1_000_000,
        decreases v.len() - i,
    {
        proof {
            assert(v@.take(i + 1).drop_last() =~= v@.take(i as int));
            text::units_monotone(v@, i + 1);
        }
        n = n + (if v[i] as u32 >= 0x10000 {
            2
        } else {
            1
        });
        if n > max {
            return true;
        }
        i = i + 1;
    }
    assert(v@.take(i as int) =~= v@);
    false
}

/// The part of the name before its first dot.
fn stem_of(name: &str) -> (r: String)
    ensures
        r@ == name_stem(name@),
{
    let pieces = text::split(name, '.');
    proof {
        text::split_nonempty(name@, '.');
        assert(text::texts(pieces@)[0] == pieces@[0]@);
    }
    pieces[0].clone()
}

/// Checks a component whose part before the first dot, in upper case, is known.
pub fn check_component(name: &str, stem: &str) -> (r: Result<(), NameError>)
    ensures
        r == match component_error(name@, stem@) {
            Some(e) => Err::<(), NameError>(e),
            None => Ok(()),
        },
{
    let v = text::chars_of(name);
    if v.len() == 0 || v[v.len() - 1] == '.' || text::space(v[v.len() - 1]) {
        return Err(NameError::Unsafe);
    }
    let mut i: usize = 0;
    while i < v.len()
        invariant
            v@ == name@,
            !is_unsafe(name@),
            i <= v@.len(),
            forall|k: int| 0 <= k < i ==> !is_forbidden(#[trigger] name@[k]),
        decreases v.len() - i,
    {
        if forbidden(v[i]) {
            assert(is_forbidden(name@[i as int]));
            return Err(NameError::ForbiddenCharacter);
        }
        i = i + 1;
    }
    if device(stem) {
        return Err(NameError::Reserved);
    }
    if longer_than(&v, 255) {
        return Err(NameError::TooLong);
    }
    Ok(())
}

/// Checks that a name can be one component of a path, also on Windows.
pub fn validate_component(name: &str) -> (r: Result<(), NameError>)
    ensures
        r == match name_problem(name@) {
            Some(e) => Err::<(), NameError>(e),
            None => Ok(()),
        },
{
    let stem = stem_of(name);
    check_component(name, text::to_uppercase(stem.as_str()).as_str())
}

/// Why a path is refused.
#[derive(Clone, Copy, Debug, PartialEq, Eq, Structural)]
pub enum PathError {
    /// Starts with a separator.
    Absolute,
    /// One of its components cannot be a name.
    Component(NameError),
    /// Has no component.
    Empty,
    /// Cannot be written as UTF-8.
    NotUtf8,
    /// Does not lie under the chosen directory.
    OutsideRoot,
    /// One of its components is a link.
    Link,
    /// One of its components could not be examined.
    Unreadable,
}

/// Backslashes turned into slashes.
pub open spec fn slashed(s: Seq<char>) -> Seq<char> {
    s.map_values(|c: char| if c == '\\' { '/' } else { c })
}

/// A part that names something.
pub open spec fn is_kept(part: Seq<char>) -> bool {
    part.len() > 0 && part != seq!['.']
}

/// The parts that name something, in order.
pub open spec fn kept(parts: Seq<Seq<char>>) -> Seq<Seq<char>>
    decreases parts.len(),
{
    if parts.len() == 0 {
        Seq::empty()
    } else if is_kept(parts.last()) {
        kept(parts.drop_last()).push(parts.last())
    } else {
        kept(parts.drop_last())
    }
}

/// The problem of the first part that has one.
pub open spec fn first_problem(parts: Seq<Seq<char>>) -> Option<NameError>
    decreases parts.len(),
{
    if parts.len() == 0 {
        None
    } else {
        match first_problem(parts.drop_last()) {
            Some(e) => Some(e),
            None => name_problem(parts.last()),
        }
    }
}

/// The components that a path from an archive names.
pub open spec fn path_parts(raw: Seq<char>) -> Seq<Seq<char>> {
    kept(text::split_on(slashed(raw), '/'))
}

/// The safe form of a path from an archive: its components joined with slashes.
pub open spec fn safe_path(raw: Seq<char>) -> Result<Seq<char>, PathError> {
    if raw.len() > 0 && (raw[0] == '/' || raw[0] == '\\') {
        Err(PathError::Absolute)
    } else {
        match first_problem(path_parts(raw)) {
            Some(e) => Err(PathError::Component(e)),
            None => if path_parts(raw).len() == 0 {
                Err(PathError::Empty)
            } else {
                Ok(text::join_with(path_parts(raw), seq!['/']))
            },
        }
    }
}

/// Turns backslashes into slashes.
pub fn with_slashes(s: &str) -> (r: String)
    ensures
        r@ == slashed(s@),
{
    let v = text::chars_of(s);
    let mut r = String::new();
    let mut i: usize = 0;
    while i < v.len()
        invariant
            v@ == s@,
            i <= v@.len(),
            r@ == slashed(v@.take(i as int)),
        decreases v.len() - i,
    {
        if v[i] == '\\' {
            r.push('/');
        } else {
            r.push(v[i]);
        }
        i = i + 1;
        assert(r@ =~= slashed(v@.take(i as int)));
    }
    assert(v@.take(i as int) =~= v@);
    r
}

fn keep(part: &str) -> (r: bool)
    ensures
        r == is_kept(part@),
{
    let v = text::chars_of(part);
    if v.len() == 0 {
        false
    } else if v.len() == 1 && v[0] == '.' {
        assert(part@ =~= seq!['.']);
        false
    } else {
        true
    }
}

/// Makes a path from an archive safe: relative, with valid components only and
/// slashes between them.
pub fn safe_relative(raw: &str) -> (r: Result<String, PathError>)
    ensures
        match r {
            Ok(s) => safe_path(raw@) == Ok::<Seq<char>, PathError>(s@),
            Err(e) => safe_path(raw@) == Err::<Seq<char>, PathError>(e),
        },
{
    let v = text::chars_of(raw);
    if v.len() > 0 && (v[0] == '/' || v[0] == '\\') {
        return Err(PathError::Absolute);
    }
    let pieces = text::split(with_slashes(raw).as_str(), '/');
    let ghost all = text::texts(pieces@);
    let mut parts: Vec<String> = Vec::new();
    let mut i: usize = 0;
    while i < pieces.len()
        invariant
            all == text::texts(pieces@),
            all == text::split_on(slashed(raw@), '/'),
            raw@.len() > 0 ==> raw@[0] != '/' && raw@[0] != '\\',
            i <= pieces@.len(),
            text::texts(parts@) == kept(all.take(i as int)),
            first_problem(text::texts(parts@)) is None,
        decreases pieces.len() - i,
    {
        let piece = pieces[i].clone();
        proof {
            assert(all.take(i + 1).drop_last() =~= all.take(i as int));
            assert(all.take(i + 1).last() == piece@);
        }
        if keep(piece.as_str()) {
            let ghost after = text::texts(parts@).push(piece@);
            assert(after.drop_last() =~= text::texts(parts@));
            if let Err(e) = validate_component(piece.as_str()) {
                proof {
                    assert(first_problem(after) == Some(e));
                    first_problem_stays(all, i + 1, e);
                }
                return Err(PathError::Component(e));
            }
            parts.push(piece);
            assert(text::texts(parts@) =~= after);
        }
        i = i + 1;
    }
    assert(all.take(i as int) =~= all);
    if parts.len() == 0 {
        return Err(PathError::Empty);
    }
    proof {
        reveal_strlit("/");
        assert("/"@ =~= seq!['/']);
    }
    Ok(text::join(&parts, "/"))
}

/// The first problem among a prefix of the parts is the first among all.
proof fn first_problem_stays(all: Seq<Seq<char>>, n: int, e: NameError)
    requires
        0 <= n <= all.len(),
        first_problem(kept(all.take(n))) == Some(e),
    ensures
        first_problem(kept(all)) == Some(e),
    decreases all.len(),
{
    if n < all.len() {
        let head = all.drop_last();
        assert(head.take(n) =~= all.take(n));
        first_problem_stays(head, n, e);
        if is_kept(all.last()) {
            assert(kept(all).drop_last() =~= kept(head));
        }
    } else {
        assert(all.take(n) =~= all);
    }
}

/// Parts without a problem are valid names, each of them.
proof fn no_problem_each(parts: Seq<Seq<char>>)
    requires
        first_problem(parts) is None,
    ensures
        forall|i: int| 0 <= i < parts.len() ==> name_problem(#[trigger] parts[i]) is None,
    decreases parts.len(),
{
    if parts.len() > 0 {
        no_problem_each(parts.drop_last());
        assert forall|i: int| 0 <= i < parts.len() implies name_problem(
            #[trigger] parts[i],
        ) is None by {
            if i < parts.len() - 1 {
                assert(parts.drop_last()[i] == parts[i]);
            }
        }
    }
}

/// Every kept part names something.
proof fn kept_each(parts: Seq<Seq<char>>)
    ensures
        forall|i: int| 0 <= i < kept(parts).len() ==> is_kept(#[trigger] kept(parts)[i]),
    decreases parts.len(),
{
    if parts.len() > 0 {
        let head = kept(parts.drop_last());
        kept_each(parts.drop_last());
        assert forall|i: int| 0 <= i < kept(parts).len() implies is_kept(
            #[trigger] kept(parts)[i],
        ) by {
            if i < head.len() {
                assert(kept(parts)[i] == head[i]);
            }
        }
    }
}

/// Parts that all name something are all kept.
proof fn kept_all(parts: Seq<Seq<char>>)
    requires
        forall|i: int| 0 <= i < parts.len() ==> is_kept(#[trigger] parts[i]),
    ensures
        kept(parts) == parts,
    decreases parts.len(),
{
    if parts.len() > 0 {
        assert forall|i: int| 0 <= i < parts.drop_last().len() implies is_kept(
            #[trigger] parts.drop_last()[i],
        ) by {
            assert(is_kept(parts[i]));
        }
        kept_all(parts.drop_last());
        assert(is_kept(parts[parts.len() - 1]));
        assert(parts.drop_last().push(parts.last()) =~= parts);
    } else {
        assert(parts =~= Seq::<Seq<char>>::empty());
    }
}

/// A valid name holds no separator.
proof fn valid_name_chars(name: Seq<char>)
    requires
        name_problem(name) is None,
    ensures
        name.len() > 0,
        !name.contains('/'),
        !name.contains('\\'),
{
    assert forall|i: int| 0 <= i < name.len() implies name[i] != '/' && name[i] != '\\' by {
        assert(!is_forbidden(name[i]));
    }
}

/// The characters of a join come from its parts or the separator.
proof fn join_chars(parts: Seq<Seq<char>>, sep: char, i: int)
    requires
        0 <= i < text::join_with(parts, seq![sep]).len(),
    ensures
        text::join_with(parts, seq![sep])[i] == sep || exists|k: int|
            0 <= k < parts.len() && (#[trigger] parts[k]).contains(
                text::join_with(parts, seq![sep])[i],
            ),
    decreases parts.len(),
{
    let whole = text::join_with(parts, seq![sep]);
    if parts.len() == 1 {
        assert(parts[0].contains(whole[i]));
    } else {
        let head = text::join_with(parts.drop_last(), seq![sep]);
        if i < head.len() {
            join_chars(parts.drop_last(), sep, i);
            assert(whole[i] == head[i]);
            if head[i] != sep {
                let k = choose|k: int|
                    0 <= k < parts.drop_last().len() && (
                    #[trigger] parts.drop_last()[k]).contains(head[i]);
                assert(parts[k].contains(whole[i]));
            }
        } else if i > head.len() {
            assert(whole[i] == parts.last()[i - head.len() - 1]);
            assert(parts[parts.len() - 1].contains(whole[i]));
        }
    }
}

/// What `safe_relative` accepts is a slash-separated list of valid names: no
/// backslash, no leading slash, no empty, `.` or `..` component.
pub proof fn law_safe_path_components(raw: Seq<char>)
    requires
        safe_path(raw) is Ok,
    ensures
        ({
            let p = safe_path(raw)->Ok_0;
            let parts = text::split_on(p, '/');
            &&& parts == path_parts(raw)
            &&& parts.len() > 0
            &&& forall|i: int| 0 <= i < parts.len() ==> name_problem(#[trigger] parts[i]) is None
            &&& !p.contains('\\')
            &&& p.len() > 0 && p[0] != '/'
        }),
{
    let parts = path_parts(raw);
    let p = safe_path(raw)->Ok_0;
    no_problem_each(parts);
    assert forall|i: int| 0 <= i < parts.len() implies !(#[trigger] parts[i]).contains('/') by {
        valid_name_chars(parts[i]);
    }
    text::law_join_split(parts, '/');
    if p.contains('\\') {
        let i = choose|i: int| 0 <= i < p.len() && p[i] == '\\';
        join_chars(parts, '/', i);
        let k = choose|k: int| 0 <= k < parts.len() && (#[trigger] parts[k]).contains(p[i]);
        valid_name_chars(parts[k]);
    }
    valid_name_chars(parts[0]);
    join_starts(parts, seq!['/']);
    assert(p[0] == parts[0][0]);
    assert(parts[0].contains(parts[0][0]));
}

/// A join starts with its first part.
proof fn join_starts(parts: Seq<Seq<char>>, sep: Seq<char>)
    requires
        parts.len() > 0,
    ensures
        text::has_prefix(text::join_with(parts, sep), parts[0]),
        parts[0].len() > 0 ==> text::join_with(parts, sep)[0] == parts[0][0],
    decreases parts.len(),
{
    let whole = text::join_with(parts, sep);
    if parts.len() == 1 {
        assert(whole.subrange(0, parts[0].len() as int) =~= parts[0]);
    } else {
        join_starts(parts.drop_last(), sep);
        let head = text::join_with(parts.drop_last(), sep);
        assert(whole.subrange(0, parts[0].len() as int) =~= head.subrange(
            0,
            parts[0].len() as int,
        ));
    }
}

/// Making a safe path safe again changes nothing.
pub proof fn law_safe_path_idempotent(raw: Seq<char>)
    requires
        safe_path(raw) is Ok,
    ensures
        safe_path(safe_path(raw)->Ok_0) == safe_path(raw),
{
    let p = safe_path(raw)->Ok_0;
    law_safe_path_components(raw);
    assert(slashed(p) =~= p) by {
        assert forall|i: int| 0 <= i < p.len() implies p[i] != '\\' by {
            assert(p.contains(p[i]));
        }
    }
    kept_each(text::split_on(slashed(raw), '/'));
    kept_all(path_parts(raw));
    assert(p[0] != '\\') by {
        assert(p.contains(p[0]));
    }
}

/// The text of a path, when it has one.
pub fn path_string(path: Option<&str>) -> (r: Result<String, PathError>)
    ensures
        match path {
            Some(s) => r matches Ok(t) && t@ == s@,
            None => r == Err::<String, PathError>(PathError::NotUtf8),
        },
{
    match path {
        Some(s) => Ok(s.to_owned()),
        None => Err(PathError::NotUtf8),
    }
}

/// The components of `path` lie under those of `root`.
pub open spec fn is_under(root: Seq<Seq<char>>, path: Seq<Seq<char>>) -> bool {
    root.len() <= path.len() && path.take(root.len() as int) == root
}

/// The path of `path` under `root`, both given by their components, with
/// slashes between the names.
pub open spec fn relative_text(root: Seq<Seq<char>>, path: Seq<Seq<char>>) -> Seq<char> {
    slashed(text::join_with(path.skip(root.len() as int), seq!['/']))
}

/// The path of `path` relative to `root`; both are given by their components.
pub fn relative_string(root: &Vec<String>, path: &Vec<String>) -> (r: Result<String, PathError>)
    ensures
        match r {
            Ok(s) => is_under(text::texts(root@), text::texts(path@)) && s@ == relative_text(
                text::texts(root@),
                text::texts(path@),
            ),
            Err(e) => e == PathError::OutsideRoot && !is_under(
                text::texts(root@),
                text::texts(path@),
            ),
        },
{
    let ghost a = text::texts(root@);
    let ghost b = text::texts(path@);
    if root.len() > path.len() {
        return Err(PathError::OutsideRoot);
    }
    let mut i: usize = 0;
    while i < root.len()
        invariant
            a == text::texts(root@),
            b == text::texts(path@),
            i <= root@.len() <= path@.len(),
            forall|k: int| 0 <= k < i ==> a[k] == b[k],
        decreases root.len() - i,
    {
        if !text::same(root[i].as_str(), path[i].as_str()) {
            assert(b.take(a.len() as int)[i as int] != a[i as int]);
            return Err(PathError::OutsideRoot);
        }
        i = i + 1;
    }
    assert(b.take(a.len() as int) =~= a);
    let mut rest: Vec<String> = Vec::new();
    while i < path.len()
        invariant
            b == text::texts(path@),
            root@.len() <= i <= path@.len(),
            text::texts(rest@) == b.subrange(root@.len() as int, i as int),
        decreases path.len() - i,
    {
        let ghost before = rest@;
        rest.push(path[i].clone());
        assert(text::texts(rest@) =~= text::texts(before).push(path@[i as int]@));
        i = i + 1;
        assert(text::texts(rest@) =~= b.subrange(root@.len() as int, i as int));
    }
    assert(text::texts(rest@) =~= b.skip(a.len() as int));
    proof {
        reveal_strlit("/");
        assert("/"@ =~= seq!['/']);
    }
    Ok(with_slashes(text::join(&rest, "/").as_str()))
}

/// How many characters at the start of `s` have at most `max` UTF-16 units.
pub open spec fn fitting(s: Seq<char>, max: nat) -> nat
    decreases s.len(),
{
    if text::units(s) <= max {
        s.len()
    } else {
        fitting(s.drop_last(), max)
    }
}

/// The longest start of `s` with at most `max` UTF-16 units.
pub open spec fn fitted(s: Seq<char>, max: nat) -> Seq<char> {
    s.take(fitting(s, max) as int)
}

/// Without the dots and white space at the end.
pub open spec fn without_tail(s: Seq<char>) -> Seq<char>
    decreases s.len(),
{
    if s.len() > 0 && (s.last() == '.' || text::is_space(s.last())) {
        without_tail(s.drop_last())
    } else {
        s
    }
}

/// The mark ` (N)`.
pub open spec fn mark(index: nat) -> Seq<char> {
    " ("@ + text::decimal(index) + ")"@
}

/// The extension that a marked name keeps.
pub open spec fn marked_extension(stem: Seq<char>, ext: Seq<char>, index: nat) -> Seq<char> {
    let room = (255 - text::units(mark(index))) as nat;
    let cap = if stem.len() > 0 {
        (room - 1) as nat
    } else {
        room
    };
    without_tail(fitted(ext, cap))
}

/// The name `stem (N)ext`, cut to 255 UTF-16 units: the mark first, then the
/// extension, then the stem.
pub open spec fn marked_name(stem: Seq<char>, ext: Seq<char>, index: nat) -> Seq<char> {
    let end = marked_extension(stem, ext, index);
    let room = (255 - text::units(mark(index)) - text::units(end)) as nat;
    fitted(stem, room) + mark(index) + end
}

/// A number below `10^k` has at most `k` digits.
pub proof fn decimal_units(n: nat)
    ensures
        text::units(text::decimal(n)) == text::decimal(n).len(),
    decreases n,
{
    if n < 10 {
        assert(text::decimal(n).drop_last() =~= Seq::<char>::empty());
        assert(text::decimal(n).last() as u32 == 48 + n);
        assert(text::units(text::decimal(n).drop_last()) == 0);
    } else {
        decimal_units(n / 10);
        assert(text::decimal(n).drop_last() =~= text::decimal(n / 10));
        assert(text::decimal(n).last() as u32 == 48 + n % 10);
    }
}

/// The units of two texts add up.
pub proof fn units_concat(a: Seq<char>, b: Seq<char>)
    ensures
        text::units(a + b) == text::units(a) + text::units(b),
    decreases b.len(),
{
    if b.len() == 0 {
        assert(a + b =~= a);
    } else {
        units_concat(a, b.drop_last());
        assert((a + b).drop_last() =~= a + b.drop_last());
    }
}

/// A `u64` has at most twenty digits.
proof fn decimal_short(n: nat, k: nat)
    requires
        n < vstd::arithmetic::power::pow(10, k),
        k > 0,
    ensures
        text::decimal(n).len() <= k,
    decreases k,
{
    if n >= 10 {
        vstd::arithmetic::power::lemma_pow0(10);
        vstd::arithmetic::power::lemma_pow1(10);
        assert(k > 1);
        assert(vstd::arithmetic::power::pow(10, k) == 10 * vstd::arithmetic::power::pow(
            10,
            (k - 1) as nat,
        )) by {
            reveal(vstd::arithmetic::power::pow);
        }
        decimal_short(n / 10, (k - 1) as nat);
    }
}

/// The mark of a `u64` has at most 23 UTF-16 units.
pub proof fn mark_short(index: u64)
    ensures
        text::units(mark(index as nat)) == 3 + text::decimal(index as nat).len(),
        text::units(mark(index as nat)) <= 23,
{
    reveal_strlit(" (");
    reveal_strlit(")");
    let n = index as nat;
    let d = text::decimal(n);
    assert(vstd::arithmetic::power::pow(10, 20) == 100_000_000_000_000_000_000) by {
        reveal(vstd::arithmetic::power::pow);
        reveal_with_fuel(vstd::arithmetic::power::pow, 21);
    }
    decimal_short(n, 20);
    decimal_units(n);
    units_concat(" ("@ + d, ")"@);
    units_concat(" ("@, d);
    assert(text::units(" ("@) == 2) by {
        reveal_with_fuel(text::units, 3);
        assert(" ("@.drop_last().drop_last() =~= Seq::<char>::empty());
    }
    assert(text::units(")"@) == 1) by {
        reveal_with_fuel(text::units, 2);
        assert(")"@.drop_last() =~= Seq::<char>::empty());
    }
}

/// What fits has at most `max` units.
pub proof fn fitted_units(s: Seq<char>, max: nat)
    ensures
        fitting(s, max) <= s.len(),
        text::units(fitted(s, max)) <= max,
    decreases s.len(),
{
    if text::units(s) <= max {
        assert(s.take(s.len() as int) =~= s);
    } else {
        fitted_units(s.drop_last(), max);
        assert(s.drop_last().take(fitting(s, max) as int) =~= s.take(fitting(s, max) as int));
    }
}

/// Cutting the end cannot add units.
pub proof fn without_tail_units(s: Seq<char>)
    ensures
        text::units(without_tail(s)) <= text::units(s),
        without_tail(s).len() <= s.len(),
    decreases s.len(),
{
    if s.len() > 0 && (s.last() == '.' || text::is_space(s.last())) {
        without_tail_units(s.drop_last());
    }
}

/// A marked name never has more than 255 UTF-16 units.
pub proof fn law_marked_name_fits(stem: Seq<char>, ext: Seq<char>, index: u64)
    ensures
        text::units(marked_name(stem, ext, index as nat)) <= 255,
{
    let m = mark(index as nat);
    let end = marked_extension(stem, ext, index as nat);
    mark_short(index);
    let room = (255 - text::units(m)) as nat;
    let cap = if stem.len() > 0 {
        (room - 1) as nat
    } else {
        room
    };
    fitted_units(ext, cap);
    without_tail_units(fitted(ext, cap));
    let rest = (255 - text::units(m) - text::units(end)) as nat;
    fitted_units(stem, rest);
    units_concat(fitted(stem, rest) + m, end);
    units_concat(fitted(stem, rest), m);
}

/// A short name keeps its stem and its extension whole.
pub proof fn law_marked_name_whole(stem: Seq<char>, ext: Seq<char>, index: u64)
    requires
        text::units(stem) + text::units(ext) + text::units(mark(index as nat)) <= 255,
        stem.len() > 0,
        ext.len() > 0 ==> ext.last() != '.' && !text::is_space(ext.last()),
    ensures
        marked_name(stem, ext, index as nat) == stem + mark(index as nat) + ext,
{
    assert(text::units(stem) >= 1);
    assert(ext.take(ext.len() as int) =~= ext);
    assert(stem.take(stem.len() as int) =~= stem);
}

/// The longest start of a text with at most `max_units` UTF-16 units.
pub fn truncate_utf16(s: &str, max_units: usize) -> (r: String)
    ensures
        r@ == fitted(s@, max_units as nat),
{
    let v = text::chars_of(s);
    let mut used: usize = 0;
    let mut i: usize = 0;
    assert(v@.take(0) =~= Seq::<char>::empty());
    while i < v.len()
        invariant
            v@ == s@,
            i <= v@.len(),
            used == text::units(v@.take(i as int)),
            used <= max_units,
        decreases v.len() - i,
    {
        assert(v@.take(i + 1).drop_last() =~= v@.take(i as int));
        let need: usize = if v[i] as u32 >= 0x10000 {
            2
        } else {
            1
        };
        if need > max_units - used {
            proof {
                cut_here(v@, i as int, max_units as nat);
            }
            return string_of_start(&v, i);
        }
        used = used + need;
        i = i + 1;
    }
    assert(v@.take(i as int) =~= v@);
    s.to_owned()
}

/// The first `n` characters as a string.
fn string_of_start(v: &Vec<char>, n: usize) -> (r: String)
    requires
        n <= v@.len(),
    ensures
        r@ == v@.take(n as int),
{
    assert(v@.subrange(0, n as int) =~= v@.take(n as int));
    text::string_of(v, 0, n)
}

/// When the first `i` characters fit and one more does not, exactly they fit.
proof fn cut_here(s: Seq<char>, i: int, max: nat)
    requires
        0 <= i < s.len(),
        text::units(s.take(i)) <= max,
        text::units(s.take(i + 1)) > max,
    ensures
        fitting(s, max) == i,
    decreases s.len(),
{
    text::units_monotone(s, i + 1);
    if i + 1 == s.len() {
        assert(s.drop_last() =~= s.take(i));
        assert(fitting(s.drop_last(), max) == i);
    } else {
        assert(s.drop_last().take(i) =~= s.take(i));
        assert(s.drop_last().take(i + 1) =~= s.take(i + 1));
        cut_here(s.drop_last(), i, max);
    }
}

/// Cuts the dots and white space at the end.
fn cut_tail(s: &str) -> (r: String)
    ensures
        r@ == without_tail(s@),
{
    let v = text::chars_of(s);
    let mut n: usize = v.len();
    assert(v@.take(n as int) =~= v@);
    while n > 0 && (v[n - 1] == '.' || text::space(v[n - 1]))
        invariant
            n <= v@.len(),
            v@ == s@,
            without_tail(s@) == without_tail(v@.take(n as int)),
        decreases n,
    {
        assert(v@.take(n as int).drop_last() =~= v@.take(n - 1));
        n = n - 1;
    }
    string_of_start(&v, n)
}

/// The name `stem (N)ext`, cut to what one component may hold.
pub fn suffixed_candidate(stem: &str, ext: &str, index: u64) -> (r: String)
    ensures
        r@ == marked_name(stem@, ext@, index as nat),
        text::units(r@) <= 255,
{
    let mut sep = String::new();
    sep.append(" (");
    sep.append(text::number(index).as_str());
    sep.append(")");
    proof {
        assert(sep@ =~= mark(index as nat));
        mark_short(index);
    }
    let budget: usize = 255 - text::utf16_len(sep.as_str());
    let ext_cap: usize = if stem.is_empty() {
        budget
    } else {
        budget - 1
    };
    proof {
        fitted_units(ext@, ext_cap as nat);
        without_tail_units(fitted(ext@, ext_cap as nat));
    }
    let end = cut_tail(truncate_utf16(ext, ext_cap).as_str());
    let room: usize = budget - text::utf16_len(end.as_str());
    let mut r = truncate_utf16(stem, room);
    r.append(sep.as_str());
    r.append(end.as_str());
    proof {
        law_marked_name_fits(stem@, ext@, index);
    }
    r
}

/// A suffix that may stand in front of a three-digit volume number.
pub open spec fn is_volume_suffix(component: Seq<char>) -> bool {
    let c = text::lower(component);
    ||| c == "gz"@
    ||| c == "bz2"@
    ||| c == "xz"@
    ||| c == "zst"@
    ||| c == "lzma"@
    ||| c == "z"@
    ||| c == "7z"@
    ||| c == "zip"@
    ||| c == "rar"@
    ||| c == "tar"@
    ||| c == "tgz"@
    ||| c == "tbz2"@
    ||| c == "txz"@
    ||| c == "tzst"@
}

/// The suffix of a compressed stream.
pub open spec fn is_stream(component: Seq<char>) -> bool {
    let c = text::lower(component);
    ||| c == "tgz"@
    ||| c == "tbz2"@
    ||| c == "tbz"@
    ||| c == "txz"@
    ||| c == "tzst"@
    ||| c == "bz2"@
    ||| c == "gz"@
    ||| c == "xz"@
    ||| c == "lzma"@
    ||| c == "zst"@
    ||| c == "lz4"@
    ||| c == "lz"@
    ||| c == "z"@
    ||| c == "br"@
}

/// Whether the component is the suffix of a compressed stream.
pub fn is_stream_component(component: &str) -> (r: bool)
    ensures
        r == is_stream(component@),
{
    let c = text::lower_text(component);
    let c = c.as_str();
    text::same(c, "tgz") || text::same(c, "tbz2") || text::same(c, "tbz") || text::same(c, "txz")
        || text::same(c, "tzst") || text::same(c, "bz2") || text::same(c, "gz") || text::same(
        c,
        "xz",
    ) || text::same(c, "lzma") || text::same(c, "zst") || text::same(c, "lz4") || text::same(
        c,
        "lz",
    ) || text::same(c, "z") || text::same(c, "br")
}

/// `part` and at least one digit.
pub open spec fn is_part_number(component: Seq<char>) -> bool {
    component.len() > 4 && text::lower(component.take(4)) == "part"@ && text::all_digits(
        component.skip(4),
    )
}

/// The position of the last dot of `s`, unless `s` starts with it or has none.
pub open spec fn inner_dot(s: Seq<char>) -> Option<int> {
    match text::last_pos(s, '.') {
        Some(i) => if i > 0 {
            Some(i)
        } else {
            None
        },
        None => None,
    }
}

/// Where the run of volume suffixes at the end of `s` starts; `s.len()` when
/// there is none.
pub open spec fn volume_start(s: Seq<char>) -> int
    decreases s.len(),
{
    match inner_dot(s) {
        Some(i) => if 0 < i < s.len() && is_volume_suffix(s.skip(i + 1)) {
            volume_start(s.take(i))
        } else {
            s.len() as int
        },
        None => s.len() as int,
    }
}

/// Where the extension of a name starts.
pub open spec fn extension_start(name: Seq<char>) -> int {
    match inner_dot(name) {
        None => name.len() as int,
        Some(dot) => {
            let stem = name.take(dot);
            let ext = name.skip(dot);
            if ext.len() == 4 && text::all_digits(ext.skip(1)) {
                volume_start(stem)
            } else {
                match inner_dot(stem) {
                    Some(inner) => if text::lower(ext) == ".rar"@ && is_part_number(
                        stem.skip(inner + 1),
                    ) {
                        inner
                    } else if text::lower(stem.skip(inner + 1)) == "tar"@ && is_stream(
                        ext.skip(1),
                    ) {
                        inner
                    } else {
                        dot
                    },
                    None => dot,
                }
            }
        },
    }
}

/// Whether the component is a compression suffix that a volume number extends.
pub fn is_volume_suffix_component(component: &str) -> (r: bool)
    ensures
        r == is_volume_suffix(component@),
{
    let c = text::lower_text(component);
    let c = c.as_str();
    text::same(c, "gz") || text::same(c, "bz2") || text::same(c, "xz") || text::same(c, "zst")
        || text::same(c, "lzma") || text::same(c, "z") || text::same(c, "7z") || text::same(
        c,
        "zip",
    ) || text::same(c, "rar") || text::same(c, "tar") || text::same(c, "tgz") || text::same(
        c,
        "tbz2",
    ) || text::same(c, "txz") || text::same(c, "tzst")
}

/// Whether all characters from `from` on are digits.
fn digits_from(v: &Vec<char>, from: usize) -> (r: bool)
    requires
        from <= v@.len(),
    ensures
        r == text::all_digits(v@.skip(from as int)),
{
    let mut i: usize = from;
    while i < v.len()
        invariant
            from <= i <= v@.len(),
            forall|k: int| from <= k < i ==> text::is_digit(#[trigger] v@[k]),
        decreases v.len() - i,
    {
        if !text::digit(v[i]) {
            assert(v@.skip(from as int)[i - from] == v@[i as int]);
            return false;
        }
        i = i + 1;
    }
    assert forall|k: int| 0 <= k < v@.skip(from as int).len() implies text::is_digit(
        #[trigger] v@.skip(from as int)[k],
    ) by {
        assert(text::is_digit(v@[from + k]));
    }
    true
}

/// Whether the component is `part` and a number.
pub fn is_part_rar_component(component: &str) -> (r: bool)
    ensures
        r == is_part_number(component@),
{
    let v = text::chars_of(component);
    if v.len() <= 4 {
        return false;
    }
    let head = string_of_start(&v, 4);
    text::same(text::lower_text(head.as_str()).as_str(), "part") && digits_from(&v, 4)
}

/// The position of the last dot among the first `to` characters, unless it is
/// the first character.
fn inner_dot_index(v: &Vec<char>, to: usize) -> (r: Option<usize>)
    requires
        to <= v@.len(),
    ensures
        match r {
            Some(i) => inner_dot(v@.take(to as int)) == Some(i as int) && 0 < i < to,
            None => inner_dot(v@.take(to as int)) is None,
        },
{
    match text::last_index(v, to, '.') {
        Some(i) => if i > 0 {
            Some(i)
        } else {
            None
        },
        None => None,
    }
}

/// Where the extension starts, as a character position.
fn extension_index(name: &str) -> (r: usize)
    ensures
        r == extension_start(name@),
        r <= name@.len(),
{
    let v = text::chars_of(name);
    let n: usize = v.len();
    assert(v@.take(n as int) =~= v@);
    let dot: usize = match inner_dot_index(&v, n) {
        Some(i) => i,
        None => return n,
    };
    let ghost stem = v@.take(dot as int);
    if n - dot == 4 && digits_from(&v, dot + 1) {
        assert(v@.skip(dot as int).skip(1) =~= v@.skip(dot + 1));
        let mut end: usize = dot;
        loop
            invariant
                v@ == name@,
                0 < end <= dot < v@.len(),
                stem == v@.take(dot as int),
                volume_start(stem) == volume_start(v@.take(end as int)),
                extension_start(name@) == volume_start(stem),
            decreases end,
        {
            let inner: usize = match inner_dot_index(&v, end) {
                Some(i) => i,
                None => return end,
            };
            let component = text::string_of(&v, inner + 1, end);
            assert(component@ =~= v@.take(end as int).skip(inner + 1));
            if !is_volume_suffix_component(component.as_str()) {
                return end;
            }
            assert(v@.take(end as int).take(inner as int) =~= v@.take(inner as int));
            end = inner;
        }
    }
    assert(v@.skip(dot as int).skip(1) =~= v@.skip(dot + 1));
    match inner_dot_index(&v, dot) {
        Some(inner) => {
            let component = text::string_of(&v, inner + 1, dot);
            assert(component@ =~= stem.skip(inner + 1));
            let ext = text::string_of(&v, dot, n);
            assert(ext@ =~= v@.skip(dot as int));
            let last = text::string_of(&v, dot + 1, n);
            assert(last@ =~= v@.skip(dot as int).skip(1));
            if text::same(text::lower_text(ext.as_str()).as_str(), ".rar")
                && is_part_rar_component(component.as_str()) {
                inner
            } else if text::same(text::lower_text(component.as_str()).as_str(), "tar")
                && is_stream_component(last.as_str()) {
                inner
            } else {
                dot
            }
        },
        None => dot,
    }
}

/// The name without its extension, and the extension with its dot. An
/// extension is kept whole where its parts belong together: a volume number
/// with the compression suffixes in front of it, `.partN.rar`, and `.tar` with
/// the suffix of a compressed stream.
pub fn split_compound_name(name: &str) -> (r: (&str, &str))
    ensures
        r.0@ == name@.take(extension_start(name@)),
        r.1@ == name@.skip(extension_start(name@)),
        r.0@ + r.1@ == name@,
{
    let at: usize = extension_index(name);
    let n: usize = name.unicode_len();
    let a = name.substring_char(0, at);
    let b = name.substring_char(at, n);
    assert(a@ =~= name@.take(at as int));
    assert(b@ =~= name@.skip(at as int));
    assert(a@ + b@ =~= name@);
    (a, b)
}

/// The last position of a character lies in the text and holds it.
proof fn last_pos_holds(s: Seq<char>, c: char)
    ensures
        text::last_pos(s, c) matches Some(i) ==> 0 <= i < s.len() && s[i] == c,
    decreases s.len(),
{
    if s.len() > 0 && s.last() != c {
        last_pos_holds(s.drop_last(), c);
    }
}

/// The run of volume suffixes starts behind the first character, at a dot.
proof fn volume_start_shape(s: Seq<char>)
    requires
        s.len() > 0,
    ensures
        0 < volume_start(s) <= s.len(),
        volume_start(s) < s.len() ==> s[volume_start(s)] == '.',
    decreases s.len(),
{
    last_pos_holds(s, '.');
    if let Some(i) = inner_dot(s) {
        if is_volume_suffix(s.skip(i + 1)) {
            volume_start_shape(s.take(i));
        }
    }
}

/// The extension is empty or starts with a dot, and a name that is not empty
/// keeps at least one character in front of it.
pub proof fn law_extension_shape(name: Seq<char>)
    ensures
        0 <= extension_start(name) <= name.len(),
        name.len() > 0 ==> extension_start(name) > 0,
        extension_start(name) < name.len() ==> name[extension_start(name)] == '.',
{
    last_pos_holds(name, '.');
    if let Some(dot) = inner_dot(name) {
        let stem = name.take(dot);
        last_pos_holds(stem, '.');
        volume_start_shape(stem);
    }
}

/// Why no free name was found.
#[derive(Clone, Copy, Debug, PartialEq, Eq, Structural)]
pub enum UniqueError {
    /// The extension leaves no room for a mark.
    ExtensionTooLong,
    /// The marked name, or a directory above it, is not a valid name.
    Component(NameError),
    /// Every number up to a million is taken.
    Exhausted,
}

/// The highest number that is tried.
pub const MAX_UNIQUE_INDEX: u64 = 1_000_000;

/// The candidate with the given number for a taken name.
pub open spec fn candidate(name: Seq<char>, index: nat) -> Seq<char> {
    let at = extension_start(name);
    marked_name(name.take(at), name.skip(at), index)
}

/// What the attempt with the given number comes to, under a directory given by
/// its relative path.
pub open spec fn unique_attempt(parent: Seq<char>, name: Seq<char>, index: nat) -> Result<
    Seq<char>,
    UniqueError,
> {
    let ext = name.skip(extension_start(name));
    if text::units(ext) + text::decimal(index).len() + 4 > 255 {
        Err(UniqueError::ExtensionTooLong)
    } else {
        let rel = below(parent, candidate(name, index));
        match first_problem(text::split_on(rel, '/')) {
            Some(e) => Err(UniqueError::Component(e)),
            None => Ok(rel),
        }
    }
}

/// A name under a directory given by its relative path.
pub open spec fn below(parent: Seq<char>, name: Seq<char>) -> Seq<char> {
    if parent.len() == 0 {
        name
    } else {
        parent.push('/') + name
    }
}

/// The relative path of `name` under `parent`.
pub fn join_below(parent: &str, name: &str) -> (r: String)
    ensures
        r@ == below(parent@, name@),
{
    if parent.is_empty() {
        name.to_owned()
    } else {
        let mut r = parent.to_owned();
        r.push('/');
        r.append(name);
        r
    }
}

/// Checks every component of a relative path.
fn check_parts(rel: &str) -> (r: Result<(), NameError>)
    ensures
        r == match first_problem(text::split_on(rel@, '/')) {
            Some(e) => Err::<(), NameError>(e),
            None => Ok(()),
        },
{
    let parts = text::split(rel, '/');
    let ghost all = text::texts(parts@);
    let mut i: usize = 0;
    while i < parts.len()
        invariant
            all == text::texts(parts@),
            all == text::split_on(rel@, '/'),
            i <= parts@.len(),
            first_problem(all.take(i as int)) is None,
        decreases parts.len() - i,
    {
        assert(all.take(i + 1).drop_last() =~= all.take(i as int));
        assert(all.take(i + 1).last() == parts@[i as int]@);
        if let Err(e) = validate_component(parts[i].as_str()) {
            proof {
                problem_stays(all, i + 1, e);
            }
            return Err(e);
        }
        i = i + 1;
    }
    assert(all.take(i as int) =~= all);
    Ok(())
}

/// The first problem of a prefix is the first problem of the whole.
proof fn problem_stays(all: Seq<Seq<char>>, n: int, e: NameError)
    requires
        0 <= n <= all.len(),
        first_problem(all.take(n)) == Some(e),
    ensures
        first_problem(all) == Some(e),
    decreases all.len(),
{
    if n < all.len() {
        assert(all.drop_last().take(n) =~= all.take(n));
        problem_stays(all.drop_last(), n, e);
    } else {
        assert(all.take(n) =~= all);
    }
}

/// The relative path with the given number for a taken name.
pub fn unique_candidate(parent: &str, name: &str, index: u64) -> (r: Result<String, UniqueError>)
    ensures
        match r {
            Ok(s) => unique_attempt(parent@, name@, index as nat) == Ok::<Seq<char>, UniqueError>(
                s@,
            ),
            Err(e) => unique_attempt(parent@, name@, index as nat) == Err::<
                Seq<char>,
                UniqueError,
            >(e),
        },
{
    let (stem, ext) = split_compound_name(name);
    let digits: usize = text::number(index).unicode_len();
    proof {
        mark_short(index);
    }
    let v = text::chars_of(ext);
    if longer_than(&v, 251 - digits) {
        return Err(UniqueError::ExtensionTooLong);
    }
    let rel = join_below(parent, suffixed_candidate(stem, ext, index).as_str());
    match check_parts(rel.as_str()) {
        Ok(()) => Ok(rel),
        Err(e) => Err(UniqueError::Component(e)),
    }
}

/// The outcome of a search in which the numbers below `from` were taken, and
/// `taken` says which of the following ones are.
pub open spec fn unique_outcome(
    parent: Seq<char>,
    name: Seq<char>,
    taken: Seq<bool>,
    from: nat,
) -> Result<Option<Seq<char>>, UniqueError>
    decreases taken.len() + 1 - from,
{
    if from > MAX_UNIQUE_INDEX {
        Err(UniqueError::Exhausted)
    } else {
        match unique_attempt(parent, name, from) {
            Err(e) => Err(e),
            Ok(rel) => if from > taken.len() || from == 0 {
                Ok(None)
            } else if taken[from - 1] {
                unique_outcome(parent, name, taken, from + 1)
            } else {
                Ok(Some(rel))
            },
        }
    }
}

/// Searches the free name with the least number. `taken[k]` says whether the
/// candidate with number `k + 1` exists already; `Ok(None)` means that all the
/// given ones are taken and more have to be examined.
pub fn unique_target(parent: &str, name: &str, taken: &Vec<bool>) -> (r: Result<
    Option<String>,
    UniqueError,
>)
    ensures
        match r {
            Ok(s) => unique_outcome(parent@, name@, taken@, 1) == Ok::<
                Option<Seq<char>>,
                UniqueError,
            >(text::text_option(s)),
            Err(e) => unique_outcome(parent@, name@, taken@, 1) == Err::<
                Option<Seq<char>>,
                UniqueError,
            >(e),
        },
{
    let mut index: u64 = 1;
    loop
        invariant
            1 <= index <= MAX_UNIQUE_INDEX + 1,
            index <= taken@.len() + 1,
            unique_outcome(parent@, name@, taken@, 1) == unique_outcome(
                parent@,
                name@,
                taken@,
                index as nat,
            ),
        decreases taken@.len() + 1 - index,
    {
        if index > MAX_UNIQUE_INDEX {
            return Err(UniqueError::Exhausted);
        }
        let rel = match unique_candidate(parent, name, index) {
            Ok(rel) => rel,
            Err(e) => return Err(e),
        };
        if index > taken.len() as u64 {
            return Ok(None);
        }
        if !taken[(index - 1) as usize] {
            return Ok(Some(rel));
        }
        index = index + 1;
    }
}

/// A free name that the search returns has the least number whose candidate is
/// not taken.
pub proof fn law_unique_least(
    parent: Seq<char>,
    name: Seq<char>,
    taken: Seq<bool>,
    from: nat,
    rel: Seq<char>,
)
    requires
        from >= 1,
        unique_outcome(parent, name, taken, from) == Ok::<Option<Seq<char>>, UniqueError>(
            Some(rel),
        ),
    ensures
        exists|k: nat|
            #![trigger unique_attempt(parent, name, k)]
            from <= k <= taken.len() && k <= MAX_UNIQUE_INDEX && !taken[k - 1] && (forall|j: int|
                from <= j < k ==> #[trigger] taken[j - 1]) && unique_attempt(parent, name, k)
                == Ok::<Seq<char>, UniqueError>(rel),
    decreases taken.len() + 1 - from,
{
    if taken[from - 1] {
        law_unique_least(parent, name, taken, from + 1, rel);
        let k = choose|k: nat|
            #![trigger unique_attempt(parent, name, k)]
            from + 1 <= k <= taken.len() && k <= MAX_UNIQUE_INDEX && !taken[k - 1] && (forall|
                j: int,
            |
                from + 1 <= j < k ==> #[trigger] taken[j - 1]) && unique_attempt(parent, name, k)
                == Ok::<Seq<char>, UniqueError>(rel);
        assert(forall|j: int| from <= j < k ==> #[trigger] taken[j - 1]);
        assert(unique_attempt(parent, name, k) == Ok::<Seq<char>, UniqueError>(rel));
    } else {
        assert(unique_attempt(parent, name, from) == Ok::<Seq<char>, UniqueError>(rel));
    }
}

/// What looking for `.git` in a directory gave.
#[derive(Clone, Copy, Debug, PartialEq, Eq, Structural)]
pub enum GitProbe {
    /// There is no `.git`.
    Clean,
    /// There is a `.git`, a file or a directory.
    GitRoot,
    /// The directory could not be examined.
    Unreadable,
}

/// Why a directory is not processed because of a git project around it.
#[derive(Clone, Copy, Debug, PartialEq, Eq, Structural)]
pub enum GitRootError {
    /// The directory above, counted from the nearest, holds `.git`.
    Inside(usize),
    /// The directory above could not be examined.
    Unreadable(usize),
}

/// The first directory above that is not clean decides.
pub open spec fn git_above(above: Seq<GitProbe>, from: int) -> Option<GitRootError>
    decreases above.len() - from,
{
    if from < 0 || from >= above.len() {
        None
    } else {
        match above[from] {
            GitProbe::Clean => git_above(above, from + 1),
            GitProbe::GitRoot => Some(GitRootError::Inside(from as usize)),
            GitProbe::Unreadable => Some(GitRootError::Unreadable(from as usize)),
        }
    }
}

/// Refuses a directory that lies inside a git project. `above` holds what was
/// found in its parent, the parent's parent, and so on up to the volume root.
pub fn root_inside_git_project(above: &Vec<GitProbe>) -> (r: Result<(), GitRootError>)
    ensures
        r == match git_above(above@, 0) {
            Some(e) => Err::<(), GitRootError>(e),
            None => Ok(()),
        },
{
    let mut i: usize = 0;
    while i < above.len()
        invariant
            i <= above@.len(),
            git_above(above@, 0) == git_above(above@, i as int),
        decreases above.len() - i,
    {
        match above[i] {
            GitProbe::Clean => {},
            GitProbe::GitRoot => return Err(GitRootError::Inside(i)),
            GitProbe::Unreadable => return Err(GitRootError::Unreadable(i)),
        }
        i = i + 1;
    }
    Ok(())
}

/// A directory is accepted exactly when every directory above it is clean.
pub proof fn law_git_above_clean(above: Seq<GitProbe>, from: int)
    requires
        0 <= from <= above.len(),
    ensures
        git_above(above, from) is None <==> forall|i: int|
            from <= i < above.len() ==> #[trigger] above[i] == GitProbe::Clean,
    decreases above.len() - from,
{
    if from < above.len() && above[from] == GitProbe::Clean {
        law_git_above_clean(above, from + 1);
    }
}

/// What stands at one component of a path on the disk.
#[derive(Clone, Copy, Debug, PartialEq, Eq, Structural)]
pub enum LinkProbe {
    /// A file or directory that is no link.
    Plain,
    /// A symbolic link, junction or other reparse point.
    Link,
    /// Nothing.
    Missing,
    /// It could not be examined.
    Unreadable,
}

/// The first component that is a link or cannot be examined decides.
pub open spec fn link_problem(probes: Seq<LinkProbe>) -> Option<PathError>
    decreases probes.len(),
{
    if probes.len() == 0 {
        None
    } else {
        match link_problem(probes.drop_last()) {
            Some(e) => Some(e),
            None => match probes.last() {
                LinkProbe::Link => Some(PathError::Link),
                LinkProbe::Unreadable => Some(PathError::Unreadable),
                _ => None,
            },
        }
    }
}

/// A relative path under the root, refused when a component of it is a link.
/// `probes` holds what stands at each component, from the outermost on.
pub fn safe_join(rel: &str, probes: &Vec<LinkProbe>) -> (r: Result<String, PathError>)
    ensures
        match r {
            Ok(s) => safe_path(rel@) == Ok::<Seq<char>, PathError>(s@) && link_problem(
                probes@,
            ) is None,
            Err(e) => if safe_path(rel@) is Err {
                safe_path(rel@) == Err::<Seq<char>, PathError>(e)
            } else {
                link_problem(probes@) == Some(e)
            },
        },
{
    let path = match safe_relative(rel) {
        Ok(path) => path,
        Err(e) => return Err(e),
    };
    let mut i: usize = 0;
    assert(probes@.take(0) =~= Seq::<LinkProbe>::empty());
    while i < probes.len()
        invariant
            safe_path(rel@) == Ok::<Seq<char>, PathError>(path@),
            i <= probes@.len(),
            link_problem(probes@.take(i as int)) is None,
        decreases probes.len() - i,
    {
        assert(probes@.take(i + 1).drop_last() =~= probes@.take(i as int));
        match probes[i] {
            LinkProbe::Link => {
                proof {
                    link_problem_stays(probes@, i + 1, PathError::Link);
                }
                return Err(PathError::Link);
            },
            LinkProbe::Unreadable => {
                proof {
                    link_problem_stays(probes@, i + 1, PathError::Unreadable);
                }
                return Err(PathError::Unreadable);
            },
            _ => {},
        }
        i = i + 1;
    }
    assert(probes@.take(i as int) =~= probes@);
    Ok(path)
}

/// The first problem of a prefix is the first problem of the whole.
proof fn link_problem_stays(probes: Seq<LinkProbe>, n: int, e: PathError)
    requires
        0 <= n <= probes.len(),
        link_problem(probes.take(n)) == Some(e),
    ensures
        link_problem(probes) == Some(e),
    decreases probes.len(),
{
    if n < probes.len() {
        assert(probes.drop_last().take(n) =~= probes.take(n));
        link_problem_stays(probes.drop_last(), n, e);
    } else {
        assert(probes.take(n) =~= probes);
    }
}

/// Why a directory cannot be chosen.
#[derive(Clone, Copy, Debug, PartialEq, Eq, Structural)]
pub enum RootError {
    /// It cannot be reached.
    Unreachable,
    /// It is no directory, or has nothing above it.
    NotAnOrdinaryDirectory,
    /// It is the root of a Windows volume or share.
    VolumeRoot,
    /// It lies under a system or program directory of Windows.
    Protected,
}

/// What is known of a chosen directory.
#[derive(Debug)]
pub struct RootFacts {
    /// It could be resolved to a real path.
    pub reachable: bool,
    pub is_dir: bool,
    pub has_parent: bool,
    /// The rules of Windows apply.
    pub windows: bool,
    /// Components of the real path.
    pub components: usize,
    /// It lies under a protected directory.
    pub under_protected: bool,
}

/// What is wrong with a chosen directory.
pub open spec fn root_problem(f: RootFacts) -> Option<RootError> {
    if !f.reachable {
        Some(RootError::Unreachable)
    } else if !f.is_dir || !f.has_parent {
        Some(RootError::NotAnOrdinaryDirectory)
    } else if f.windows && f.components <= 2 {
        Some(RootError::VolumeRoot)
    } else if f.windows && f.under_protected {
        Some(RootError::Protected)
    } else {
        None
    }
}

/// Whether a directory can be chosen.
pub fn normalize_root(f: &RootFacts) -> (r: Result<(), RootError>)
    ensures
        r == match root_problem(*f) {
            Some(e) => Err::<(), RootError>(e),
            None => Ok(()),
        },
{
    if !f.reachable {
        return Err(RootError::Unreachable);
    }
    if !f.is_dir || !f.has_parent {
        return Err(RootError::NotAnOrdinaryDirectory);
    }
    if f.windows {
        if f.components <= 2 {
            return Err(RootError::VolumeRoot);
        }
        if f.under_protected {
            return Err(RootError::Protected);
        }
    }
    Ok(())
}

/// What is recorded of a file.
#[derive(Debug)]
pub struct Snapshot {
    pub size: u64,
    /// Modification time in nanoseconds since 1970.
    pub modified_ns: i64,
    /// Creation time, where the file system has one.
    pub created_ns: Option<i64>,
    /// What tells files apart.
    pub identity: String,
    /// Names that the file has.
    pub links: u64,
}

/// How the file system tells files apart.
#[derive(Clone, Copy, Debug, PartialEq, Eq, Structural)]
pub enum FileId {
    /// Device and inode.
    Unix(u64, u64),
    /// Volume serial number, and the two halves of the file index.
    Windows(u32, u32, u32),
}

/// A time before or after 1970, by its distance in nanoseconds.
#[derive(Clone, Copy, Debug, PartialEq, Eq, Structural)]
pub enum Moment {
    Since(u128),
    Before(u128),
}

/// Nanoseconds since 1970, when their distance fits in an `i64`.
pub open spec fn moment_ns(m: Moment) -> Option<i64> {
    match m {
        Moment::Since(d) => if d <= i64::MAX {
            Some(d as i64)
        } else {
            None
        },
        Moment::Before(d) => if d <= i64::MAX {
            Some((0 - d as i64) as i64)
        } else {
            None
        },
    }
}

/// The text that tells a file apart.
pub open spec fn identity_text(id: FileId) -> Seq<char> {
    match id {
        FileId::Unix(dev, ino) => text::decimal(dev as nat) + ":"@ + text::decimal(ino as nat),
        FileId::Windows(volume, high, low) => text::decimal(volume as nat) + ":"@ + text::decimal(
            high as nat,
        ) + ":"@ + text::decimal(low as nat),
    }
}

/// Why no snapshot could be taken.
#[derive(Clone, Copy, Debug, PartialEq, Eq, Structural)]
pub enum SnapshotError {
    NotARegularFile,
    TimeOutOfRange,
}

fn nanoseconds(m: Moment) -> (r: Option<i64>)
    ensures
        r == moment_ns(m),
{
    match m {
        Moment::Since(d) => if d <= i64::MAX as u128 {
            Some(d as i64)
        } else {
            None
        },
        Moment::Before(d) => if d <= i64::MAX as u128 {
            Some(-(d as i64))
        } else {
            None
        },
    }
}

fn identity(id: FileId) -> (r: String)
    ensures
        r@ == identity_text(id),
{
    match id {
        FileId::Unix(dev, ino) => {
            let mut s = text::number(dev);
            s.append(":");
            s.append(text::number(ino).as_str());
            s
        },
        FileId::Windows(volume, high, low) => {
            let mut s = text::number(volume as u64);
            s.append(":");
            s.append(text::number(high as u64).as_str());
            s.append(":");
            s.append(text::number(low as u64).as_str());
            s
        },
    }
}

/// The snapshot of a file from its metadata. A creation time that is missing or
/// out of range is left out; a modification time out of range is an error.
pub fn snapshot_with(
    regular: bool,
    size: u64,
    modified: Moment,
    created: Option<Moment>,
    id: FileId,
    links: u64,
) -> (r: Result<Snapshot, SnapshotError>)
    ensures
        match r {
            Ok(s) => {
                &&& regular
                &&& s.size == size
                &&& moment_ns(modified) == Some(s.modified_ns)
                &&& s.created_ns == match created {
                    Some(m) => moment_ns(m),
                    None => None,
                }
                &&& s.identity@ == identity_text(id)
                &&& s.links == links
            },
            Err(SnapshotError::NotARegularFile) => !regular,
            Err(SnapshotError::TimeOutOfRange) => regular && moment_ns(modified) is None,
        },
{
    if !regular {
        return Err(SnapshotError::NotARegularFile);
    }
    let modified_ns: i64 = match nanoseconds(modified) {
        Some(v) => v,
        None => return Err(SnapshotError::TimeOutOfRange),
    };
    let created_ns: Option<i64> = match created {
        Some(m) => nanoseconds(m),
        None => None,
    };
    Ok(Snapshot { size, modified_ns, created_ns, identity: identity(id), links })
}

/// Hundreds of nanoseconds between 1601 and 1970.
pub const EPOCH_DELTA_100NS: u64 = 116_444_736_000_000_000;

/// A time in the units of Windows: hundreds of nanoseconds since 1601. What
/// lies before 1970 becomes 1970, what is too large becomes the greatest value.
pub open spec fn filetime_units(m: Moment) -> u64 {
    match m {
        Moment::Since(ns) => {
            let total = EPOCH_DELTA_100NS + ns / 100;
            if total <= u64::MAX {
                total as u64
            } else {
                u64::MAX
            }
        },
        Moment::Before(_) => EPOCH_DELTA_100NS,
    }
}

/// The two halves of a file time.
#[derive(Clone, Copy, Debug, PartialEq, Eq, Structural)]
pub struct FileTime {
    pub low: u32,
    pub high: u32,
}

/// The file time for a creation time: the value that is written back after a
/// file was copied to another volume.
pub fn set_created_time(created: Moment) -> (r: FileTime)
    ensures
        r.high * 0x1_0000_0000 + r.low == filetime_units(created),
{
    let units: u64 = match created {
        Moment::Since(ns) => {
            let part: u128 = ns / 100;
            if part <= (u64::MAX - EPOCH_DELTA_100NS) as u128 {
                EPOCH_DELTA_100NS + part as u64
            } else {
                u64::MAX
            }
        },
        Moment::Before(_) => EPOCH_DELTA_100NS,
    };
    FileTime { low: (units % 0x1_0000_0000) as u32, high: (units / 0x1_0000_0000) as u32 }
}

/// What comes next while a file is moved.
#[derive(Clone, Copy, Debug, PartialEq, Eq, Structural)]
pub enum MoveStep {
    /// Rename it without replacing anything.
    Rename,
    /// Make a new file at the target, replacing nothing.
    Create,
    /// Write a copy into the new file.
    Copy,
    /// Write the times of the source to the copy.
    SetTimes,
    /// Remove the source.
    RemoveSource,
    /// The file is in its new place.
    Moved,
    /// The move failed; the source stays. The flag tells to remove the new file
    /// at the target.
    Failed(bool),
    /// The source could not be removed; both files stay.
    BothKept,
}

/// How the last step of a move ended.
#[derive(Clone, Copy, Debug, PartialEq, Eq, Structural)]
pub enum StepResult {
    Done,
    /// It failed, with the code of the operating system where there is one.
    Error(Option<i32>),
}

/// The code says that source and target are on different volumes: 17 on
/// Windows, 18 elsewhere.
pub open spec fn is_cross_volume(code: Option<i32>, windows: bool) -> bool {
    code == if windows {
        Some(17i32)
    } else {
        Some(18i32)
    }
}

/// The step of a move that follows.
pub open spec fn after_move_step(step: MoveStep, result: StepResult, windows: bool) -> MoveStep {
    match (step, result) {
        (MoveStep::Rename, StepResult::Done) => MoveStep::Moved,
        (MoveStep::Rename, StepResult::Error(code)) => if is_cross_volume(code, windows) {
            MoveStep::Create
        } else {
            MoveStep::Failed(false)
        },
        (MoveStep::Create, StepResult::Done) => MoveStep::Copy,
        (MoveStep::Create, StepResult::Error(_)) => MoveStep::Failed(false),
        (MoveStep::Copy, StepResult::Done) => MoveStep::SetTimes,
        (MoveStep::Copy, StepResult::Error(_)) => MoveStep::Failed(true),
        (MoveStep::SetTimes, StepResult::Done) => MoveStep::RemoveSource,
        (MoveStep::SetTimes, StepResult::Error(_)) => MoveStep::Failed(true),
        (MoveStep::RemoveSource, StepResult::Done) => MoveStep::Moved,
        (MoveStep::RemoveSource, StepResult::Error(_)) => MoveStep::BothKept,
        (ended, _) => ended,
    }
}

/// Moves a file so that its times stay and nothing is replaced: by renaming, or,
/// where that is not possible between volumes, by a copy into a new file whose
/// times are set before the source is removed.
pub fn move_file_preserving_times(step: MoveStep, result: StepResult, windows: bool) -> (r:
    MoveStep)
    ensures
        r == after_move_step(step, result, windows),
{
    match (step, result) {
        (MoveStep::Rename, StepResult::Done) => MoveStep::Moved,
        (MoveStep::Rename, StepResult::Error(code)) => match code {
            Some(c) => if (windows && c == 17) || (!windows && c == 18) {
                MoveStep::Create
            } else {
                MoveStep::Failed(false)
            },
            None => MoveStep::Failed(false),
        },
        (MoveStep::Create, StepResult::Done) => MoveStep::Copy,
        (MoveStep::Create, StepResult::Error(_)) => MoveStep::Failed(false),
        (MoveStep::Copy, StepResult::Done) => MoveStep::SetTimes,
        (MoveStep::Copy, StepResult::Error(_)) => MoveStep::Failed(true),
        (MoveStep::SetTimes, StepResult::Done) => MoveStep::RemoveSource,
        (MoveStep::SetTimes, StepResult::Error(_)) => MoveStep::Failed(true),
        (MoveStep::RemoveSource, StepResult::Done) => MoveStep::Moved,
        (MoveStep::RemoveSource, StepResult::Error(_)) => MoveStep::BothKept,
        (ended, _) => ended,
    }
}

/// The step of a move after the given results, from the first on.
pub open spec fn move_trace(results: Seq<StepResult>, windows: bool) -> MoveStep
    decreases results.len(),
{
    if results.len() == 0 {
        MoveStep::Rename
    } else {
        after_move_step(move_trace(results.drop_last(), windows), results.last(), windows)
    }
}

/// The source is removed only after a new file was made, the copy was written and
/// it got its times.
pub proof fn law_source_removed_last(results: Seq<StepResult>, windows: bool)
    requires
        move_trace(results, windows) == MoveStep::RemoveSource,
    ensures
        results.len() == 4,
        results[0] is Error,
        results[1] == StepResult::Done,
        results[2] == StepResult::Done,
        results[3] == StepResult::Done,
{
    steps_of_a_move(results, windows);
}

/// Each step of a move is reached in one way only.
proof fn steps_of_a_move(results: Seq<StepResult>, windows: bool)
    ensures
        match move_trace(results, windows) {
            MoveStep::Rename => results.len() == 0,
            MoveStep::Create => results.len() == 1 && results[0] is Error,
            MoveStep::Copy => results.len() == 2 && results[0] is Error && results[1]
                == StepResult::Done,
            MoveStep::SetTimes => results.len() == 3 && results[0] is Error && results[1]
                == StepResult::Done && results[2] == StepResult::Done,
            MoveStep::RemoveSource => results.len() == 4 && results[0] is Error && results[1]
                == StepResult::Done && results[2] == StepResult::Done && results[3]
                == StepResult::Done,
            MoveStep::Moved => results.len() > 0 && (results[0] is Error ==> results.len() >= 5
                && results[1] == StepResult::Done),
            MoveStep::Failed(made) => results.len() > 0 && results[0] is Error && (made ==>
                results.len() >= 3 && results[1] == StepResult::Done),
            MoveStep::BothKept => results.len() >= 5 && results[0] is Error && results[1]
                == StepResult::Done,
        },
    decreases results.len(),
{
    if results.len() > 0 {
        steps_of_a_move(results.drop_last(), windows);
    }
}

/// A taken target stays and so does the source: where neither the renaming nor
/// making a new file works, the move fails and nothing at the target is removed.
pub proof fn law_taken_target_stays(results: Seq<StepResult>, windows: bool)
    requires
        results.len() > 0,
        results[0] is Error,
        results.len() > 1 ==> results[1] is Error,
        !(results.len() == 1 && move_trace(results, windows) == MoveStep::Create),
    ensures
        move_trace(results, windows) == MoveStep::Failed(false),
    decreases results.len(),
{
    reveal_with_fuel(move_trace, 3);
    if results.len() > 2 {
        law_taken_target_stays(results.drop_last(), windows);
    }
}

/// What stands at the target is removed only where this move made it.
pub proof fn law_only_the_copy_is_removed(results: Seq<StepResult>, windows: bool)
    requires
        move_trace(results, windows) == MoveStep::Failed(true),
    ensures
        results.len() >= 3,
        results[0] is Error,
        results[1] == StepResult::Done,
{
    steps_of_a_move(results, windows);
}

/// A name can be a component exactly where it is not empty, does not end in a dot or white
/// space, holds no control character and none that Windows does not allow, does not start
/// with the name of a device, and is not too long.
pub proof fn law_which_names_are_valid(name: Seq<char>, stem: Seq<char>)
    ensures
        ({
            let bad = |c: char|
                (c as u32) < 32 || (127 <= c as u32 && (c as u32) < 160) || c == '<' || c == '>' || c
                    == ':' || c == '"' || c == '/' || c == '\\' || c == '|' || c == '?' || c == '*';
            let unsafe_end = name.len() == 0 || name.last() == '.' || text::is_space(name.last());
            let forbidden = exists|i: int| 0 <= i < name.len() && bad(#[trigger] name[i]);
            let r = component_error(name, stem);
            &&& r == Some(NameError::Unsafe) <==> unsafe_end
            &&& r == Some(NameError::ForbiddenCharacter) <==> !unsafe_end && forbidden
            &&& r == Some(NameError::Reserved) <==> !unsafe_end && !forbidden && is_device(stem)
            &&& r == Some(NameError::TooLong) <==> !unsafe_end && !forbidden && !is_device(stem)
                && text::units(name) > 255
            &&& r is None <==> !unsafe_end && !forbidden && !is_device(stem) && text::units(name)
                <= 255
        }),
{
    let bad = |c: char|
        (c as u32) < 32 || (127 <= c as u32 && (c as u32) < 160) || c == '<' || c == '>' || c == ':'
            || c == '"' || c == '/' || c == '\\' || c == '|' || c == '?' || c == '*';
    assert forall|i: int| 0 <= i < name.len() implies is_forbidden(#[trigger] name[i]) == bad(
        name[i],
    ) by {}
    if exists|i: int| 0 <= i < name.len() && is_forbidden(#[trigger] name[i]) {
        let i = choose|i: int| 0 <= i < name.len() && is_forbidden(#[trigger] name[i]);
        assert(bad(name[i]));
    }
    if exists|i: int| 0 <= i < name.len() && bad(#[trigger] name[i]) {
        let i = choose|i: int| 0 <= i < name.len() && bad(#[trigger] name[i]);
        assert(is_forbidden(name[i]));
    }
}

/// The devices of Windows: five by name, and the serial and parallel ports by their number.
pub proof fn law_device_names(c: char)
    ensures
        is_device("CON"@),
        is_device("PRN"@),
        is_device("AUX"@),
        is_device("NUL"@),
        is_device("CLOCK$"@),
        is_device("COM"@.push(c)) <==> '1' <= c <= '9' || c == '¹' || c == '²' || c == '³',
        is_device("LPT"@.push(c)) <==> '1' <= c <= '9' || c == '¹' || c == '²' || c == '³',
        !is_device("COM"@),
        !is_device("LPT"@),
{
    reveal_strlit("CON");
    reveal_strlit("PRN");
    reveal_strlit("AUX");
    reveal_strlit("NUL");
    reveal_strlit("CLOCK$");
    reveal_strlit("COM");
    reveal_strlit("LPT");
    let a = "COM"@.push(c);
    let b = "LPT"@.push(c);
    assert(a.subrange(0, 3) =~= "COM"@);
    assert(b.subrange(0, 3) =~= "LPT"@);
    assert("COM"@[2] == 'M' && "CON"@[2] == 'N' && "LPT"@[0] == 'L' && "PRN"@[0] == 'P'
        && "AUX"@[0] == 'A' && "NUL"@[0] == 'N');
}

proof fn kept_contains(parts: Seq<Seq<char>>, x: Seq<char>)
    ensures
        kept(parts).contains(x) <==> parts.contains(x) && is_kept(x),
    decreases parts.len(),
{
    if parts.len() > 0 {
        let before = parts.drop_last();
        kept_contains(before, x);
        let k = kept(parts);
        let kb = kept(before);
        if parts.contains(x) && x != parts.last() {
            let i = choose|i: int| 0 <= i < parts.len() && parts[i] == x;
            assert(before[i] == x);
        }
        if before.contains(x) {
            let i = choose|i: int| 0 <= i < before.len() && before[i] == x;
            assert(parts[i] == x);
        }
        if kb.contains(x) {
            let i = choose|i: int| 0 <= i < kb.len() && kb[i] == x;
            assert(k[i] == x);
        }
        if k.contains(x) {
            let i = choose|i: int| 0 <= i < k.len() && k[i] == x;
            if i < kb.len() {
                assert(kb[i] == x);
            }
        }
        if is_kept(parts.last()) {
            assert(k[k.len() - 1] == parts.last());
        }
        assert(parts[parts.len() - 1] == parts.last());
    }
}

proof fn problems_are_found(parts: Seq<Seq<char>>)
    ensures
        first_problem(parts) is None <==> forall|i: int|
            0 <= i < parts.len() ==> name_problem(#[trigger] parts[i]) is None,
    decreases parts.len(),
{
    if parts.len() > 0 {
        problems_are_found(parts.drop_last());
        if first_problem(parts) is None {
            no_problem_each(parts);
        }
        if forall|i: int| 0 <= i < parts.len() ==> name_problem(#[trigger] parts[i]) is None {
            assert forall|i: int| 0 <= i < parts.drop_last().len() implies name_problem(
                #[trigger] parts.drop_last()[i],
            ) is None by {
                assert(name_problem(parts[i]) is None);
            }
            assert(name_problem(parts[parts.len() - 1]) is None);
        }
    }
}

/// A path from an archive is accepted exactly where it does not start with a separator of
/// either kind, names something, and every component that is neither empty nor a single
/// dot is a valid name. A way up is never accepted.
pub proof fn law_which_paths_are_safe(raw: Seq<char>)
    ensures
        ({
            let parts = text::split_on(slashed(raw), '/');
            let absolute = raw.len() > 0 && (raw[0] == '/' || raw[0] == '\\');
            let bad = exists|i: int|
                0 <= i < parts.len() && (#[trigger] parts[i]).len() > 0 && parts[i] != seq!['.']
                    && name_problem(parts[i]) is Some;
            let named = exists|i: int|
                0 <= i < parts.len() && (#[trigger] parts[i]).len() > 0 && parts[i] != seq!['.'];
            &&& safe_path(raw) == Err::<Seq<char>, PathError>(PathError::Absolute) <==> absolute
            &&& safe_path(raw) is Ok <==> !absolute && named && !bad
            &&& safe_path(raw) == Err::<Seq<char>, PathError>(PathError::Empty) <==> !absolute
                && !named
            &&& parts.contains(seq!['.', '.']) ==> safe_path(raw) is Err
        }),
{
    let parts = text::split_on(slashed(raw), '/');
    let k = kept(parts);
    problems_are_found(k);
    assert forall|i: int| 0 <= i < k.len() implies parts.contains(#[trigger] k[i]) && is_kept(k[i]) by {
        kept_contains(parts, k[i]);
        assert(k.contains(k[i]));
    }
    assert forall|i: int| 0 <= i < parts.len() && is_kept(#[trigger] parts[i]) implies k.contains(
        parts[i],
    ) by {
        kept_contains(parts, parts[i]);
        assert(parts.contains(parts[i]));
    }
    if first_problem(k) is Some {
        let i = choose|i: int| 0 <= i < k.len() && name_problem(#[trigger] k[i]) is Some;
        let j = choose|j: int| 0 <= j < parts.len() && parts[j] == k[i];
        assert(parts[j].len() > 0);
    } else {
        assert forall|i: int|
            0 <= i < parts.len() && (#[trigger] parts[i]).len() > 0 && parts[i] != seq![
                '.',
            ] implies name_problem(parts[i]) is None by {
            assert(is_kept(parts[i]));
            let j = choose|j: int| 0 <= j < k.len() && k[j] == parts[i];
            assert(name_problem(k[j]) is None);
        }
    }
    if k.len() > 0 {
        let j = choose|j: int| 0 <= j < parts.len() && parts[j] == k[0];
        assert(is_kept(k[0]));
        assert(parts[j].len() > 0);
    } else {
        assert forall|i: int| 0 <= i < parts.len() implies !((#[trigger] parts[i]).len() > 0
            && parts[i] != seq!['.']) by {
            if parts[i].len() > 0 && parts[i] != seq!['.'] {
                assert(is_kept(parts[i]));
                assert(k.contains(parts[i]));
            }
        }
    }
    if parts.contains(seq!['.', '.']) {
        let up = seq!['.', '.'];
        let i = choose|i: int| 0 <= i < parts.len() && parts[i] == up;
        assert(up.last() == '.');
        assert(up.len() == 2 && seq!['.'].len() == 1);
        assert(is_kept(up));
        assert(name_problem(parts[i]) is Some);
    }
}

/// A path whose components are all valid names is safe as it is.
pub proof fn law_good_paths_stay(parts: Seq<Seq<char>>)
    requires
        parts.len() > 0,
        forall|i: int| 0 <= i < parts.len() ==> name_problem(#[trigger] parts[i]) is None,
    ensures
        safe_path(text::join_with(parts, seq!['/'])) == Ok::<Seq<char>, PathError>(
            text::join_with(parts, seq!['/']),
        ),
{
    let p = text::join_with(parts, seq!['/']);
    assert forall|i: int| 0 <= i < parts.len() implies is_kept(#[trigger] parts[i])
        && !parts[i].contains('/') && !parts[i].contains('\\') by {
        valid_name_chars(parts[i]);
        if parts[i] == seq!['.'] {
            assert(parts[i].last() == '.');
        }
    }
    assert(slashed(p) =~= p) by {
        assert forall|i: int| 0 <= i < p.len() implies p[i] != '\\' by {
            join_chars(parts, '/', i);
        }
    }
    text::law_join_split(parts, '/');
    kept_all(parts);
    problems_are_found(parts);
    join_starts(parts, seq!['/']);
    assert(p[0] == parts[0][0]);
    assert(parts[0].contains(parts[0][0]));
}

/// The dot at which an ending without a dot begins.
proof fn dot_before(stem: Seq<char>, ending: Seq<char>)
    requires
        stem.len() > 0,
        !ending.contains('.'),
    ensures
        inner_dot(stem + seq!['.'] + ending) == Some(stem.len() as int),
    decreases ending.len(),
{
    let s = stem + seq!['.'] + ending;
    if ending.len() == 0 {
        assert(s.last() == '.');
    } else {
        let e = ending.drop_last();
        assert(!e.contains('.')) by {
            if e.contains('.') {
                let i = choose|i: int| 0 <= i < e.len() && e[i] == '.';
                assert(ending[i] == '.');
            }
        }
        dot_before(stem, e);
        assert(s.drop_last() =~= stem + seq!['.'] + e);
        assert(s.last() == ending.last());
        assert(ending.contains(ending.last()));
    }
}

proof fn no_dot(s: Seq<char>)
    requires
        !s.contains('.'),
    ensures
        inner_dot(s) is None,
    decreases s.len(),
{
    if s.len() > 0 {
        let t = s.drop_last();
        assert(!t.contains('.')) by {
            if t.contains('.') {
                let i = choose|i: int| 0 <= i < t.len() && t[i] == '.';
                assert(s[i] == '.');
            }
        }
        assert(s.contains(s.last()));
        no_dot(t);
        if let Some(i) = text::last_pos(t, '.') {
            last_pos_holds(t, '.');
            assert(t.contains('.'));
        }
    }
}

/// The ending of a name is what stands behind its last dot; the endings of a compressed tar
/// file, of a part of a RAR file and of a numbered piece go with what stands before them. A
/// name without a dot, or with one only at its start, has no ending.
pub proof fn law_endings_that_belong_together(stem: Seq<char>, a: Seq<char>, digits: Seq<char>)
    requires
        stem.len() > 0,
        !stem.contains('.'),
        !a.contains('.'),
        !(a.len() == 3 && text::all_digits(a)),
        digits.len() > 0,
        text::all_digits(digits),
    ensures
        extension_start(stem) == stem.len(),
        extension_start(seq!['.'] + stem) == stem.len() + 1,
        extension_start(stem + seq!['.'] + a) == stem.len(),
        is_stream(a) ==> extension_start(stem + seq!['.'] + "tar"@ + seq!['.'] + a) == stem.len(),
        extension_start(stem + seq!['.'] + ("part"@ + digits) + seq!['.'] + "rar"@) == stem.len(),
        is_volume_suffix(a) && digits.len() == 3 ==> extension_start(
            stem + seq!['.'] + a + seq!['.'] + digits,
        ) == stem.len(),
{
    reveal_strlit("tar");
    reveal_strlit("rar");
    reveal_strlit(".rar");
    reveal_strlit("part");
    no_dot(stem);
    dot_before(stem, a);
    let plain = stem + seq!['.'] + a;
    assert(plain.take(stem.len() as int) =~= stem);
    assert(plain.skip(stem.len() as int) =~= seq!['.'] + a);
    assert((seq!['.'] + a).skip(1) =~= a);
    // A dot at the start.
    let hidden = seq!['.'] + stem;
    hidden_dot(stem);
    // A compressed tar file.
    let tar = stem + seq!['.'] + "tar"@;
    assert(!"tar"@.contains('.'));
    dot_before(tar, a);
    dot_before(stem, "tar"@);
    let whole = tar + seq!['.'] + a;
    assert(whole.take(tar.len() as int) =~= tar);
    assert(whole.skip(tar.len() as int) =~= seq!['.'] + a);
    assert(tar.skip(stem.len() as int + 1) =~= "tar"@);
    assert(text::lower("tar"@) =~= "tar"@);
    if is_stream(a) && text::lower(seq!['.'] + a) == ".rar"@ {
        assert(text::lower(a) =~= text::lower(seq!['.'] + a).skip(1));
    }
    // A part of a RAR file.
    let number = "part"@ + digits;
    assert(!number.contains('.')) by {
        if number.contains('.') {
            let i = choose|i: int| 0 <= i < number.len() && number[i] == '.';
            if i >= 4 {
                assert(text::is_digit(digits[i - 4]));
            }
        }
    }
    let part = stem + seq!['.'] + number;
    assert(!"rar"@.contains('.'));
    dot_before(part, "rar"@);
    dot_before(stem, number);
    let rar = part + seq!['.'] + "rar"@;
    assert(rar.take(part.len() as int) =~= part);
    assert(rar.skip(part.len() as int) =~= ".rar"@);
    assert(".rar"@.skip(1)[0] == 'r');
    assert(!text::all_digits(".rar"@.skip(1))) by {
        if text::all_digits(".rar"@.skip(1)) {
            assert(text::is_digit(".rar"@.skip(1)[0]));
        }
    }
    assert(text::lower(".rar"@) =~= ".rar"@);
    assert(part.skip(stem.len() as int + 1) =~= number);
    assert(number.take(4) =~= "part"@);
    assert(text::lower("part"@) =~= "part"@);
    assert(number.skip(4) =~= digits);
    // A numbered piece.
    assert(!digits.contains('.')) by {
        if digits.contains('.') {
            let i = choose|i: int| 0 <= i < digits.len() && digits[i] == '.';
            assert(text::is_digit(digits[i]));
        }
    }
    dot_before(plain, digits);
    let piece = plain + seq!['.'] + digits;
    assert(piece.take(plain.len() as int) =~= plain);
    assert(piece.skip(plain.len() as int) =~= seq!['.'] + digits);
    assert((seq!['.'] + digits).skip(1) =~= digits);
    assert(plain.skip(stem.len() as int + 1) =~= a);
    if is_volume_suffix(a) {
        assert(volume_start(plain) == volume_start(stem));
    }
}

proof fn hidden_dot(stem: Seq<char>)
    requires
        !stem.contains('.'),
    ensures
        text::last_pos(seq!['.'] + stem, '.') == Some(0int),
    decreases stem.len(),
{
    let s = seq!['.'] + stem;
    if stem.len() > 0 {
        let t = stem.drop_last();
        assert(!t.contains('.')) by {
            if t.contains('.') {
                let i = choose|i: int| 0 <= i < t.len() && t[i] == '.';
                assert(stem[i] == '.');
            }
        }
        hidden_dot(t);
        assert(s.drop_last() =~= seq!['.'] + t);
        assert(s.last() == stem.last());
        assert(stem.contains(stem.last()));
    }
}

/// Different numbers make different names, as long as the name is short enough to stay
/// whole.
pub proof fn law_marks_tell_names_apart(stem: Seq<char>, ext: Seq<char>, a: u64, b: u64)
    requires
        text::units(stem) + text::units(ext) + 23 <= 255,
        stem.len() > 0,
        ext.len() > 0 ==> ext.last() != '.' && !text::is_space(ext.last()),
        marked_name(stem, ext, a as nat) == marked_name(stem, ext, b as nat),
    ensures
        a == b,
{
    mark_short(a);
    mark_short(b);
    law_marked_name_whole(stem, ext, a);
    law_marked_name_whole(stem, ext, b);
    reveal_strlit(" (");
    reveal_strlit(")");
    let x = stem + mark(a as nat) + ext;
    let y = stem + mark(b as nat) + ext;
    let da = text::decimal(a as nat);
    let db = text::decimal(b as nat);
    assert(mark(a as nat).len() == da.len() + 3);
    assert(mark(b as nat).len() == db.len() + 3);
    assert(x == y);
    assert(x.len() == stem.len() + mark(a as nat).len() + ext.len());
    assert(y.len() == stem.len() + mark(b as nat).len() + ext.len());
    let from = stem.len() as int + 2;
    assert(x.subrange(from, from + da.len()) =~= da);
    assert(y.subrange(from, from + db.len()) =~= db);
    text::law_decimal_value(a as nat);
    text::law_decimal_value(b as nat);
}

/// The search gives the first name that is not taken, where the names up to it can be
/// made.
pub proof fn law_the_first_free_name_is_found(
    parent: Seq<char>,
    name: Seq<char>,
    taken: Seq<bool>,
    from: nat,
    k: nat,
)
    requires
        1 <= from <= k <= taken.len(),
        k <= 1_000_000,
        !taken[k - 1],
        forall|j: int| from <= j < k ==> #[trigger] taken[j - 1],
        forall|j: nat| from <= j <= k ==> #[trigger] unique_attempt(parent, name, j) is Ok,
    ensures
        unique_outcome(parent, name, taken, from) == Ok::<Option<Seq<char>>, UniqueError>(
            Some(unique_attempt(parent, name, k)->Ok_0),
        ),
    decreases k - from,
{
    assert(unique_attempt(parent, name, from) is Ok);
    if from < k {
        assert(taken[from as int - 1]);
        law_the_first_free_name_is_found(parent, name, taken, from + 1, k);
    }
}

/// A name with a number stands in the same directory, and its ending leaves room for the
/// number.
pub proof fn law_numbered_names_stay_in_place(parent: Seq<char>, name: Seq<char>, index: nat)
    requires
        unique_attempt(parent, name, index) is Ok,
    ensures
        ({
            let at = extension_start(name);
            let own = marked_name(name.take(at), name.skip(at), index);
            unique_attempt(parent, name, index) == Ok::<Seq<char>, UniqueError>(
                if parent.len() == 0 {
                    own
                } else {
                    parent.push('/') + own
                },
            )
        }),
{
}

/// The nearest directory above with a git project, or that could not be examined, is told.
pub proof fn law_the_nearest_project_is_told(above: Seq<GitProbe>, k: int)
    requires
        0 <= k < above.len(),
        above.len() <= usize::MAX,
        forall|i: int| 0 <= i < k ==> above[i] == GitProbe::Clean,
        above[k] != GitProbe::Clean,
    ensures
        git_above(above, 0) == Some(
            if above[k] == GitProbe::GitRoot {
                GitRootError::Inside(k as usize)
            } else {
                GitRootError::Unreadable(k as usize)
            },
        ),
{
    clean_ones_skipped(above, 0, k);
}

proof fn clean_ones_skipped(above: Seq<GitProbe>, from: int, k: int)
    requires
        0 <= from <= k < above.len(),
        forall|i: int| 0 <= i < k ==> above[i] == GitProbe::Clean,
    ensures
        git_above(above, from) == git_above(above, k),
    decreases k - from,
{
    if from < k {
        clean_ones_skipped(above, from + 1, k);
    }
}

/// A path is refused exactly where one of its components is a link or could not be
/// examined, and the first of them is told.
pub proof fn law_links_are_refused(probes: Seq<LinkProbe>, k: int)
    ensures
        link_problem(probes) is None <==> forall|i: int|
            0 <= i < probes.len() ==> #[trigger] probes[i] == LinkProbe::Plain || probes[i]
                == LinkProbe::Missing,
        0 <= k < probes.len() && probes[k] == LinkProbe::Link && (forall|i: int|
            0 <= i < k ==> #[trigger] probes[i] == LinkProbe::Plain || probes[i]
                == LinkProbe::Missing) ==> link_problem(probes) == Some(PathError::Link),
        0 <= k < probes.len() && probes[k] == LinkProbe::Unreadable && (forall|i: int|
            0 <= i < k ==> #[trigger] probes[i] == LinkProbe::Plain || probes[i]
                == LinkProbe::Missing) ==> link_problem(probes) == Some(PathError::Unreadable),
    decreases probes.len(),
{
    if probes.len() > 0 {
        let before = probes.drop_last();
        law_links_are_refused(before, k);
        assert(forall|i: int| 0 <= i < before.len() ==> #[trigger] before[i] == probes[i]);
        if forall|i: int|
            0 <= i < probes.len() ==> #[trigger] probes[i] == LinkProbe::Plain || probes[i]
                == LinkProbe::Missing {
            assert(probes[probes.len() - 1] == probes.last());
        }
        if link_problem(probes) is None {
            assert forall|i: int| 0 <= i < probes.len() implies #[trigger] probes[i]
                == LinkProbe::Plain || probes[i] == LinkProbe::Missing by {
                if i < before.len() {
                    assert(before[i] == probes[i]);
                }
            }
        }
        if k == probes.len() - 1 {
            if forall|i: int|
                0 <= i < k ==> #[trigger] probes[i] == LinkProbe::Plain || probes[i]
                    == LinkProbe::Missing {
                assert(link_problem(before) is None);
            }
        }
    }
}

/// A directory can be chosen exactly where it can be reached, is a directory with another
/// one above it, and on Windows is neither the top of a volume nor protected.
pub proof fn law_which_directories_can_be_chosen(f: RootFacts)
    ensures
        root_problem(f) is None <==> f.reachable && f.is_dir && f.has_parent && (f.windows
            ==> f.components > 2 && !f.under_protected),
        root_problem(f) == Some(RootError::Unreachable) <==> !f.reachable,
        root_problem(f) == Some(RootError::NotAnOrdinaryDirectory) <==> f.reachable && !(f.is_dir
            && f.has_parent),
        root_problem(f) == Some(RootError::VolumeRoot) <==> f.reachable && f.is_dir && f.has_parent
            && f.windows && f.components <= 2,
{
}

/// A time is as many nanoseconds after or before 1970 as it is away from it, where that
/// can be stored.
pub proof fn law_moments(d: u128)
    ensures
        d <= i64::MAX ==> moment_ns(Moment::Since(d)) == Some(d as i64),
        d <= i64::MAX ==> (moment_ns(Moment::Before(d)) matches Some(n) && n == -(d as int)),
        d > i64::MAX ==> moment_ns(Moment::Since(d)) is None && moment_ns(Moment::Before(d)) is None,
        filetime_units(Moment::Since(0)) == 116_444_736_000_000_000,
        filetime_units(Moment::Before(d)) == 116_444_736_000_000_000,
        d / 100 <= 1_000_000_000_000_000_000 ==> filetime_units(Moment::Since(d))
            == 116_444_736_000_000_000 + d / 100,
{
}

/// A renaming that works has moved the file. Where it fails because source and target are
/// on different volumes, a copy takes its place, and the file is moved once the copy has
/// its times and the source is gone; any other failure is final.
pub proof fn law_how_a_file_is_moved(windows: bool, code: Option<i32>)
    ensures
        ({
            let done = StepResult::Done;
            let failed = StepResult::Error(code);
            let across = code == Some(
                if windows {
                    17i32
                } else {
                    18i32
                },
            );
            let first = after_move_step(MoveStep::Rename, failed, windows);
            &&& after_move_step(MoveStep::Rename, done, windows) == MoveStep::Moved
            &&& first == MoveStep::Create <==> across
            &&& first == MoveStep::Failed(false) <==> !across
            &&& after_move_step(
                after_move_step(
                    after_move_step(
                        after_move_step(MoveStep::Create, done, windows),
                        done,
                        windows,
                    ),
                    done,
                    windows,
                ),
                done,
                windows,
            ) == MoveStep::Moved
            &&& after_move_step(MoveStep::Copy, failed, windows) == MoveStep::Failed(true)
            &&& after_move_step(MoveStep::SetTimes, failed, windows) == MoveStep::Failed(true)
            &&& after_move_step(MoveStep::RemoveSource, failed, windows) == MoveStep::BothKept
            &&& after_move_step(MoveStep::Create, failed, windows) == MoveStep::Failed(false)
            &&& after_move_step(MoveStep::Moved, failed, windows) == MoveStep::Moved
        }),
{
}

/// A path lies under a directory exactly where it is the directory with more names behind
/// it, or with none; its path there is those names.
pub proof fn law_what_lies_under_a_directory(
    root: Seq<Seq<char>>,
    rest: Seq<Seq<char>>,
    path: Seq<Seq<char>>,
)
    ensures
        is_under(root, root),
        is_under(root, root + rest),
        is_under(root, path) <==> exists|more: Seq<Seq<char>>| path == #[trigger] (root + more),
        path.len() < root.len() ==> !is_under(root, path),
        relative_text(root, root + rest) == slashed(text::join_with(rest, seq!['/'])),
{
    assert(root.take(root.len() as int) =~= root);
    assert((root + rest).take(root.len() as int) =~= root);
    assert((root + rest).skip(root.len() as int) =~= rest);
    if is_under(root, path) {
        assert(path =~= root + path.skip(root.len() as int));
    }
    if exists|more: Seq<Seq<char>>| path == #[trigger] (root + more) {
        let more = choose|more: Seq<Seq<char>>| path == #[trigger] (root + more);
        assert((root + more).take(root.len() as int) =~= root);
    }
}

} // verus!

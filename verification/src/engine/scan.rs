//! What a scan tells the user and in which order it records what it found.

use crate::archive::listing::QUARANTINE_DIR_NAME;
use crate::engine::scope;
use crate::fsutil;
use crate::model::Summary;
use crate::order;
use crate::rules;
use crate::text;
use vstd::hash_map::StringHashMap;
use vstd::prelude::*;

verus! {

/// The line of status while a scan runs.
pub fn scan_status(enqueue: bool) -> (r: &'static str)
    ensures
        r@ == (if enqueue {
            "扫描所选目录，登记待解压的压缩包"@
        } else {
            "扫描所选目录（只读分析）"@
        }),
{
    if enqueue {
        "扫描所选目录，登记待解压的压缩包"
    } else {
        "扫描所选目录（只读分析）"
    }
}

/// What the user's choices leave out, one phrase each.
pub open spec fn reductions(
    recursive: bool,
    include_hidden: bool,
    include_system: bool,
    rules: nat,
) -> Seq<Seq<char>> {
    let a = if recursive {
        Seq::empty()
    } else {
        seq!["递归已关闭（只处理所选目录的第一层）"@]
    };
    let b = if include_hidden {
        a
    } else {
        a.push("未包含隐藏属性资料"@)
    };
    let c = if include_system {
        b
    } else {
        b.push("未包含系统属性资料"@)
    };
    if rules == 0 {
        c
    } else {
        c.push("排除规则生效（"@ + text::decimal(rules) + " 条）"@)
    }
}

/// The notice about a reduced scope; none where nothing is left out.
pub open spec fn scope_notice(
    recursive: bool,
    include_hidden: bool,
    include_system: bool,
    rules: nat,
) -> Option<Seq<char>> {
    let list = reductions(recursive, include_hidden, include_system, rules);
    if list.len() == 0 {
        None
    } else {
        Some(
            "范围提示："@ + text::join_with(list, "；"@)
                + "；这些资料不参与本次处理，也不会被改动"@,
        )
    }
}

fn owned(s: &str) -> (r: String)
    ensures
        r@ == s@,
{
    s.to_owned()
}

/// The notice about what the user's choices leave out.
pub fn reduced_scope(
    recursive: bool,
    include_hidden: bool,
    include_system: bool,
    exclusions: &str,
) -> (r: Option<String>)
    ensures
        text::text_option(r) == scope_notice(
            recursive,
            include_hidden,
            include_system,
            rules::exclusion_patterns(exclusions@).len(),
        ),
{
    let patterns = rules::exclusion_list(exclusions);
    let n: usize = patterns.len();
    assert(n == rules::exclusion_patterns(exclusions@).len());
    let mut list: Vec<String> = Vec::new();
    assert(text::texts(list@) =~= Seq::<Seq<char>>::empty());
    if !recursive {
        let ghost before = list@;
        let s = owned("递归已关闭（只处理所选目录的第一层）");
        list.push(s);
        proof {
            text::texts_push(before, s);
            assert(text::texts(list@) =~= seq!["递归已关闭（只处理所选目录的第一层）"@]);
        }
    }
    if !include_hidden {
        let ghost before = list@;
        let s = owned("未包含隐藏属性资料");
        list.push(s);
        proof {
            text::texts_push(before, s);
        }
    }
    if !include_system {
        let ghost before = list@;
        let s = owned("未包含系统属性资料");
        list.push(s);
        proof {
            text::texts_push(before, s);
        }
    }
    if n > 0 {
        let ghost before = list@;
        let mut s = owned("排除规则生效（");
        s.append(text::number(n as u64).as_str());
        s.append(" 条）");
        list.push(s);
        proof {
            text::texts_push(before, s);
        }
    }
    assert(text::texts(list@) == reductions(recursive, include_hidden, include_system, n as nat));
    if list.len() == 0 {
        return None;
    }
    let mut out = owned("范围提示：");
    out.append(text::join(&list, "；").as_str());
    out.append("；这些资料不参与本次处理，也不会被改动");
    Some(out)
}

/// The notice that the chosen directory is or lies in that of the program, which is shown
/// as a path.
pub open spec fn own_directory_text(shown: Seq<char>) -> Seq<char> {
    "所选目录位于程序自身目录（"@ + shown
        + "）内；为避免误处理程序文件，扫描会跳过这个目录里的条目"@
}

/// The notice about the program's own directory, where the chosen one is or lies in it.
/// Paths are given by their components.
pub fn own_directory_notice(root: &Vec<String>, own: &Vec<String>, shown: &str) -> (r: Option<
    String,
>)
    ensures
        text::text_option(r) == (if fsutil::is_under(text::texts(own@), text::texts(root@)) {
            Some(own_directory_text(shown@))
        } else {
            None
        }),
{
    if !scope::root_lies_in(root, Some(own)) {
        return None;
    }
    let mut s = owned("所选目录位于程序自身目录（");
    s.append(shown);
    s.append("）内；为避免误处理程序文件，扫描会跳过这个目录里的条目");
    Some(s)
}

/// The notice about the directory for failed archives.
pub open spec fn quarantine_text() -> Seq<char> {
    "已跳过「"@ + QUARANTINE_DIR_NAME@
        + "」子目录：失败暂存区不参与本次处理（补救后把包移出即可重新处理）"@
}

/// The notice about the directory for failed archives, where there is one.
pub fn quarantine_notice() -> (r: String)
    ensures
        r@ == quarantine_text(),
{
    let mut s = owned("已跳过「");
    s.append(QUARANTINE_DIR_NAME);
    s.append("」子目录：失败暂存区不参与本次处理（补救后把包移出即可重新处理）");
    s
}

/// Paths in dictionary order, each once.
pub open spec fn ascending(s: Seq<Seq<char>>) -> bool {
    forall|i: int, j: int|
        0 <= i < j < s.len() ==> text::at_most(#[trigger] s[i], #[trigger] s[j]) && s[i] != s[j]
}

/// The same texts in dictionary order, each once.
pub fn sorted_unique(list: &Vec<String>) -> (r: Vec<String>)
    ensures
        ascending(text::texts(r@)),
        text::texts(r@).to_set() == text::texts(list@).to_set(),
{
    let ghost all = text::texts(list@);
    let ghost le = |i: int, j: int| text::at_most(all[i], all[j]);
    proof {
        assert forall|i: int, j: int|
            0 <= i < all.len() && 0 <= j < all.len() implies #[trigger] le(i, j) || le(j, i) by {
            text::at_most_total(all[i], all[j]);
        }
        assert forall|i: int, j: int, k: int|
            0 <= i < all.len() && 0 <= j < all.len() && 0 <= k < all.len() && #[trigger] le(i, j)
                && #[trigger] le(j, k) implies le(i, k) by {
            text::at_most_chain(all[i], all[j], all[k]);
        }
    }
    let f = |i: usize, j: usize| -> (b: bool)
        requires
            i < list@.len(),
            j < list@.len(),
        ensures
            b == text::at_most(list@[i as int]@, list@[j as int]@),
        { text::not_after(list[i].as_str(), list[j].as_str()) };
    let perm = order::sorting(&f, list.len(), Ghost(le));
    let mut out: Vec<String> = Vec::new();
    let mut i: usize = 0;
    while i < perm.len()
        invariant
            i <= perm@.len(),
            all == text::texts(list@),
            order::is_sorting(le, perm@, list@.len() as int),
            le == (|i: int, j: int| text::at_most(all[i], all[j])),
            ascending(text::texts(out@)),
            i > 0 ==> out@.len() > 0 && out@.last()@ == all[perm@[i - 1] as int],
            i == 0 ==> out@.len() == 0,
            forall|t: Seq<char>| #[trigger]
                text::texts(out@).contains(t) ==> exists|k: int|
                    0 <= k < i && all[(#[trigger] perm@[k]) as int] == t,
            forall|k: int|
                0 <= k < i ==> text::texts(out@).contains(all[(#[trigger] perm@[k]) as int]),
        decreases perm.len() - i,
    {
        assert(perm@.contains(perm@[i as int]));
        let s = list[perm[i]].as_str();
        let fresh: bool = out.len() == 0 || !text::same(out[out.len() - 1].as_str(), s);
        let ghost before = out@;
        let ghost b = text::texts(before);
        if fresh {
            let copy = owned(s);
            out.push(copy);
            proof {
                text::texts_push(before, copy);
                let now = text::texts(out@);
                assert forall|p: int, q: int| 0 <= p < q < now.len() implies text::at_most(
                    #[trigger] now[p],
                    #[trigger] now[q],
                ) && now[p] != now[q] by {
                    if q == b.len() {
                        assert(order::comes_before(le, perm@[i - 1] as int, perm@[i as int] as int));
                        assert(le(perm@[i - 1] as int, perm@[i as int] as int));
                        let last = b[b.len() - 1];
                        assert(text::at_most(last, s@));
                        if p < b.len() - 1 {
                            assert(text::at_most(b[p], b[b.len() - 1]));
                            text::at_most_chain(b[p], last, s@);
                            if b[p] == s@ {
                                text::at_most_total(b[p], last);
                            }
                        }
                    }
                }
            }
        }
        proof {
            let now = text::texts(out@);
            assert forall|t: Seq<char>| #[trigger] now.contains(t) implies exists|k: int|
                0 <= k < i + 1 && all[(#[trigger] perm@[k]) as int] == t by {
                let x = choose|x: int| 0 <= x < now.len() && now[x] == t;
                if x < b.len() {
                    assert(b[x] == t);
                    assert(b.contains(t));
                    let k = choose|k: int| 0 <= k < i && all[(#[trigger] perm@[k]) as int] == t;
                    assert(all[perm@[k] as int] == t);
                } else {
                    assert(all[perm@[i as int] as int] == t);
                }
            }
            assert forall|k: int| 0 <= k < i + 1 implies now.contains(
                all[(#[trigger] perm@[k]) as int],
            ) by {
                if k < i {
                    assert(b.contains(all[perm@[k] as int]));
                    let x = choose|x: int| 0 <= x < b.len() && b[x] == all[perm@[k] as int];
                    assert(now[x] == b[x]);
                } else {
                    assert(now[now.len() - 1] == s@);
                }
            }
        }
        i = i + 1;
    }
    proof {
        let now = text::texts(out@);
        assert forall|t: Seq<char>| now.to_set().contains(t) <==> all.to_set().contains(t) by {
            if now.contains(t) {
                let k = choose|k: int| 0 <= k < perm@.len() && all[(#[trigger] perm@[k]) as int] == t;
                assert(perm@.contains(perm@[k]));
            }
            if all.contains(t) {
                let x = choose|x: int| 0 <= x < all.len() && all[x] == t;
                assert(perm@.contains(x as usize));
                let k = choose|k: int| 0 <= k < perm@.len() && perm@[k] == x as usize;
                assert(now.contains(all[perm@[k] as int]));
            }
        }
        assert(now.to_set() =~= all.to_set());
    }
    out
}

/// The first three of some paths, named in a row.
pub open spec fn first_three(list: Seq<Seq<char>>) -> Seq<char> {
    let shown = if list.len() > 3 {
        list.take(3)
    } else {
        list
    };
    text::join_with(shown, "、"@) + if list.len() > 3 {
        " 等"@
    } else {
        Seq::empty()
    }
}

/// The line of the log about git projects that were passed over.
pub open spec fn git_log_text(list: Seq<Seq<char>>) -> Seq<char> {
    "已跳过 "@ + text::decimal(list.len())
        + " 个 Git 目录及其全部内容（含 .git 的目录整树排除：不读取、不归类、不改名、不删除，不受隐藏/递归/清理开关影响）："@
        + first_three(list)
}

/// The notice in the window about git projects that were passed over.
pub open spec fn git_notice_text(n: nat) -> Seq<char> {
    "已跳过 "@ + text::decimal(n) + " 个 Git 目录树（含全部后代，未读取内容）"@
}

/// The git projects that were passed over, sorted, with the line of the log and the
/// notice about them; neither where there are none.
pub fn git_notes(skips: &Vec<String>) -> (r: (Vec<String>, Option<(String, String)>))
    ensures
        ascending(text::texts(r.0@)),
        text::texts(r.0@).to_set() == text::texts(skips@).to_set(),
        match r.1 {
            None => r.0@.len() == 0,
            Some((line, notice)) => r.0@.len() > 0 && line@ == git_log_text(text::texts(r.0@))
                && notice@ == git_notice_text(r.0@.len()),
        },
{
    let list = sorted_unique(skips);
    if list.len() == 0 {
        return (list, None);
    }
    let mut shown: Vec<String> = Vec::new();
    let n: usize = if list.len() > 3 {
        3
    } else {
        list.len()
    };
    let mut i: usize = 0;
    assert(text::texts(shown@) =~= text::texts(list@).take(0));
    while i < n
        invariant
            i <= n <= list@.len(),
            text::texts(shown@) == text::texts(list@).take(i as int),
        decreases n - i,
    {
        let ghost before = shown@;
        let s = owned(list[i].as_str());
        shown.push(s);
        proof {
            text::texts_push(before, s);
            assert(text::texts(list@).take(i + 1) =~= text::texts(list@).take(i as int).push(s@));
        }
        i = i + 1;
    }
    let mut line = owned("已跳过 ");
    line.append(text::number(list.len() as u64).as_str());
    line.append(
        " 个 Git 目录及其全部内容（含 .git 的目录整树排除：不读取、不归类、不改名、不删除，不受隐藏/递归/清理开关影响）：",
    );
    let mut tail = text::join(&shown, "、");
    if list.len() > 3 {
        tail.append(" 等");
    }
    proof {
        let all = text::texts(list@);
        if list@.len() <= 3 {
            assert(all.take(n as int) =~= all);
            assert(tail@ =~= first_three(all));
        }
    }
    line.append(tail.as_str());
    let mut notice = owned("已跳过 ");
    notice.append(text::number(list.len() as u64).as_str());
    notice.append(" 个 Git 目录树（含全部后代，未读取内容）");
    (list, Some((line, notice)))
}

/// Something that a scan found: a directory, or a file with its size.
#[derive(Debug)]
pub struct ScanChild {
    pub parent: String,
    pub name: String,
    pub is_dir: bool,
    pub size: u64,
}

/// The path of a found entry.
pub open spec fn rel_of(c: ScanChild) -> Seq<char> {
    fsutil::below(c.parent@, c.name@)
}

/// The entries of a directory among the first `k`, in the order found.
pub open spec fn kids(all: Seq<ScanChild>, parent: Seq<char>, k: int) -> Seq<usize>
    decreases k,
{
    if k <= 0 {
        Seq::empty()
    } else if all[k - 1].parent@ == parent {
        kids(all, parent, k - 1).push((k - 1) as usize)
    } else {
        kids(all, parent, k - 1)
    }
}

/// The entries of a directory, each with its depth and a directory's own entries right
/// behind it: the first `j` of them, to a depth of `limit` directories.
pub open spec fn emitted(
    all: Seq<ScanChild>,
    parent: Seq<char>,
    depth: usize,
    limit: nat,
    j: int,
) -> Seq<(usize, usize)>
    decreases limit, j,
{
    let list = kids(all, parent, all.len() as int);
    if j <= 0 || limit == 0 {
        Seq::empty()
    } else {
        let c = list[j - 1];
        let own = emitted(all, parent, depth, limit, j - 1).push((c, depth));
        if all[c as int].is_dir {
            let inner = rel_of(all[c as int]);
            own + emitted(
                all,
                inner,
                (depth + 1) as usize,
                (limit - 1) as nat,
                kids(all, inner, all.len() as int).len() as int,
            )
        } else {
            own
        }
    }
}

/// Everything that is found below a directory, in the order in which it is recorded.
pub open spec fn emission(all: Seq<ScanChild>, parent: Seq<char>, depth: usize, limit: nat) -> Seq<
    (usize, usize),
> {
    emitted(all, parent, depth, limit, kids(all, parent, all.len() as int).len() as int)
}

/// Found entries by the directory that they are in.
pub struct ByParent {
    map: StringHashMap<usize>,
    lists: Vec<Vec<usize>>,
}

impl ByParent {
    /// The lists are those of the first `k` entries.
    pub closed spec fn holds(&self, all: Seq<ScanChild>, k: int) -> bool {
        &&& forall|p: Seq<char>| #[trigger]
            self.map@.contains_key(p) ==> self.map@[p] < self.lists@.len()
                && self.lists@[self.map@[p] as int]@ == kids(all, p, k)
        &&& forall|p: Seq<char>| !#[trigger] self.map@.contains_key(p) ==> kids(all, p, k).len() == 0
        &&& forall|p: Seq<char>, q: Seq<char>|
            #[trigger] self.map@.contains_key(p) && #[trigger] self.map@.contains_key(q) && p != q
                ==> self.map@[p] != self.map@[q]
    }

    /// Sorts entries by the directory that they are in.
    pub fn group(all: &Vec<ScanChild>) -> (r: ByParent)
        ensures
            r.holds(all@, all@.len() as int),
    {
        let mut by = ByParent { map: StringHashMap::new(), lists: Vec::new() };
        let mut i: usize = 0;
        while i < all.len()
            invariant
                i <= all@.len(),
                by.holds(all@, i as int),
            decreases all.len() - i,
        {
            let parent = all[i].parent.as_str();
            let ghost known = by.map@;
            let ghost lists = by.lists@;
            let slot: usize = match by.map.get(parent) {
                Some(k) => *k,
                None => by.lists.len(),
            };
            if slot == by.lists.len() {
                by.lists.push(Vec::new());
                by.map.insert(owned(parent), slot);
            }
            let ghost middle = by.lists@;
            assert(middle[slot as int]@ =~= kids(all@, parent@, i as int));
            by.lists[slot].push(i);
            proof {
                assert forall|p: Seq<char>| #[trigger] by.map@.contains_key(p) implies by.map@[p]
                    < by.lists@.len() && by.lists@[by.map@[p] as int]@ == kids(all@, p, i + 1) by {
                    if p != parent@ {
                        assert(known.contains_key(p));
                        assert(by.map@[p] == known[p]);
                        assert(by.map@[p] != slot);
                        assert(by.lists@[by.map@[p] as int] == lists[known[p] as int]);
                    }
                }
                assert forall|p: Seq<char>| !#[trigger] by.map@.contains_key(p) implies kids(
                    all@,
                    p,
                    i + 1,
                ).len() == 0 by {
                    assert(!known.contains_key(p));
                    assert(p != parent@);
                }
                assert forall|p: Seq<char>, q: Seq<char>|
                    #[trigger] by.map@.contains_key(p) && #[trigger] by.map@.contains_key(q) && p
                        != q implies by.map@[p] != by.map@[q] by {
                    if p != parent@ {
                        assert(known.contains_key(p));
                    }
                    if q != parent@ {
                        assert(known.contains_key(q));
                    }
                }
            }
            i = i + 1;
        }
        by
    }

    /// Puts what is found below a directory behind the output, in the order in which it
    /// is recorded.
    pub fn scan_emit(
        &self,
        all: &Vec<ScanChild>,
        parent: &str,
        depth: usize,
        limit: usize,
        out: &mut Vec<(usize, usize)>,
    )
        requires
            self.holds(all@, all@.len() as int),
            depth + limit <= usize::MAX,
        ensures
            final(out)@ == old(out)@ + emission(all@, parent@, depth, limit as nat),
        decreases limit,
    {
        let ghost start = out@;
        let ghost list_view = kids(all@, parent@, all@.len() as int);
        if limit == 0 {
            assert(start + emission(all@, parent@, depth, 0) =~= start);
            return;
        }
        match self.map.get(parent) {
            None => {
                assert(start + emission(all@, parent@, depth, limit as nat) =~= start);
            },
            Some(slot) => {
                let list = &self.lists[*slot];
                let mut j: usize = 0;
                let n: usize = all.len();
                assert(start + emitted(all@, parent@, depth, limit as nat, 0) =~= start);
                proof {
                    assert(n <= usize::MAX);
                    kids_in(all@, parent@, all@.len() as int);
                }
                while j < list.len()
                    invariant
                        j <= list@.len(),
                        limit > 0,
                        depth + limit <= usize::MAX,
                        self.holds(all@, all@.len() as int),
                        list@ == list_view,
                        list_view == kids(all@, parent@, all@.len() as int),
                        forall|t: int| 0 <= t < list_view.len() ==> #[trigger] list_view[t] < all@.len(),
                        out@ == start + emitted(all@, parent@, depth, limit as nat, j as int),
                    decreases list.len() - j,
                {
                    let c: usize = list[j];
                    assert(list_view[j as int] < all@.len());
                    let ghost before = out@;
                    out.push((c, depth));
                    let child = &all[c];
                    if child.is_dir {
                        let inner = fsutil::join_below(
                            child.parent.as_str(),
                            child.name.as_str(),
                        );
                        self.scan_emit(all, inner.as_str(), depth + 1, limit - 1, out);
                    }
                    proof {
                        let own = emitted(all@, parent@, depth, limit as nat, j as int);
                        assert(before.push((c, depth)) =~= start + own.push((c, depth)));
                        assert(out@ =~= start + emitted(
                            all@,
                            parent@,
                            depth,
                            limit as nat,
                            j + 1,
                        ));
                    }
                    j = j + 1;
                }
            },
        }
    }
}

/// The entries of a directory are entries, and in it.
pub proof fn kids_in(all: Seq<ScanChild>, parent: Seq<char>, k: int)
    requires
        0 <= k <= all.len(),
        k <= usize::MAX,
    ensures
        forall|t: int|
            0 <= t < kids(all, parent, k).len() ==> (#[trigger] kids(all, parent, k)[t]) < k
                && all[kids(all, parent, k)[t] as int].parent@ == parent,
    decreases k,
{
    if k > 0 {
        kids_in(all, parent, k - 1);
        let before = kids(all, parent, k - 1);
        let list = kids(all, parent, k);
        assert forall|t: int| 0 <= t < list.len() implies (#[trigger] list[t]) < k
            && all[list[t] as int].parent@ == parent by {
            if t < before.len() {
                assert(list[t] == before[t]);
            }
        }
    }
}

/// Before an entry stands the directory that it is in, unless that is the one the
/// recording started with.
pub open spec fn has_parent_before(
    all: Seq<ScanChild>,
    parent: Seq<char>,
    s: Seq<(usize, usize)>,
    p: int,
) -> bool {
    all[s[p].0 as int].parent@ == parent || exists|q: int|
        0 <= q < p && all[(#[trigger] s[q]).0 as int].is_dir && rel_of(all[s[q].0 as int])
            == all[s[p].0 as int].parent@
}

/// A directory is recorded before everything that is in it.
pub proof fn law_directories_come_first(
    all: Seq<ScanChild>,
    parent: Seq<char>,
    depth: usize,
    limit: nat,
    j: int,
)
    requires
        all.len() <= usize::MAX,
        0 <= j <= kids(all, parent, all.len() as int).len(),
    ensures
        forall|p: int|
            0 <= p < emitted(all, parent, depth, limit, j).len() ==> has_parent_before(
                all,
                parent,
                #[trigger] emitted(all, parent, depth, limit, j),
                p,
            ),
    decreases limit, j,
{
    if j > 0 && limit > 0 {
        law_directories_come_first(all, parent, depth, limit, j - 1);
        kids_in(all, parent, all.len() as int);
        let c = kids(all, parent, all.len() as int)[j - 1];
        let before = emitted(all, parent, depth, limit, j - 1);
        let own = before.push((c, depth));
        let whole = emitted(all, parent, depth, limit, j);
        let inner = rel_of(all[c as int]);
        let d = (depth + 1) as usize;
        let n = kids(all, inner, all.len() as int).len() as int;
        let rest = if all[c as int].is_dir {
            emitted(all, inner, d, (limit - 1) as nat, n)
        } else {
            Seq::empty()
        };
        if all[c as int].is_dir {
            law_directories_come_first(all, inner, d, (limit - 1) as nat, n);
        }
        assert(whole =~= own + rest);
        assert forall|p: int| 0 <= p < whole.len() implies has_parent_before(
            all,
            parent,
            whole,
            p,
        ) by {
            if p < before.len() {
                assert(has_parent_before(all, parent, before, p));
                assert(whole[p] == before[p]);
                if all[before[p].0 as int].parent@ != parent {
                    let q = choose|q: int|
                        0 <= q < p && all[(#[trigger] before[q]).0 as int].is_dir && rel_of(
                            all[before[q].0 as int],
                        ) == all[before[p].0 as int].parent@;
                    assert(whole[q] == before[q]);
                }
            } else if p == before.len() {
                assert(whole[p] == (c, depth));
            } else {
                let t = p - own.len();
                assert(whole[p] == rest[t]);
                assert(has_parent_before(all, inner, rest, t));
                if all[rest[t].0 as int].parent@ == inner {
                    assert(whole[before.len() as int] == (c, depth));
                } else {
                    let q = choose|q: int|
                        0 <= q < t && all[(#[trigger] rest[q]).0 as int].is_dir && rel_of(
                            all[rest[q].0 as int],
                        ) == all[rest[t].0 as int].parent@;
                    assert(whole[own.len() + q] == rest[q]);
                }
            }
        }
    }
}

/// The way from a directory down to an entry: each step is an entry of the directory
/// before it.
pub open spec fn is_way(all: Seq<ScanChild>, parent: Seq<char>, way: Seq<usize>) -> bool {
    &&& way.len() > 0
    &&& forall|i: int| 0 <= i < way.len() ==> (#[trigger] way[i]) < all.len()
    &&& all[way[0] as int].parent@ == parent
    &&& forall|i: int|
        0 <= i < way.len() - 1 ==> all[(#[trigger] way[i]) as int].is_dir && rel_of(
            all[way[i] as int],
        ) == all[way[i + 1] as int].parent@
}

/// An entry of a directory stands among its entries.
proof fn kid_at(all: Seq<ScanChild>, parent: Seq<char>, c: usize, k: int) -> (t: int)
    requires
        0 <= c < k <= all.len(),
        k <= usize::MAX,
        all[c as int].parent@ == parent,
    ensures
        0 <= t < kids(all, parent, k).len(),
        kids(all, parent, k)[t] == c,
    decreases k,
{
    if c == k - 1 {
        kids(all, parent, k - 1).len() as int
    } else {
        kid_at(all, parent, c, k - 1)
    }
}

/// What the first entries bring is there once there are more of them.
proof fn emitted_more(
    all: Seq<ScanChild>,
    parent: Seq<char>,
    depth: usize,
    limit: nat,
    j: int,
    n: int,
    x: (usize, usize),
)
    requires
        0 <= j <= n,
        emitted(all, parent, depth, limit, j).contains(x),
    ensures
        emitted(all, parent, depth, limit, n).contains(x),
    decreases n - j,
{
    if j < n && limit > 0 {
        emitted_more(all, parent, depth, limit, j, n - 1, x);
        let before = emitted(all, parent, depth, limit, n - 1);
        let after = emitted(all, parent, depth, limit, n);
        let p = choose|p: int| 0 <= p < before.len() && before[p] == x;
        assert(after[p] == x);
    }
}

/// Nothing is lost: every entry that the directories lead to is recorded, with its
/// depth, as far down as the limit goes.
pub proof fn law_every_way_is_recorded(
    all: Seq<ScanChild>,
    parent: Seq<char>,
    depth: usize,
    limit: nat,
    way: Seq<usize>,
)
    requires
        all.len() <= usize::MAX,
        is_way(all, parent, way),
        way.len() <= limit,
        depth + limit <= usize::MAX,
    ensures
        emission(all, parent, depth, limit).contains(
            (way.last(), (depth + way.len() - 1) as usize),
        ),
    decreases way.len(),
{
    let list = kids(all, parent, all.len() as int);
    let c = way[0];
    let t = kid_at(all, parent, c, all.len() as int);
    let x = (way.last(), (depth + way.len() - 1) as usize);
    let own = emitted(all, parent, depth, limit, t).push((c, depth));
    let after = emitted(all, parent, depth, limit, t + 1);
    if way.len() == 1 {
        assert(after[own.len() - 1] == x);
    } else {
        let rest = way.skip(1);
        let inner = rel_of(all[c as int]);
        assert(all[way[0] as int].is_dir);
        assert forall|i: int| 0 <= i < rest.len() implies (#[trigger] rest[i]) < all.len() by {
            assert(rest[i] == way[i + 1]);
        }
        assert forall|i: int| 0 <= i < rest.len() - 1 implies all[(
        #[trigger] rest[i]) as int].is_dir && rel_of(all[rest[i] as int]) == all[rest[i
            + 1] as int].parent@ by {
            assert(rest[i] == way[i + 1] && rest[i + 1] == way[i + 2]);
        }
        law_every_way_is_recorded(all, inner, (depth + 1) as usize, (limit - 1) as nat, rest);
        let below = emission(all, inner, (depth + 1) as usize, (limit - 1) as nat);
        assert(rest.last() == way.last());
        let p = choose|p: int| 0 <= p < below.len() && below[p] == x;
        assert(after == own + below);
        assert(after[own.len() + p] == x);
    }
    assert(after.contains(x));
    emitted_more(all, parent, depth, limit, t + 1, list.len() as int, x);
}

/// After so many rows the rows are written to disk.
pub const ROWS_PER_COMMIT: u64 = 2048;

/// Whether the rows are written to disk after the `count`-th one.
pub fn commits_after(count: u64) -> (r: bool)
    ensures
        r == (count % 2048 == 0),
{
    count % ROWS_PER_COMMIT == 0
}

/// How many of the first `k` recorded rows are files.
pub open spec fn files_among(all: Seq<ScanChild>, rows: Seq<(usize, usize)>, k: int) -> nat
    decreases k,
{
    if k <= 0 {
        0
    } else if all[rows[k - 1].0 as int].is_dir {
        files_among(all, rows, k - 1)
    } else {
        files_among(all, rows, k - 1) + 1
    }
}

/// The bytes of the files among the first `k` recorded rows.
pub open spec fn bytes_among(all: Seq<ScanChild>, rows: Seq<(usize, usize)>, k: int) -> nat
    decreases k,
{
    if k <= 0 {
        0
    } else if all[rows[k - 1].0 as int].is_dir {
        bytes_among(all, rows, k - 1)
    } else {
        bytes_among(all, rows, k - 1) + all[rows[k - 1].0 as int].size as nat
    }
}

/// The counts of a scan that recorded some rows: the files among them, and their bytes, or
/// the largest number where they are more.
pub open spec fn counted(s: Summary, all: Seq<ScanChild>, rows: Seq<(usize, usize)>) -> Summary {
    let n = rows.len() as int;
    Summary {
        scanned: files_among(all, rows, n) as u64,
        scanned_bytes: if bytes_among(all, rows, n) > u64::MAX {
            u64::MAX
        } else {
            bytes_among(all, rows, n) as u64
        },
        ..s
    }
}

proof fn files_fit(all: Seq<ScanChild>, rows: Seq<(usize, usize)>, k: int)
    requires
        0 <= k,
    ensures
        files_among(all, rows, k) <= k,
    decreases k,
{
    if k > 0 {
        files_fit(all, rows, k - 1);
    }
}

/// The counts of a scan, by the rows that it recorded.
pub fn scan_totals(s: &Summary, all: &Vec<ScanChild>, rows: &Vec<(usize, usize)>) -> (r: Summary)
    requires
        forall|i: int| 0 <= i < rows@.len() ==> (#[trigger] rows@[i]).0 < all@.len(),
    ensures
        r == counted(*s, all@, rows@),
        r.scanned == files_among(all@, rows@, rows@.len() as int),
{
    let mut r = Summary { scanned: 0, scanned_bytes: 0, ..*s };
    let mut i: usize = 0;
    while i < rows.len()
        invariant
            i <= rows@.len(),
            forall|k: int| 0 <= k < rows@.len() ==> (#[trigger] rows@[k]).0 < all@.len(),
            r == (Summary { scanned: r.scanned, scanned_bytes: r.scanned_bytes, ..*s }),
            r.scanned == files_among(all@, rows@, i as int),
            r.scanned <= i,
            r.scanned_bytes == (if bytes_among(all@, rows@, i as int) > u64::MAX {
                u64::MAX as nat
            } else {
                bytes_among(all@, rows@, i as int)
            }),
        decreases rows.len() - i,
    {
        let at: usize = rows[i].0;
        assert(rows@[i as int].0 < all@.len());
        if !all[at].is_dir {
            r.scanned = r.scanned + 1;
            r.scanned_bytes = r.scanned_bytes.saturating_add(all[at].size);
        }
        i = i + 1;
    }
    r
}

/// What is recorded was found.
proof fn emitted_in(all: Seq<ScanChild>, parent: Seq<char>, depth: usize, limit: nat, j: int)
    requires
        all.len() <= usize::MAX,
        0 <= j <= kids(all, parent, all.len() as int).len(),
    ensures
        forall|p: int|
            0 <= p < emitted(all, parent, depth, limit, j).len() ==> (#[trigger] emitted(
                all,
                parent,
                depth,
                limit,
                j,
            )[p]).0 < all.len(),
    decreases limit, j,
{
    if j > 0 && limit > 0 {
        emitted_in(all, parent, depth, limit, j - 1);
        kids_in(all, parent, all.len() as int);
        let c = kids(all, parent, all.len() as int)[j - 1];
        let before = emitted(all, parent, depth, limit, j - 1);
        let own = before.push((c, depth));
        let whole = emitted(all, parent, depth, limit, j);
        let inner = rel_of(all[c as int]);
        let d = (depth + 1) as usize;
        let n = kids(all, inner, all.len() as int).len() as int;
        if all[c as int].is_dir {
            emitted_in(all, inner, d, (limit - 1) as nat, n);
        }
        assert forall|p: int| 0 <= p < whole.len() implies (#[trigger] whole[p]).0 < all.len() by {
            if p < before.len() {
                assert(whole[p] == before[p]);
            } else if p == before.len() {
                assert(whole[p] == (c, depth));
            } else {
                assert(whole[p] == emitted(all, inner, d, (limit - 1) as nat, n)[p - own.len()]);
            }
        }
    }
}

/// The counts of a scan speak of the rows that it records, all of which were found: as many
/// files as are recorded, and their bytes.
pub proof fn law_totals_are_those_of_the_rows(
    s: Summary,
    all: Seq<ScanChild>,
    depth: usize,
    limit: nat,
)
    requires
        all.len() <= usize::MAX,
        emission(all, Seq::empty(), depth, limit).len() <= u64::MAX,
    ensures
        ({
            let rows = emission(all, Seq::empty(), depth, limit);
            let n = rows.len() as int;
            &&& forall|p: int| 0 <= p < n ==> (#[trigger] rows[p]).0 < all.len()
            &&& counted(s, all, rows).scanned == files_among(all, rows, n)
            &&& bytes_among(all, rows, n) <= u64::MAX ==> counted(s, all, rows).scanned_bytes
                == bytes_among(all, rows, n)
            &&& bytes_among(all, rows, n) > u64::MAX ==> counted(s, all, rows).scanned_bytes
                == u64::MAX
        }),
{
    let rows = emission(all, Seq::empty(), depth, limit);
    emitted_in(
        all,
        Seq::empty(),
        depth,
        limit,
        kids(all, Seq::empty(), all.len() as int).len() as int,
    );
    files_fit(all, rows, rows.len() as int);
}

/// A notice about the scope is given exactly where something is left out, and it names what
/// is left out and nothing else.
pub proof fn law_the_scope_is_told(recursive: bool, hidden: bool, system: bool, n: nat)
    ensures
        scope_notice(recursive, hidden, system, n) is None <==> recursive && hidden && system && n
            == 0,
        reductions(recursive, hidden, system, n).contains(
            "递归已关闭（只处理所选目录的第一层）"@,
        ) || recursive,
        reductions(recursive, hidden, system, n).contains("未包含隐藏属性资料"@) || hidden,
        reductions(recursive, hidden, system, n).contains("未包含系统属性资料"@) || system,
        reductions(recursive, hidden, system, n).contains(
            "排除规则生效（"@ + text::decimal(n) + " 条）"@,
        ) || n == 0,
        reductions(recursive, hidden, system, n).len() == (if recursive {
            0int
        } else {
            1
        }) + (if hidden {
            0int
        } else {
            1
        }) + (if system {
            0int
        } else {
            1
        }) + (if n == 0 {
            0int
        } else {
            1
        }),
{
    let r = reductions(recursive, hidden, system, n);
    let x = "递归已关闭（只处理所选目录的第一层）"@;
    let a: Seq<Seq<char>> = if recursive {
        Seq::empty()
    } else {
        seq![x]
    };
    let b = if hidden {
        a
    } else {
        a.push("未包含隐藏属性资料"@)
    };
    let c = if system {
        b
    } else {
        b.push("未包含系统属性资料"@)
    };
    if !recursive {
        assert(r[0] == x);
    }
    if !hidden {
        assert(r[a.len() as int] == "未包含隐藏属性资料"@);
    }
    if !system {
        assert(r[b.len() as int] == "未包含系统属性资料"@);
    }
    if n != 0 {
        assert(r[c.len() as int] == "排除规则生效（"@ + text::decimal(n) + " 条）"@);
    }
}

/// Up to three paths are all named; of more only the first three, and that there are more.
pub proof fn law_three_paths_are_named(a: Seq<char>, b: Seq<char>, c: Seq<char>, more: Seq<Seq<char>>)
    ensures
        first_three(seq![a]) == text::join_with(seq![a], "、"@),
        first_three(seq![a, b, c]) == text::join_with(seq![a, b, c], "、"@),
        more.len() > 0 ==> first_three(seq![a, b, c] + more) == text::join_with(
            seq![a, b, c],
            "、"@,
        ) + " 等"@,
{
    let list = seq![a, b, c] + more;
    assert(list.take(3) =~= seq![a, b, c]);
    assert(text::join_with(seq![a], "、"@) + Seq::<char>::empty() =~= text::join_with(
        seq![a],
        "、"@,
    ));
    assert(text::join_with(seq![a, b, c], "、"@) + Seq::<char>::empty() =~= text::join_with(
        seq![a, b, c],
        "、"@,
    ));
}

/// Each entry of a directory is recorded once, and behind it what is in it, where it is a
/// directory.
pub proof fn law_entries_are_recorded_once(
    all: Seq<ScanChild>,
    parent: Seq<char>,
    depth: usize,
    limit: nat,
    j: int,
)
    requires
        0 < limit,
        0 <= j < kids(all, parent, all.len() as int).len(),
    ensures
        ({
            let c = kids(all, parent, all.len() as int)[j];
            let before = emitted(all, parent, depth, limit, j);
            let now = emitted(all, parent, depth, limit, j + 1);
            &&& now.len() > before.len()
            &&& now.take(before.len() as int) == before
            &&& now[before.len() as int] == (c, depth)
            &&& !all[c as int].is_dir ==> now.len() == before.len() + 1
            &&& all[c as int].is_dir ==> now.skip(before.len() as int + 1) == emission(
                all,
                fsutil::below(all[c as int].parent@, all[c as int].name@),
                (depth + 1) as usize,
                (limit - 1) as nat,
            )
        }),
{
    let c = kids(all, parent, all.len() as int)[j];
    let before = emitted(all, parent, depth, limit, j);
    let now = emitted(all, parent, depth, limit, j + 1);
    assert(now.take(before.len() as int) =~= before);
    if all[c as int].is_dir {
        assert(now.skip(before.len() as int + 1) =~= emission(
            all,
            rel_of(all[c as int]),
            (depth + 1) as usize,
            (limit - 1) as nat,
        ));
    }
}

/// Files are counted and their bytes added up; directories count for nothing.
pub proof fn law_files_are_counted(
    all: Seq<ScanChild>,
    rows: Seq<(usize, usize)>,
    row: (usize, usize),
    k: int,
)
    requires
        0 <= k == rows.len(),
    ensures
        files_among(all, rows.push(row), k + 1) == files_among(all, rows, k)
            + if all[row.0 as int].is_dir {
            0nat
        } else {
            1
        },
        bytes_among(all, rows.push(row), k + 1) == bytes_among(all, rows, k)
            + if all[row.0 as int].is_dir {
            0nat
        } else {
            all[row.0 as int].size as nat
        },
        files_among(all, rows, 0) == 0,
        bytes_among(all, rows, 0) == 0,
{
    rows_before_count(all, rows, rows.push(row), k);
}

proof fn rows_before_count(
    all: Seq<ScanChild>,
    a: Seq<(usize, usize)>,
    b: Seq<(usize, usize)>,
    k: int,
)
    requires
        k <= a.len(),
        k <= b.len(),
        forall|i: int| 0 <= i < k ==> #[trigger] a[i] == b[i],
    ensures
        files_among(all, a, k) == files_among(all, b, k),
        bytes_among(all, a, k) == bytes_among(all, b, k),
    decreases k,
{
    if k > 0 {
        rows_before_count(all, a, b, k - 1);
        assert(a[k - 1] == b[k - 1]);
    }
}

} // verus!

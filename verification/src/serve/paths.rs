//! Paths that a request may name.
//!
//! A request names a file relative to the workspace. A resolved path is the list of the
//! names from the workspace root down; it cannot leave the root, and no link on the way may
//! lead out of it.

use vstd::prelude::*;
use vstd::string::*;

use crate::percent::{decoded_strict, percent_decode_strict};
use crate::serve::files::{FilesError, FilesErrorView};
use crate::text::{
    chars_of, has_char, joined, lemma_split_joined, same, split, split_on, texts,
};

verus! {

/// Names from the workspace root down.
pub type RelPath = Vec<String>;

/// A letter and a colon in front, as in the path of a drive.
pub open spec fn drive_prefix(s: Seq<char>) -> bool {
    s.len() >= 2 && ('a' <= s[0] <= 'z' || 'A' <= s[0] <= 'Z') && s[1] == ':'
}

/// Whether a path begins with a drive.
pub fn has_drive_prefix(path: &str) -> (r: bool)
    ensures
        r == drive_prefix(path@),
{
    let v = chars_of(path);
    v.len() >= 2 && (('a' <= v[0] && v[0] <= 'z') || ('A' <= v[0] && v[0] <= 'Z')) && v[1] == ':'
}

/// A path that no request may name: empty, absolute, with a drive, a NUL or a backslash.
pub open spec fn bad_path(s: Seq<char>) -> bool {
    ||| s.len() == 0
    ||| s.contains('\0')
    ||| s.contains('\\')
    ||| s[0] == '/'
    ||| drive_prefix(s)
}

/// Whether no request may name a path.
pub fn is_bad_path(path: &str) -> (r: bool)
    ensures
        r == bad_path(path@),
{
    if path.is_empty() || has_char(path, '\0') || has_char(path, '\\') || has_drive_prefix(path) {
        return true;
    }
    path.get_char(0) == '/'
}

/// The names in a path, without empty ones and without `.`.
pub open spec fn names_in(parts: Seq<Seq<char>>) -> Seq<Seq<char>>
    decreases parts.len(),
{
    if parts.len() == 0 {
        Seq::empty()
    } else {
        let rest = names_in(parts.drop_last());
        if parts.last().len() == 0 || parts.last() == "."@ {
            rest
        } else {
            rest.push(parts.last())
        }
    }
}

/// The names in a path that has slashes between them.
pub open spec fn path_names(s: Seq<char>) -> Seq<Seq<char>> {
    names_in(split(s, '/'))
}

/// Where names lead from the root: `..` goes back one name, and nowhere above the root.
pub open spec fn walked(names: Seq<Seq<char>>) -> Option<Seq<Seq<char>>>
    decreases names.len(),
{
    if names.len() == 0 {
        Some(Seq::empty())
    } else {
        match walked(names.drop_last()) {
            None => None,
            Some(at) => if names.last() == ".."@ {
                if at.len() == 0 {
                    None
                } else {
                    Some(at.drop_last())
                }
            } else {
                Some(at.push(names.last()))
            },
        }
    }
}

/// Where a path leads, or why no request may name it.
pub open spec fn resolved(s: Seq<char>) -> Result<Seq<Seq<char>>, FilesErrorView> {
    if bad_path(s) {
        Err(FilesErrorView::InvalidPath)
    } else {
        match walked(path_names(s)) {
            Some(at) => Ok(at),
            None => Err(FilesErrorView::Traversal),
        }
    }
}

/// The names in a path.
pub fn names_of(path: &str) -> (r: Vec<String>)
    ensures
        texts(r@) == path_names(path@),
{
    let parts = split_on(path, '/');
    let ghost all = texts(parts@);
    let mut r: Vec<String> = Vec::new();
    let mut i: usize = 0;
    while i < parts.len()
        invariant
            i <= parts@.len(),
            all == texts(parts@),
            texts(r@) == names_in(all.take(i as int)),
        decreases parts@.len() - i,
    {
        let ghost before = texts(r@);
        proof {
            assert(all.take(i + 1).drop_last() =~= all.take(i as int));
            assert(all.take(i + 1).last() == parts@[i as int]@);
        }
        let part = parts[i].as_str();
        if !(part.is_empty() || same(part, ".")) {
            r.push(parts[i].clone());
            proof {
                assert(texts(r@) =~= before.push(parts@[i as int]@));
            }
        }
        i = i + 1;
    }
    proof {
        assert(all.take(i as int) =~= all);
    }
    r
}

/// Where a path leads from the root. Links are not looked at: see [`confine`].
pub fn resolve_decoded(requested: &str) -> (r: Result<RelPath, FilesError>)
    ensures
        match r {
            Ok(at) => resolved(requested@) == Ok::<_, FilesErrorView>(texts(at@)),
            Err(e) => resolved(requested@) == Err::<Seq<Seq<char>>, _>(e.view()),
        },
{
    if is_bad_path(requested) {
        return Err(FilesError::InvalidPath);
    }
    let names = names_of(requested);
    let ghost all = texts(names@);
    let mut at: Vec<String> = Vec::new();
    let mut i: usize = 0;
    proof {
        assert(texts(at@) =~= Seq::<Seq<char>>::empty());
    }
    while i < names.len()
        invariant
            i <= names@.len(),
            all == texts(names@),
            all == path_names(requested@),
            !bad_path(requested@),
            walked(all.take(i as int)) == Some(texts(at@)),
        decreases names@.len() - i,
    {
        let ghost before = texts(at@);
        proof {
            assert(all.take(i + 1).drop_last() =~= all.take(i as int));
            assert(all.take(i + 1).last() == names@[i as int]@);
        }
        if same(names[i].as_str(), "..") {
            if at.len() == 0 {
                proof {
                    lemma_walk_fails(all, i + 1);
                }
                return Err(FilesError::Traversal);
            }
            let _ = at.pop();
            proof {
                assert(texts(at@) =~= before.drop_last());
            }
        } else {
            at.push(names[i].clone());
            proof {
                assert(texts(at@) =~= before.push(names@[i as int]@));
            }
        }
        i = i + 1;
    }
    proof {
        assert(all.take(i as int) =~= all);
    }
    Ok(at)
}

proof fn lemma_walk_fails(names: Seq<Seq<char>>, k: int)
    requires
        0 <= k <= names.len(),
        walked(names.take(k)) is None,
    ensures
        walked(names) is None,
    decreases names.len(),
{
    if k < names.len() {
        assert(names.drop_last().take(k) =~= names.take(k));
        lemma_walk_fails(names.drop_last(), k);
    } else {
        assert(names.take(k) =~= names);
    }
}

/// Where a percent-encoded path leads from the root.
pub fn resolve_under_root(requested: &str) -> (r: Result<RelPath, FilesError>)
    ensures
        match decoded_strict(requested@) {
            None => r matches Err(e) && e.view() == FilesErrorView::InvalidPath,
            Some(path) => match r {
                Ok(at) => resolved(path) == Ok::<_, FilesErrorView>(texts(at@)),
                Err(e) => resolved(path) == Err::<Seq<Seq<char>>, _>(e.view()),
            },
        },
{
    match percent_decode_strict(requested) {
        Some(path) => resolve_decoded(path.as_str()),
        None => Err(FilesError::InvalidPath),
    }
}

/// The names of an absolute path of the file system, without links.
pub type RealPath = Vec<Vec<u8>>;

/// The names of a real path, on the level of specifications.
pub open spec fn real_names(path: Seq<Vec<u8>>) -> Seq<Seq<u8>> {
    path.map_values(|name: Vec<u8>| name@)
}

/// What looking up the real path of an ancestor gave.
pub enum AncestorProbe {
    /// The real path.
    Real(RealPath),
    /// There is no such file.
    NotFound,
    /// A name on the way is no directory.
    NotADirectory,
    /// A directory on the way may not be entered.
    PermissionDenied,
    /// Anything else.
    Failed(String),
}

/// Whether a real path is the root or below it.
pub open spec fn is_below(path: Seq<Seq<u8>>, root: Seq<Seq<u8>>) -> bool {
    root.is_prefix_of(path)
}

/// What the lookups of a path and then of its ancestors say: the first that exists must be
/// below the root.
pub open spec fn confined(root: Seq<Seq<u8>>, probes: Seq<AncestorProbe>) -> Result<
    (),
    FilesErrorView,
>
    decreases probes.len(),
{
    if probes.len() == 0 {
        Err(FilesErrorView::Traversal)
    } else {
        match probes[0] {
            AncestorProbe::Real(path) => if is_below(real_names(path@), root) {
                Ok(())
            } else {
                Err(FilesErrorView::Traversal)
            },
            AncestorProbe::NotFound => confined(root, probes.skip(1)),
            AncestorProbe::NotADirectory => Err(FilesErrorView::InvalidPath),
            AncestorProbe::PermissionDenied => Err(FilesErrorView::NotFound),
            AncestorProbe::Failed(error) => Err(FilesErrorView::Io(error@)),
        }
    }
}

/// Whether two names are the same.
fn same_name(a: &Vec<u8>, b: &Vec<u8>) -> (r: bool)
    ensures
        r == (a@ == b@),
{
    if a.len() != b.len() {
        return false;
    }
    let mut i: usize = 0;
    while i < a.len()
        invariant
            i <= a@.len(),
            a@.len() == b@.len(),
            forall|j: int| 0 <= j < i ==> a@[j] == b@[j],
        decreases a@.len() - i,
    {
        if a[i] != b[i] {
            return false;
        }
        i = i + 1;
    }
    proof {
        assert(a@ =~= b@);
    }
    true
}

/// Whether a real path is the root or below it.
pub fn below_root(path: &RealPath, root: &RealPath) -> (r: bool)
    ensures
        r == is_below(real_names(path@), real_names(root@)),
{
    let ghost p = real_names(path@);
    let ghost q = real_names(root@);
    if root.len() > path.len() {
        return false;
    }
    let mut i: usize = 0;
    while i < root.len()
        invariant
            i <= root@.len() <= path@.len(),
            p == real_names(path@),
            q == real_names(root@),
            forall|j: int| 0 <= j < i ==> p[j] == q[j],
        decreases root@.len() - i,
    {
        if !same_name(&path[i], &root[i]) {
            proof {
                assert(p[i as int] != q[i as int]);
                assert(p.subrange(0, q.len() as int)[i as int] == p[i as int]);
            }
            return false;
        }
        i = i + 1;
    }
    proof {
        assert(p.subrange(0, q.len() as int) =~= q);
    }
    true
}

/// Decides whether a path stays below the root once links are followed, from the lookups of
/// the path and then of its ancestors, the deepest first.
pub fn confine(root: &RealPath, probes: Vec<AncestorProbe>) -> (r: Result<(), FilesError>)
    ensures
        match r {
            Ok(()) => confined(real_names(root@), probes@) == Ok::<(), FilesErrorView>(()),
            Err(e) => confined(real_names(root@), probes@) == Err::<(), _>(e.view()),
        },
{
    let mut i: usize = 0;
    proof {
        assert(probes@.skip(0) =~= probes@);
    }
    while i < probes.len()
        invariant
            i <= probes@.len(),
            confined(real_names(root@), probes@.skip(i as int)) == confined(
                real_names(root@),
                probes@,
            ),
        decreases probes@.len() - i,
    {
        match &probes[i] {
            AncestorProbe::Real(path) => {
                return if below_root(path, root) {
                    Ok(())
                } else {
                    Err(FilesError::Traversal)
                };
            },
            AncestorProbe::NotFound => {
                proof {
                    assert(probes@.skip(i as int).skip(1) =~= probes@.skip(i + 1));
                }
                i = i + 1;
            },
            AncestorProbe::NotADirectory => {
                return Err(FilesError::InvalidPath);
            },
            AncestorProbe::PermissionDenied => {
                return Err(FilesError::NotFound);
            },
            AncestorProbe::Failed(error) => {
                return Err(FilesError::Io(error.clone()));
            },
        }
    }
    Err(FilesError::Traversal)
}

/// A name of a file: not empty, neither `.` nor `..`, and without a slash.
pub open spec fn plain_name(s: Seq<char>) -> bool {
    s.len() > 0 && s != "."@ && s != ".."@ && !s.contains('/') && !s.contains('\0') && !s.contains(
        '\\',
    )
}

proof fn lemma_split_parts(s: Seq<char>, c: char)
    ensures
        forall|i: int|
            0 <= i < split(s, c).len() ==> !(#[trigger] split(s, c)[i]).contains(c)
                && (forall|d: char| split(s, c)[i].contains(d) ==> s.contains(d)),
    decreases s.len(),
{
    crate::text::lemma_position(s, c);
    let k = crate::text::position(s, c);
    if k < s.len() {
        lemma_split_parts(s.skip(k + 1), c);
        let rest = split(s.skip(k + 1), c);
        assert forall|i: int| 0 <= i < split(s, c).len() implies !(#[trigger] split(
            s,
            c,
        )[i]).contains(c) && (forall|d: char|
            split(s, c)[i].contains(d) ==> s.contains(d)) by {
            if i == 0 {
                assert(split(s, c)[0] == s.take(k));
                assert forall|d: char| s.take(k).contains(d) implies s.contains(d) by {
                    let j = choose|j: int| 0 <= j < k && s.take(k)[j] == d;
                    assert(s[j] == d);
                }
            } else {
                assert(split(s, c)[i] == rest[i - 1]);
                assert forall|d: char| rest[i - 1].contains(d) implies s.contains(d) by {
                    let tail = s.skip(k + 1);
                    assert(tail.contains(d));
                    let j = choose|j: int| 0 <= j < tail.len() && tail[j] == d;
                    assert(s[k + 1 + j] == d);
                }
            }
        }
    }
}

proof fn lemma_names_come_from(parts: Seq<Seq<char>>)
    ensures
        forall|i: int|
            0 <= i < names_in(parts).len() ==> {
                &&& parts.contains(#[trigger] names_in(parts)[i])
                &&& names_in(parts)[i].len() > 0
                &&& names_in(parts)[i] != "."@
            },
    decreases parts.len(),
{
    if parts.len() > 0 {
        lemma_names_come_from(parts.drop_last());
        let rest = names_in(parts.drop_last());
        assert forall|i: int| 0 <= i < names_in(parts).len() implies {
            &&& parts.contains(#[trigger] names_in(parts)[i])
            &&& names_in(parts)[i].len() > 0
            &&& names_in(parts)[i] != "."@
        } by {
            if i < rest.len() {
                assert(names_in(parts)[i] == rest[i]);
                let j = choose|j: int|
                    0 <= j < parts.drop_last().len() && parts.drop_last()[j] == rest[i];
                assert(parts[j] == rest[i]);
            } else {
                assert(parts[parts.len() - 1] == parts.last());
            }
        }
    }
}

proof fn lemma_walk_comes_from(names: Seq<Seq<char>>)
    requires
        walked(names) is Some,
    ensures
        forall|i: int|
            0 <= i < walked(names)->0.len() ==> names.contains(#[trigger] walked(names)->0[i])
                && walked(names)->0[i] != ".."@,
    decreases names.len(),
{
    if names.len() > 0 {
        lemma_walk_comes_from(names.drop_last());
        let before = walked(names.drop_last())->0;
        let now = walked(names)->0;
        assert forall|i: int| 0 <= i < now.len() implies names.contains(#[trigger] now[i]) && now[i]
            != ".."@ by {
            if i < before.len() {
                assert(now[i] == before[i]);
                let j = choose|j: int|
                    0 <= j < names.drop_last().len() && names.drop_last()[j] == before[i];
                assert(names[j] == before[i]);
            } else {
                assert(names[names.len() - 1] == names.last());
            }
        }
    }
}

/// A resolved path goes down from the root only: each of its parts is the plain name of a
/// file, so that no path of a request leaves the root by what is written in it.
pub proof fn law_resolved_paths_go_down(s: Seq<char>)
    requires
        resolved(s) is Ok,
    ensures
        forall|i: int| 0 <= i < resolved(s)->Ok_0.len() ==> plain_name(#[trigger] resolved(s)->Ok_0[i]),
{
    let parts = split(s, '/');
    let names = path_names(s);
    lemma_split_parts(s, '/');
    lemma_names_come_from(parts);
    lemma_walk_comes_from(names);
    assert forall|i: int| 0 <= i < resolved(s)->Ok_0.len() implies plain_name(
        #[trigger] resolved(s)->Ok_0[i],
    ) by {
        let name = walked(names)->0[i];
        assert(names.contains(name));
        let j = choose|j: int| 0 <= j < names.len() && names[j] == name;
        assert(names_in(parts)[j] == name);
        let k = choose|k: int| 0 <= k < parts.len() && parts[k] == name;
        assert(split(s, '/')[k] == name);
    }
}

/// A path that is accepted has an ancestor, or is a file, that is below the root with all
/// links followed, and nothing nearer to it exists.
pub proof fn law_accepted_paths_are_below_the_root(
    root: Seq<Seq<u8>>,
    probes: Seq<AncestorProbe>,
) -> (k: int)
    requires
        confined(root, probes) is Ok,
    ensures
        0 <= k < probes.len(),
        probes[k] is Real,
        is_below(real_names(probes[k]->Real_0@), root),
        forall|i: int| 0 <= i < k ==> probes[i] is NotFound,
    decreases probes.len(),
{
    if probes[0] is NotFound {
        let k = law_accepted_paths_are_below_the_root(root, probes.skip(1));
        assert forall|i: int| 0 <= i < k + 1 implies probes[i] is NotFound by {
            if i > 0 {
                assert(probes.skip(1)[i - 1] is NotFound);
            }
        }
        k + 1
    } else {
        0
    }
}

proof fn lemma_names_in_concat(a: Seq<Seq<char>>, b: Seq<Seq<char>>)
    ensures
        names_in(a + b) == names_in(a) + names_in(b),
    decreases b.len(),
{
    if b.len() == 0 {
        assert(a + b =~= a);
        assert(names_in(a) + names_in(b) =~= names_in(a));
    } else {
        lemma_names_in_concat(a, b.drop_last());
        assert((a + b).drop_last() =~= a + b.drop_last());
        assert(names_in(a + b) =~= names_in(a) + names_in(b));
    }
}

/// Empty parts of a path and single dots lead nowhere; every other part is a name, and the
/// names keep their order.
pub proof fn law_only_names_lead_on(a: Seq<Seq<char>>, part: Seq<char>, b: Seq<Seq<char>>)
    ensures
        part.len() == 0 || part == "."@ ==> names_in(a + seq![part] + b) == names_in(a + b),
        part.len() > 0 && part != "."@ ==> names_in(a + seq![part] + b) == names_in(a) + seq![part]
            + names_in(b),
{
    lemma_names_in_concat(a + seq![part], b);
    lemma_names_in_concat(a, seq![part]);
    lemma_names_in_concat(a, b);
    reveal_with_fuel(names_in, 2);
    assert(seq![part].drop_last() =~= Seq::<Seq<char>>::empty());
    if part.len() == 0 || part == "."@ {
        assert(names_in(seq![part]) =~= Seq::<Seq<char>>::empty());
        assert(names_in(a) + names_in(seq![part]) =~= names_in(a));
    } else {
        assert(names_in(seq![part]) =~= seq![part]);
    }
}

proof fn lemma_walked_plain(at: Seq<Seq<char>>, names: Seq<Seq<char>>)
    requires
        walked(at) is Some,
        forall|i: int| 0 <= i < names.len() ==> #[trigger] names[i] != ".."@,
    ensures
        walked(at + names) == Some(walked(at)->0 + names),
    decreases names.len(),
{
    if names.len() == 0 {
        assert(at + names =~= at);
        assert(walked(at)->0 + names =~= walked(at)->0);
    } else {
        let front = names.drop_last();
        assert forall|i: int| 0 <= i < front.len() implies #[trigger] front[i] != ".."@ by {
            assert(front[i] == names[i]);
        }
        lemma_walked_plain(at, front);
        assert((at + names).drop_last() =~= at + front);
        assert(names[names.len() - 1] != ".."@);
        assert((walked(at)->0 + front).push(names.last()) =~= walked(at)->0 + names);
    }
}

proof fn lemma_walked_same(a: Seq<Seq<char>>, b: Seq<Seq<char>>, rest: Seq<Seq<char>>)
    requires
        walked(a) == walked(b),
    ensures
        walked(a + rest) == walked(b + rest),
    decreases rest.len(),
{
    if rest.len() == 0 {
        assert(a + rest =~= a);
        assert(b + rest =~= b);
    } else {
        lemma_walked_same(a, b, rest.drop_last());
        assert((a + rest).drop_last() =~= a + rest.drop_last());
        assert((b + rest).drop_last() =~= b + rest.drop_last());
    }
}

/// Names lead down in their order; a name and the way back from it lead nowhere, and there is
/// no way back from the root, wherever the path goes on to.
pub proof fn law_the_way_back_undoes_a_name(
    a: Seq<Seq<char>>,
    name: Seq<char>,
    rest: Seq<Seq<char>>,
)
    requires
        name != ".."@,
    ensures
        walked(a + seq![name, ".."@] + rest) == walked(a + rest),
        walked(seq![".."@] + rest) is None,
        walked(a) is Some ==> walked(a.push(name)) == Some(walked(a)->0.push(name)),
        walked(a) is None ==> walked(a + rest) is None,
{
    let down = a.push(name);
    let back = down.push(".."@);
    assert(down.drop_last() =~= a);
    assert(back.drop_last() =~= down);
    assert(a + seq![name, ".."@] =~= back);
    if walked(a) is Some {
        assert(walked(a)->0.push(name).drop_last() =~= walked(a)->0);
    }
    lemma_walked_same(back, a, rest);
    reveal_with_fuel(walked, 2);
    assert(seq![".."@].drop_last() =~= Seq::<Seq<char>>::empty());
    assert(walked(seq![".."@]) is None);
    lemma_walked_none(seq![".."@], rest);
    if walked(a) is None {
        lemma_walked_none(a, rest);
    }
}

proof fn lemma_walked_none(a: Seq<Seq<char>>, rest: Seq<Seq<char>>)
    requires
        walked(a) is None,
    ensures
        walked(a + rest) is None,
    decreases rest.len(),
{
    if rest.len() == 0 {
        assert(a + rest =~= a);
    } else {
        lemma_walked_none(a, rest.drop_last());
        assert((a + rest).drop_last() =~= a + rest.drop_last());
    }
}

/// The names of a path of plain names are those names.
pub proof fn lemma_plain_path(names: Seq<Seq<char>>)
    requires
        names.len() > 0,
        forall|i: int| 0 <= i < names.len() ==> plain_name(#[trigger] names[i]),
    ensures
        path_names(joined(names, "/"@)) == names,
        walked(names) == Some(names),
        split(joined(names, "/"@), '/') == names,
{
    reveal_strlit("/");
    assert("/"@ =~= seq!['/']);
    assert forall|i: int| 0 <= i < names.len() implies !(#[trigger] names[i]).contains('/') by {
        assert(plain_name(names[i]));
    }
    lemma_split_joined(names, "/"@, '/');
    lemma_names_stay(names);
    assert forall|i: int| 0 <= i < names.len() implies #[trigger] names[i] != ".."@ by {
        assert(plain_name(names[i]));
    }
    assert(walked(Seq::<Seq<char>>::empty()) == Some(Seq::<Seq<char>>::empty()));
    lemma_walked_plain(Seq::empty(), names);
    assert(Seq::<Seq<char>>::empty() + names =~= names);
}

proof fn lemma_names_stay(names: Seq<Seq<char>>)
    requires
        forall|i: int| 0 <= i < names.len() ==> plain_name(#[trigger] names[i]),
    ensures
        names_in(names) == names,
    decreases names.len(),
{
    if names.len() > 0 {
        let front = names.drop_last();
        assert forall|i: int| 0 <= i < front.len() implies plain_name(#[trigger] front[i]) by {
            assert(front[i] == names[i]);
        }
        lemma_names_stay(front);
        assert(plain_name(names[names.len() - 1]));
        assert(names_in(names) =~= names);
    } else {
        assert(names_in(names) =~= names);
    }
}

proof fn lemma_plain_path_is_good(names: Seq<Seq<char>>)
    requires
        names.len() > 0,
        forall|i: int| 0 <= i < names.len() ==> plain_name(#[trigger] names[i]),
    ensures
        joined(names, "/"@).len() > 0,
        joined(names, "/"@)[0] == names[0][0],
        !joined(names, "/"@).contains('\0'),
        !joined(names, "/"@).contains('\\'),
    decreases names.len(),
{
    let all = joined(names, "/"@);
    reveal_strlit("/");
    assert(plain_name(names[0]));
    if names.len() > 1 {
        let front = names.drop_last();
        assert forall|i: int| 0 <= i < front.len() implies plain_name(#[trigger] front[i]) by {
            assert(front[i] == names[i]);
        }
        lemma_plain_path_is_good(front);
        assert(plain_name(names[names.len() - 1]));
        let begin = joined(front, "/"@);
        let last = names.last();
        assert(all == begin + "/"@ + last);
        assert forall|i: int| 0 <= i < all.len() implies all[i] != '\0' && all[i] != '\\' by {
            if i < begin.len() {
                assert(all[i] == begin[i]);
                assert(begin.contains(begin[i]));
            } else if i > begin.len() {
                assert(all[i] == last[i - begin.len() - 1]);
                assert(last.contains(last[i - begin.len() - 1]));
            }
        }
    } else {
        assert(all == names[0]);
    }
}

/// A path of plain names leads to just those names.
pub proof fn law_plain_paths_are_found(names: Seq<Seq<char>>)
    requires
        names.len() > 0,
        forall|i: int| 0 <= i < names.len() ==> plain_name(#[trigger] names[i]),
        !({
            let s = joined(names, "/"@);
            s.len() >= 2 && s[1] == ':' && ('a' <= s[0] <= 'z' || 'A' <= s[0] <= 'Z')
        }),
    ensures
        resolved(joined(names, "/"@)) == Ok::<Seq<Seq<char>>, FilesErrorView>(names),
{
    lemma_plain_path(names);
    lemma_plain_path_is_good(names);
    assert(plain_name(names[0]));
    assert(names[0].contains(names[0][0]));
}

/// A path is refused as such where it is empty or absolute, begins with the letter of a drive,
/// or holds a backslash or a zero, wherever it would lead.
pub proof fn law_bad_paths_are_refused(s: Seq<char>)
    ensures
        s.len() == 0 || s.contains('\0') || s.contains('\\') || s[0] == '/' || (s.len() >= 2
            && s[1] == ':' && ('a' <= s[0] <= 'z' || 'A' <= s[0] <= 'Z')) ==> resolved(s) == Err::<
            Seq<Seq<char>>,
            FilesErrorView,
        >(FilesErrorView::InvalidPath),
        resolved(s) == Err::<Seq<Seq<char>>, FilesErrorView>(FilesErrorView::InvalidPath)
            ==> s.len() == 0 || s.contains('\0') || s.contains('\\') || s[0] == '/' || (s.len()
            >= 2 && s[1] == ':' && ('a' <= s[0] <= 'z' || 'A' <= s[0] <= 'Z')),
{
}

/// The nearest ancestor that exists decides about a path: it is accepted exactly where that is
/// the root or below it.
pub proof fn law_the_nearest_ancestor_decides(
    root: Seq<Seq<u8>>,
    probes: Seq<AncestorProbe>,
    k: int,
)
    requires
        0 <= k < probes.len(),
        forall|i: int| 0 <= i < k ==> (#[trigger] probes[i]) is NotFound,
        !(probes[k] is NotFound),
    ensures
        match probes[k] {
            AncestorProbe::Real(path) => {
                let names = real_names(path@);
                &&& confined(root, probes) is Ok <==> root.len() <= names.len() && names.take(
                    root.len() as int,
                ) == root
                &&& confined(root, probes) is Err ==> confined(root, probes)->Err_0 is Traversal
            },
            AncestorProbe::NotADirectory => confined(root, probes) == Err::<(), FilesErrorView>(
                FilesErrorView::InvalidPath,
            ),
            AncestorProbe::PermissionDenied => confined(root, probes) == Err::<(), FilesErrorView>(
                FilesErrorView::NotFound,
            ),
            AncestorProbe::Failed(m) => confined(root, probes) == Err::<(), FilesErrorView>(
                FilesErrorView::Io(m@),
            ),
            AncestorProbe::NotFound => true,
        },
    decreases k,
{
    if k > 0 {
        assert(probes[0] is NotFound);
        let rest = probes.skip(1);
        assert forall|i: int| 0 <= i < k - 1 implies (#[trigger] rest[i]) is NotFound by {
            assert(probes[i + 1] is NotFound);
        }
        law_the_nearest_ancestor_decides(root, rest, k - 1);
    } else if let AncestorProbe::Real(path) = probes[0] {
        let names = real_names(path@);
        if root.len() <= names.len() && names.take(root.len() as int) == root {
            assert(root =~= names.subrange(0, root.len() as int));
        }
        if root.is_prefix_of(names) {
            assert(names.take(root.len() as int) =~= root);
        }
    }
}

} // verus!

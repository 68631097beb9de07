//! The tree walker: enumerate an in-memory snapshot of the source tree,
//! select the eligible video files, resolve each directory's effective
//! scaling parameter, and emit one transfer unit per eligible file that is
//! not already present at the destination.
//!
//! The walk is pure: the surrounding program snapshots the real source tree
//! and the relative paths already present under the destination root, and
//! then performs the returned transfer units one by one.

use crate::resolve::{determine_scale, is_path_prefix, resolve_spec, table_view};
use vstd::prelude::*;

verus! {

/// A snapshot of directory entries: a list of named entries, where a
/// directory entry carries its own entry list. The list order is the
/// enumeration order of the walk.
pub enum FsTree {
    /// No further entries.
    Nil,
    /// A regular file, followed by the remaining entries of this directory.
    File { name: String, rest: Box<FsTree> },
    /// An entry of any other kind (symlink, device, ...), followed by the
    /// remaining entries of this directory.
    Other { name: String, rest: Box<FsTree> },
    /// A subdirectory with its own entries, followed by the remaining
    /// entries of this directory.
    Dir { name: String, entries: Box<FsTree>, rest: Box<FsTree> },
}

/// One unit of work for the writer: the directory suffix the file lives in,
/// the file's name, and the resolved effective scaling parameter.
pub struct TransferUnit {
    pub rel_dir: Vec<String>,
    pub name: String,
    pub scale: Option<u32>,
}

/// The mathematical shadow of a transfer unit.
pub ghost struct TransferUnitView {
    pub rel_dir: Seq<Seq<char>>,
    pub name: Seq<char>,
    pub scale: Option<u32>,
}

impl View for TransferUnit {
    type V = TransferUnitView;

    open spec fn view(&self) -> TransferUnitView {
        TransferUnitView { rel_dir: self.rel_dir.deep_view(), name: self.name@, scale: self.scale }
    }
}

impl DeepView for TransferUnit {
    type V = TransferUnitView;

    open spec fn deep_view(&self) -> TransferUnitView {
        self.view()
    }
}

/// The extension of a file name: the characters after the last dot, when
/// that dot is neither the first character nor absent; otherwise none.
pub open spec fn extension_of(name: Seq<char>) -> Option<Seq<char>>
    decreases name.len(),
{
    if name.len() <= 1 {
        None
    } else if name.last() == '.' {
        Some(Seq::empty())
    } else {
        match extension_of(name.drop_last()) {
            Some(e) => Some(e.push(name.last())),
            None => None,
        }
    }
}

/// The two recognized video container extensions.
pub open spec fn is_video_name(name: Seq<char>) -> bool {
    extension_of(name) == Some(seq!['m', 'p', '4']) || extension_of(name) == Some(
        seq!['m', 'k', 'v'],
    )
}

proof fn lemma_extension_none(name: Seq<char>)
    requires
        forall|j: int| 1 <= j < name.len() ==> name[j] != '.',
    ensures
        extension_of(name) == None::<Seq<char>>,
    decreases name.len(),
{
    if name.len() > 1 {
        lemma_extension_none(name.drop_last());
    }
}

proof fn lemma_extension_at(name: Seq<char>, k: int)
    requires
        1 <= k < name.len(),
        name[k] == '.',
        forall|j: int| k < j < name.len() ==> name[j] != '.',
    ensures
        extension_of(name) == Some(name.skip(k + 1)),
    decreases name.len(),
{
    if k == name.len() - 1 {
        assert(name.skip(k + 1) =~= Seq::<char>::empty());
    } else {
        lemma_extension_at(name.drop_last(), k);
        assert(name.drop_last().skip(k + 1).push(name.last()) =~= name.skip(k + 1));
    }
}

/// Decide whether a file name carries one of the two recognized video
/// container extensions (case-sensitive).
pub fn has_video_extension(name: &str) -> (r: bool)
    ensures
        r == is_video_name(name@),
{
    let n = name.unicode_len();
    let mut k = n;
    while k > 0 && name.get_char(k - 1) != '.'
        invariant
            0 <= k <= n,
            n == name@.len(),
            forall|j: int| k <= j < n ==> name@[j] != '.',
        decreases k,
    {
        k = k - 1;
    }
    if k <= 1 {
        // No dot, or a dot only as the first character: no extension.
        proof {
            lemma_extension_none(name@);
        }
        return false;
    }
    // The last dot is at k - 1, with k - 1 >= 1.
    proof {
        lemma_extension_at(name@, k - 1);
    }
    if n - k != 3 {
        proof {
            assert(name@.skip(k as int).len() == n - k);
            assert(seq!['m', 'p', '4'].len() == 3 && seq!['m', 'k', 'v'].len() == 3);
        }
        return false;
    }
    let c0 = name.get_char(k);
    let c1 = name.get_char(k + 1);
    let c2 = name.get_char(k + 2);
    let r = (c0 == 'm' && c1 == 'p' && c2 == '4') || (c0 == 'm' && c1 == 'k' && c2 == 'v');
    proof {
        if c0 == 'm' && c1 == 'p' && c2 == '4' {
            assert(name@.skip(k as int) =~= seq!['m', 'p', '4']);
        } else if c0 == 'm' && c1 == 'k' && c2 == 'v' {
            assert(name@.skip(k as int) =~= seq!['m', 'k', 'v']);
        } else {
            assert(name@.skip(k as int) != seq!['m', 'p', '4'] && name@.skip(k as int) != seq![
                'm',
                'k',
                'v',
            ]) by {
                assert(name@.skip(k as int)[0] == c0 && name@.skip(k as int)[1] == c1 && name@.skip(
                    k as int,
                )[2] == c2);
            }
        }
    }
    r
}

/// Membership of a relative path in the list of paths already present at the
/// destination.
pub open spec fn contains_path(existing: Seq<Seq<Seq<char>>>, p: Seq<Seq<char>>) -> bool {
    exists|i: int| 0 <= i < existing.len() && existing[i] == p
}

fn path_matches(p: &Vec<String>, dir: &Vec<String>, name: &String) -> (r: bool)
    ensures
        r == (p.deep_view() == dir.deep_view().push(name@)),
{
    let n = p.len();
    if n == 0 || n - 1 != dir.len() {
        assert(p.deep_view().len() != dir.deep_view().push(name@).len());
        return false;
    }
    for i in 0..n - 1
        invariant
            n == p@.len(),
            n - 1 == dir@.len(),
            forall|j: int| 0 <= j < i ==> p.deep_view()[j] == dir.deep_view()[j],
    {
        if !p[i].eq(&dir[i]) {
            assert(p.deep_view()[i as int] != dir.deep_view().push(name@)[i as int]);
            return false;
        }
    }
    if !p[n - 1].eq(name) {
        assert(p.deep_view()[n - 1] != dir.deep_view().push(name@)[n - 1]);
        return false;
    }
    proof {
        assert(p.deep_view() =~= dir.deep_view().push(name@));
    }
    true
}

fn path_listed(existing: &Vec<Vec<String>>, dir: &Vec<String>, name: &String) -> (r: bool)
    ensures
        r == contains_path(existing.deep_view(), dir.deep_view().push(name@)),
{
    let n = existing.len();
    for i in 0..n
        invariant
            n == existing@.len(),
            forall|j: int| 0 <= j < i ==> existing.deep_view()[j] != dir.deep_view().push(name@),
    {
        if path_matches(&existing[i], dir, name) {
            assert(existing.deep_view()[i as int] == dir.deep_view().push(name@));
            return true;
        }
    }
    false
}

fn clone_path(v: &Vec<String>) -> (r: Vec<String>)
    ensures
        r@ == v@,
{
    let n = v.len();
    let mut r: Vec<String> = Vec::new();
    for i in 0..n
        invariant
            n == v@.len(),
            r@.len() == i,
            forall|j: int| 0 <= j < i ==> r@[j] == v@[j],
    {
        r.push(v[i].clone());
    }
    proof {
        assert(r@ =~= v@);
    }
    r
}

/// The plan of a walk: one transfer unit, in enumeration order, for each
/// regular file under the tree whose name carries a recognized video
/// extension and whose relative path is not already present at the
/// destination; each unit carries the parameter resolved for its directory.
pub open spec fn plan_spec(
    t: FsTree,
    suffix: Seq<Seq<char>>,
    default: Option<u32>,
    table: Seq<(Seq<Seq<char>>, u32)>,
    existing: Seq<Seq<Seq<char>>>,
) -> Seq<TransferUnitView>
    decreases t,
{
    match t {
        FsTree::Nil => Seq::empty(),
        FsTree::File { name, rest } => {
            let here = if is_video_name(name@) && !contains_path(existing, suffix.push(name@)) {
                seq![
                    TransferUnitView {
                        rel_dir: suffix,
                        name: name@,
                        scale: resolve_spec(table, suffix, default),
                    },
                ]
            } else {
                Seq::empty()
            };
            here + plan_spec(*rest, suffix, default, table, existing)
        },
        FsTree::Other { name: _, rest } => plan_spec(*rest, suffix, default, table, existing),
        FsTree::Dir { name, entries, rest } => plan_spec(
            *entries,
            suffix.push(name@),
            default,
            table,
            existing,
        ) + plan_spec(*rest, suffix, default, table, existing),
    }
}

/// Walk the snapshot rooted at `suffix` and return the transfer units to
/// perform, depth first in entry order: subdirectory entries recurse with
/// the suffix extended by the entry name; regular files with a recognized
/// video extension whose relative path is not listed in `existing` become
/// units; everything else is skipped.
pub fn plan_walk(
    tree: &FsTree,
    suffix: &Vec<String>,
    default_scale: Option<u32>,
    overrides: &Vec<(Vec<String>, u32)>,
    existing: &Vec<Vec<String>>,
) -> (plan: Vec<TransferUnit>)
    ensures
        plan.deep_view() == plan_spec(
            *tree,
            suffix.deep_view(),
            default_scale,
            table_view(overrides@),
            existing.deep_view(),
        ),
    decreases *tree,
{
    match tree {
        FsTree::Nil => {
            let plan: Vec<TransferUnit> = Vec::new();
            proof {
                assert(plan.deep_view() =~= Seq::<TransferUnitView>::empty());
            }
            plan
        },
        FsTree::File { name, rest } => {
            let mut plan: Vec<TransferUnit> = Vec::new();
            if has_video_extension(name.as_str()) && !path_listed(existing, suffix, name) {
                let scale = determine_scale(suffix, default_scale, overrides);
                plan.push(TransferUnit { rel_dir: clone_path(suffix), name: name.clone(), scale });
            }
            let ghost here = plan.deep_view();
            proof {
                if is_video_name(name@) && !contains_path(
                    existing.deep_view(),
                    suffix.deep_view().push(name@),
                ) {
                    assert(here =~= seq![
                        TransferUnitView {
                            rel_dir: suffix.deep_view(),
                            name: name@,
                            scale: resolve_spec(
                                table_view(overrides@),
                                suffix.deep_view(),
                                default_scale,
                            ),
                        },
                    ]);
                } else {
                    assert(here =~= Seq::<TransferUnitView>::empty());
                }
            }
            let mut rest_plan = plan_walk(&**rest, suffix, default_scale, overrides, existing);
            let ghost rv = rest_plan.deep_view();
            plan.append(&mut rest_plan);
            proof {
                assert(plan.deep_view() =~= here + rv);
            }
            plan
        },
        FsTree::Other { name: _, rest } => plan_walk(
            &**rest,
            suffix,
            default_scale,
            overrides,
            existing,
        ),
        FsTree::Dir { name, entries, rest } => {
            let mut sub_suffix = clone_path(suffix);
            sub_suffix.push(name.clone());
            proof {
                assert(sub_suffix.deep_view() =~= suffix.deep_view().push(name@));
            }
            let mut plan = plan_walk(&**entries, &sub_suffix, default_scale, overrides, existing);
            let ghost ev = plan.deep_view();
            let mut rest_plan = plan_walk(&**rest, suffix, default_scale, overrides, existing);
            let ghost rv = rest_plan.deep_view();
            plan.append(&mut rest_plan);
            proof {
                assert(plan.deep_view() =~= ev + rv);
            }
            plan
        },
    }
}

/// Selection soundness: every planned unit names an eligible video file, one
/// whose relative path is not already present at the destination, and carries
/// exactly the parameter the resolver gives its directory. Files with the
/// wrong extension, files without one, and entries of other kinds yield no
/// unit.
pub proof fn lemma_plan_selects_eligible(
    t: FsTree,
    suffix: Seq<Seq<char>>,
    default: Option<u32>,
    table: Seq<(Seq<Seq<char>>, u32)>,
    existing: Seq<Seq<Seq<char>>>,
    j: int,
)
    requires
        0 <= j < plan_spec(t, suffix, default, table, existing).len(),
    ensures
        ({
            let u = plan_spec(t, suffix, default, table, existing)[j];
            &&& is_video_name(u.name)
            &&& !contains_path(existing, u.rel_dir.push(u.name))
            &&& u.scale == resolve_spec(table, u.rel_dir, default)
        }),
    decreases t,
{
    match t {
        FsTree::Nil => {
        },
        FsTree::File { name, rest } => {
            let here = if is_video_name(name@) && !contains_path(existing, suffix.push(name@)) {
                seq![
                    TransferUnitView {
                        rel_dir: suffix,
                        name: name@,
                        scale: resolve_spec(table, suffix, default),
                    },
                ]
            } else {
                Seq::<TransferUnitView>::empty()
            };
            if j >= here.len() {
                lemma_plan_selects_eligible(*rest, suffix, default, table, existing, j - here.len());
            }
        },
        FsTree::Other { name: _, rest } => {
            lemma_plan_selects_eligible(*rest, suffix, default, table, existing, j);
        },
        FsTree::Dir { name, entries, rest } => {
            let sub = plan_spec(*entries, suffix.push(name@), default, table, existing);
            if j < sub.len() {
                lemma_plan_selects_eligible(*entries, suffix.push(name@), default, table, existing, j);
            } else {
                lemma_plan_selects_eligible(*rest, suffix, default, table, existing, j - sub.len());
            }
        },
    }
}

/// There is a regular file in the snapshot at the relative path `rel` (taken
/// from the directory the snapshot describes).
pub open spec fn tree_has_file(t: FsTree, rel: Seq<Seq<char>>) -> bool
    decreases t,
{
    match t {
        FsTree::Nil => false,
        FsTree::File { name, rest } => rel == seq![name@] || tree_has_file(*rest, rel),
        FsTree::Other { name: _, rest } => tree_has_file(*rest, rel),
        FsTree::Dir { name, entries, rest } => (rel.len() >= 1 && rel[0] == name@ && tree_has_file(
            *entries,
            rel.skip(1),
        )) || tree_has_file(*rest, rel),
    }
}

/// Structural isomorphism: every planned unit lies below the directory the
/// walk started from, and its relative path names a regular file of the
/// source snapshot — so the destination file it produces sits at the same
/// relative path as its source file.
pub proof fn lemma_plan_units_are_tree_files(
    t: FsTree,
    suffix: Seq<Seq<char>>,
    default: Option<u32>,
    table: Seq<(Seq<Seq<char>>, u32)>,
    existing: Seq<Seq<Seq<char>>>,
    j: int,
)
    requires
        0 <= j < plan_spec(t, suffix, default, table, existing).len(),
    ensures
        ({
            let u = plan_spec(t, suffix, default, table, existing)[j];
            &&& is_path_prefix(suffix, u.rel_dir)
            &&& tree_has_file(t, u.rel_dir.skip(suffix.len() as int).push(u.name))
        }),
    decreases t,
{
    let u = plan_spec(t, suffix, default, table, existing)[j];
    match t {
        FsTree::Nil => {
        },
        FsTree::File { name, rest } => {
            let here = if is_video_name(name@) && !contains_path(existing, suffix.push(name@)) {
                seq![
                    TransferUnitView {
                        rel_dir: suffix,
                        name: name@,
                        scale: resolve_spec(table, suffix, default),
                    },
                ]
            } else {
                Seq::<TransferUnitView>::empty()
            };
            if j < here.len() {
                assert(suffix =~= suffix.take(suffix.len() as int));
                assert(u.rel_dir.skip(suffix.len() as int).push(u.name) =~= seq![name@]);
            } else {
                lemma_plan_units_are_tree_files(
                    *rest,
                    suffix,
                    default,
                    table,
                    existing,
                    j - here.len(),
                );
            }
        },
        FsTree::Other { name: _, rest } => {
            lemma_plan_units_are_tree_files(*rest, suffix, default, table, existing, j);
        },
        FsTree::Dir { name, entries, rest } => {
            let sub_suffix = suffix.push(name@);
            let sub = plan_spec(*entries, sub_suffix, default, table, existing);
            if j < sub.len() {
                lemma_plan_units_are_tree_files(*entries, sub_suffix, default, table, existing, j);
                assert(sub[j] == u);
                assert(sub_suffix == u.rel_dir.take(sub_suffix.len() as int));
                assert(suffix =~= u.rel_dir.take(sub_suffix.len() as int).take(
                    suffix.len() as int,
                ));
                assert(u.rel_dir.take(sub_suffix.len() as int).take(suffix.len() as int) =~= u.rel_dir.take(
                    suffix.len() as int,
                ));
                let rel = u.rel_dir.skip(suffix.len() as int).push(u.name);
                assert(rel[0] == u.rel_dir[suffix.len() as int]);
                assert(u.rel_dir[suffix.len() as int] == sub_suffix[suffix.len() as int]);
                assert(rel.skip(1) =~= u.rel_dir.skip(sub_suffix.len() as int).push(u.name));
                assert(tree_has_file(t, rel));
            } else {
                lemma_plan_units_are_tree_files(
                    *rest,
                    suffix,
                    default,
                    table,
                    existing,
                    j - sub.len(),
                );
            }
        },
    }
}

proof fn lemma_tree_file_nonempty(t: FsTree, rel: Seq<Seq<char>>)
    requires
        tree_has_file(t, rel),
    ensures
        rel.len() >= 1,
    decreases t,
{
    match t {
        FsTree::Nil => {
        },
        FsTree::File { name, rest } => {
            if rel != seq![name@] {
                lemma_tree_file_nonempty(*rest, rel);
            }
        },
        FsTree::Other { name: _, rest } => {
            lemma_tree_file_nonempty(*rest, rel);
        },
        FsTree::Dir { name: _, entries: _, rest } => {
            if tree_has_file(*rest, rel) {
                lemma_tree_file_nonempty(*rest, rel);
            }
        },
    }
}

/// Selection completeness: every regular file of the snapshot whose name
/// carries a recognized video extension and whose relative path is not
/// already present at the destination appears in the plan. Together with
/// selection soundness, the plan holds exactly the eligible files.
pub proof fn lemma_plan_is_complete(
    t: FsTree,
    suffix: Seq<Seq<char>>,
    default: Option<u32>,
    table: Seq<(Seq<Seq<char>>, u32)>,
    existing: Seq<Seq<Seq<char>>>,
    rel: Seq<Seq<char>>,
)
    requires
        tree_has_file(t, rel),
        is_video_name(rel.last()),
        !contains_path(existing, suffix + rel),
    ensures
        exists|j: int|
            0 <= j < plan_spec(t, suffix, default, table, existing).len() && (#[trigger] plan_spec(
                t,
                suffix,
                default,
                table,
                existing,
            )[j]).rel_dir == suffix + rel.drop_last() && plan_spec(
                t,
                suffix,
                default,
                table,
                existing,
            )[j].name == rel.last(),
    decreases t,
{
    lemma_tree_file_nonempty(t, rel);
    let plan = plan_spec(t, suffix, default, table, existing);
    match t {
        FsTree::Nil => {
        },
        FsTree::File { name, rest } => {
            let here = if is_video_name(name@) && !contains_path(existing, suffix.push(name@)) {
                seq![
                    TransferUnitView {
                        rel_dir: suffix,
                        name: name@,
                        scale: resolve_spec(table, suffix, default),
                    },
                ]
            } else {
                Seq::<TransferUnitView>::empty()
            };
            if rel == seq![name@] {
                assert(suffix + rel =~= suffix.push(name@));
                assert(suffix + rel.drop_last() =~= suffix);
                assert(rel.last() == name@);
                assert(plan[0].rel_dir == suffix + rel.drop_last() && plan[0].name == rel.last());
            } else {
                lemma_plan_is_complete(*rest, suffix, default, table, existing, rel);
                let rest_plan = plan_spec(*rest, suffix, default, table, existing);
                let j = choose|j: int|
                    0 <= j < rest_plan.len() && (#[trigger] rest_plan[j]).rel_dir == suffix
                        + rel.drop_last() && rest_plan[j].name == rel.last();
                assert(plan[here.len() + j] == rest_plan[j]);
            }
        },
        FsTree::Other { name: _, rest } => {
            lemma_plan_is_complete(*rest, suffix, default, table, existing, rel);
        },
        FsTree::Dir { name, entries, rest } => {
            let sub_suffix = suffix.push(name@);
            let sub = plan_spec(*entries, sub_suffix, default, table, existing);
            if rel.len() >= 1 && rel[0] == name@ && tree_has_file(*entries, rel.skip(1)) {
                let sub_rel = rel.skip(1);
                lemma_tree_file_nonempty(*entries, sub_rel);
                assert(sub_rel.last() == rel.last());
                assert(sub_suffix + sub_rel =~= suffix + rel);
                lemma_plan_is_complete(*entries, sub_suffix, default, table, existing, sub_rel);
                let j = choose|j: int|
                    0 <= j < sub.len() && (#[trigger] sub[j]).rel_dir == sub_suffix
                        + sub_rel.drop_last() && sub[j].name == sub_rel.last();
                assert(sub_suffix + sub_rel.drop_last() =~= suffix + rel.drop_last());
                assert(plan[j] == sub[j]);
            } else {
                lemma_plan_is_complete(*rest, suffix, default, table, existing, rel);
                let rest_plan = plan_spec(*rest, suffix, default, table, existing);
                let j = choose|j: int|
                    0 <= j < rest_plan.len() && (#[trigger] rest_plan[j]).rel_dir == suffix
                        + rel.drop_last() && rest_plan[j].name == rel.last();
                assert(plan[sub.len() + j] == rest_plan[j]);
            }
        },
    }
}

/// Idempotence of the walk: once the destination already holds everything a
/// first walk planned (and everything it held before), a second walk over the
/// unchanged snapshot plans nothing, so a re-run performs zero transform
/// invocations.
pub proof fn lemma_walk_idempotent(
    t: FsTree,
    suffix: Seq<Seq<char>>,
    default: Option<u32>,
    table: Seq<(Seq<Seq<char>>, u32)>,
    ex1: Seq<Seq<Seq<char>>>,
    ex2: Seq<Seq<Seq<char>>>,
)
    requires
        forall|p: Seq<Seq<char>>| #[trigger] contains_path(ex1, p) ==> contains_path(ex2, p),
        forall|j: int|
            0 <= j < plan_spec(t, suffix, default, table, ex1).len() ==> contains_path(
                ex2,
                (#[trigger] plan_spec(t, suffix, default, table, ex1)[j]).rel_dir.push(
                    plan_spec(t, suffix, default, table, ex1)[j].name,
                ),
            ),
    ensures
        plan_spec(t, suffix, default, table, ex2) == Seq::<TransferUnitView>::empty(),
    decreases t,
{
    let plan1 = plan_spec(t, suffix, default, table, ex1);
    match t {
        FsTree::Nil => {
            assert(plan_spec(t, suffix, default, table, ex2) =~= Seq::<
                TransferUnitView,
            >::empty());
        },
        FsTree::File { name, rest } => {
            let rest1 = plan_spec(*rest, suffix, default, table, ex1);
            let here1 = if is_video_name(name@) && !contains_path(ex1, suffix.push(name@)) {
                seq![
                    TransferUnitView {
                        rel_dir: suffix,
                        name: name@,
                        scale: resolve_spec(table, suffix, default),
                    },
                ]
            } else {
                Seq::<TransferUnitView>::empty()
            };
            assert(plan1 == here1 + rest1);
            if is_video_name(name@) {
                if contains_path(ex1, suffix.push(name@)) {
                    assert(contains_path(ex2, suffix.push(name@)));
                } else {
                    assert(plan1[0] == here1[0]);
                    assert(contains_path(ex2, suffix.push(name@)));
                }
            }
            assert forall|j: int| 0 <= j < rest1.len() implies contains_path(
                ex2,
                (#[trigger] rest1[j]).rel_dir.push(rest1[j].name),
            ) by {
                assert(plan1[here1.len() + j] == rest1[j]);
            }
            lemma_walk_idempotent(*rest, suffix, default, table, ex1, ex2);
            assert(plan_spec(t, suffix, default, table, ex2) =~= Seq::<
                TransferUnitView,
            >::empty());
        },
        FsTree::Other { name: _, rest } => {
            lemma_walk_idempotent(*rest, suffix, default, table, ex1, ex2);
        },
        FsTree::Dir { name, entries, rest } => {
            let sub_suffix = suffix.push(name@);
            let sub1 = plan_spec(*entries, sub_suffix, default, table, ex1);
            let rest1 = plan_spec(*rest, suffix, default, table, ex1);
            assert(plan1 == sub1 + rest1);
            assert forall|j: int| 0 <= j < sub1.len() implies contains_path(
                ex2,
                (#[trigger] sub1[j]).rel_dir.push(sub1[j].name),
            ) by {
                assert(plan1[j] == sub1[j]);
            }
            assert forall|j: int| 0 <= j < rest1.len() implies contains_path(
                ex2,
                (#[trigger] rest1[j]).rel_dir.push(rest1[j].name),
            ) by {
                assert(plan1[sub1.len() + j] == rest1[j]);
            }
            lemma_walk_idempotent(*entries, sub_suffix, default, table, ex1, ex2);
            lemma_walk_idempotent(*rest, suffix, default, table, ex1, ex2);
            assert(plan_spec(t, suffix, default, table, ex2) =~= Seq::<
                TransferUnitView,
            >::empty());
        },
    }
}

} // verus!

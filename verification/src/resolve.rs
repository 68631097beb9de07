//! Override resolution: mapping a directory's relative suffix to the
//! effective scaling parameter, by longest-prefix match over a table of
//! (directory-prefix, height) overrides.

use vstd::prelude::*;

verus! {

/// Spec view of an override table: each entry pairs a directory-prefix key
/// (a sequence of path components) with a target maximum height.
pub open spec fn table_view(t: Seq<(Vec<String>, u32)>) -> Seq<(Seq<Seq<char>>, u32)> {
    t.map(|i: int, e: (Vec<String>, u32)| (e.0.deep_view(), e.1))
}

/// `key` names a directory prefix of `path`: `key`'s components are exactly
/// the leading components of `path`. This is a component-wise test, so the
/// key `["movies"]` matches `["movies", "action"]` but not `["movies2"]`.
pub open spec fn is_path_prefix(key: Seq<Seq<char>>, path: Seq<Seq<char>>) -> bool {
    key.len() <= path.len() && key == path.take(key.len() as int)
}

/// No two entries of the table carry the same key.
pub open spec fn keys_unique(table: Seq<(Seq<Seq<char>>, u32)>) -> bool {
    forall|i: int, j: int|
        0 <= i < table.len() && 0 <= j < table.len() && i != j ==> (#[trigger] table[i]).0 != (
        #[trigger] table[j]).0
}

/// The best (longest) match found while scanning the table left to right:
/// the value and key length of the first entry among those of maximal key
/// length whose key is a prefix of `suffix`, or `None` when no key matches.
pub open spec fn best_match(table: Seq<(Seq<Seq<char>>, u32)>, suffix: Seq<Seq<char>>) -> Option<
    (u32, nat),
>
    decreases table.len(),
{
    if table.len() == 0 {
        None
    } else {
        let prev = best_match(table.drop_last(), suffix);
        let e = table.last();
        if is_path_prefix(e.0, suffix) {
            match prev {
                None => Some((e.1, e.0.len())),
                Some((v, l)) => if e.0.len() > l {
                    Some((e.1, e.0.len()))
                } else {
                    Some((v, l))
                },
            }
        } else {
            prev
        }
    }
}

/// What the resolver returns: the value of the longest matching override key,
/// or the configured default when no key matches. `None` means "re-encode
/// without scaling".
pub open spec fn resolve_spec(
    table: Seq<(Seq<Seq<char>>, u32)>,
    suffix: Seq<Seq<char>>,
    default: Option<u32>,
) -> Option<u32> {
    match best_match(table, suffix) {
        Some((v, _l)) => Some(v),
        None => default,
    }
}

/// Component-wise path-prefix test on component vectors.
pub fn is_prefix_of(key: &Vec<String>, path: &Vec<String>) -> (r: bool)
    ensures
        r == is_path_prefix(key.deep_view(), path.deep_view()),
{
    if key.len() > path.len() {
        assert(!is_path_prefix(key.deep_view(), path.deep_view()));
        return false;
    }
    let n = key.len();
    for i in 0..n
        invariant
            n == key.deep_view().len() <= path.deep_view().len(),
            forall|j: int| 0 <= j < i ==> key.deep_view()[j] == path.deep_view()[j],
    {
        if !key[i].eq(&path[i]) {
            assert(key.deep_view()[i as int] != path.deep_view()[i as int]);
            assert(!is_path_prefix(key.deep_view(), path.deep_view()));
            return false;
        }
    }
    proof {
        assert(key.deep_view() =~= path.deep_view().take(key.deep_view().len() as int));
    }
    true
}

/// Determine which scale to use for files in the directory named by
/// `file_suffix`, preferring the longest matching override key and falling
/// back to `default_scale` when no key matches.
pub fn determine_scale(
    file_suffix: &Vec<String>,
    default_scale: Option<u32>,
    overrides: &Vec<(Vec<String>, u32)>,
) -> (r: Option<u32>)
    ensures
        r == resolve_spec(table_view(overrides@), file_suffix.deep_view(), default_scale),
{
    let mut best: Option<u32> = None;
    let mut best_depth: usize = 0;
    let n = overrides.len();
    for i in 0..n
        invariant
            n == overrides@.len(),
            match best {
                None => best_match(table_view(overrides@).take(i as int), file_suffix.deep_view())
                    is None,
                Some(v) => best_match(table_view(overrides@).take(i as int), file_suffix.deep_view())
                    == Some((v, best_depth as nat)),
            },
    {
        let entry = &overrides[i];
        proof {
            assert(table_view(overrides@).take(i + 1).drop_last() =~= table_view(overrides@).take(
                i as int,
            ));
            assert(table_view(overrides@).take(i + 1).last() == (
                overrides@[i as int].0.deep_view(),
                overrides@[i as int].1,
            ));
        }
        if is_prefix_of(&entry.0, file_suffix) {
            let depth = entry.0.len();
            if best.is_none() || depth > best_depth {
                best = Some(entry.1);
                best_depth = depth;
            }
        }
    }
    proof {
        assert(table_view(overrides@).take(n as int) =~= table_view(overrides@));
    }
    match best {
        Some(v) => Some(v),
        None => default_scale,
    }
}

/// Characterization of `best_match`: when it returns a value, that value
/// belongs to a matching entry of maximal key length; when it returns `None`,
/// no entry matches.
pub proof fn lemma_best_match_is_longest(table: Seq<(Seq<Seq<char>>, u32)>, suffix: Seq<Seq<char>>)
    ensures
        match best_match(table, suffix) {
            None => forall|i: int|
                0 <= i < table.len() ==> !is_path_prefix((#[trigger] table[i]).0, suffix),
            Some((v, l)) => {
                &&& exists|i: int|
                    0 <= i < table.len() && is_path_prefix((#[trigger] table[i]).0, suffix)
                        && table[i].1 == v && table[i].0.len() == l
                &&& forall|i: int|
                    0 <= i < table.len() && is_path_prefix((#[trigger] table[i]).0, suffix)
                        ==> table[i].0.len() <= l
            },
        },
    decreases table.len(),
{
    if table.len() > 0 {
        lemma_best_match_is_longest(table.drop_last(), suffix);
        assert(forall|i: int|
            0 <= i < table.len() - 1 ==> table.drop_last()[i] == #[trigger] table[i]);
    }
}

/// The resolver prefers the longest match: with unique keys, whenever entry
/// `k` matches the suffix and no matching entry is longer, the result is
/// exactly the value of entry `k` — never the value of a shorter match and
/// never the default.
pub proof fn lemma_resolve_longest_match(
    table: Seq<(Seq<Seq<char>>, u32)>,
    suffix: Seq<Seq<char>>,
    default: Option<u32>,
    k: int,
)
    requires
        keys_unique(table),
        0 <= k < table.len(),
        is_path_prefix(table[k].0, suffix),
        forall|j: int|
            0 <= j < table.len() && is_path_prefix((#[trigger] table[j]).0, suffix) ==> table[j].0.len()
                <= table[k].0.len(),
    ensures
        resolve_spec(table, suffix, default) == Some(table[k].1),
{
    lemma_best_match_is_longest(table, suffix);
    match best_match(table, suffix) {
        None => {
            assert(!is_path_prefix(table[k].0, suffix));
        },
        Some((v, l)) => {
            let i = choose|i: int|
                0 <= i < table.len() && is_path_prefix((#[trigger] table[i]).0, suffix)
                    && table[i].1 == v && table[i].0.len() == l;
            assert(table[i].0.len() <= table[k].0.len());
            assert(table[k].0.len() <= l);
            assert(table[i].0 == suffix.take(table[i].0.len() as int));
            assert(table[k].0 == suffix.take(table[k].0.len() as int));
            assert(table[i].0 == table[k].0);
            assert(i == k);
        },
    }
}

/// When no override key matches the suffix, the resolver returns the
/// configured default — which is "none" when no default was configured.
pub proof fn lemma_resolve_no_match(
    table: Seq<(Seq<Seq<char>>, u32)>,
    suffix: Seq<Seq<char>>,
    default: Option<u32>,
)
    requires
        forall|i: int| 0 <= i < table.len() ==> !is_path_prefix((#[trigger] table[i]).0, suffix),
    ensures
        resolve_spec(table, suffix, default) == default,
{
    lemma_best_match_is_longest(table, suffix);
    match best_match(table, suffix) {
        None => {
        },
        Some((v, l)) => {
            let i = choose|i: int|
                0 <= i < table.len() && is_path_prefix((#[trigger] table[i]).0, suffix)
                    && table[i].1 == v && table[i].0.len() == l;
            assert(false);
        },
    }
}

} // verus!

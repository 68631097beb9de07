//! Path handling: splitting a slash-separated string into components,
//! projecting a relative suffix onto a root (the path projector), and
//! extracting the file name of a path.
//!
//! A relative path is modelled as an ordered sequence of non-empty name
//! components; separators never appear inside a component.

use vstd::prelude::*;

verus! {

/// The components of a slash-separated path string: maximal runs of
/// non-separator characters, in order. Empty runs (leading, trailing or
/// repeated separators) contribute no component.
pub open spec fn path_components(s: Seq<char>) -> Seq<Seq<char>>
    decreases s.len(),
{
    if s.len() == 0 {
        Seq::empty()
    } else if s[0] == '/' {
        path_components(s.skip(1))
    } else {
        let rest = path_components(s.skip(1));
        if s.len() >= 2 && s[1] != '/' {
            seq![seq![s[0]] + rest[0]] + rest.skip(1)
        } else {
            seq![seq![s[0]]] + rest
        }
    }
}

/// Splitting off a whole leading component: if the first `k` characters of
/// `s` are free of separators and a separator (or the end) follows, they form
/// the first component and the rest splits independently.
pub proof fn lemma_components_split(s: Seq<char>, k: int)
    requires
        0 < k <= s.len(),
        forall|j: int| 0 <= j < k ==> s[j] != '/',
        k == s.len() || s[k] == '/',
    ensures
        path_components(s) == seq![s.take(k)] + path_components(s.skip(k)),
    decreases k,
{
    if k == 1 {
        assert(s.take(1) =~= seq![s[0]]);
        if s.len() >= 2 && s[1] != '/' {
            assert(false);
        }
        assert(path_components(s) == seq![seq![s[0]]] + path_components(s.skip(1)));
    } else {
        let t = s.skip(1);
        assert(forall|j: int| 0 <= j < k - 1 ==> t[j] == s[j + 1] && t[j] != '/');
        assert(k - 1 == t.len() || t[k - 1] == '/');
        lemma_components_split(t, k - 1);
        let rest = path_components(t);
        assert(rest == seq![t.take(k - 1)] + path_components(t.skip(k - 1)));
        assert(rest[0] == t.take(k - 1));
        assert(seq![s[0]] + rest[0] =~= s.take(k));
        assert(rest.skip(1) =~= path_components(t.skip(k - 1)));
        assert(t.skip(k - 1) =~= s.skip(k));
    }
}

/// Split a slash-separated string into its non-empty components.
pub fn split_components(s: &str) -> (r: Vec<String>)
    ensures
        r.deep_view() == path_components(s@),
{
    let r = split_components_from(s, 0);
    proof {
        assert(s@.skip(0) =~= s@);
    }
    r
}

fn split_components_from(s: &str, pos: usize) -> (r: Vec<String>)
    requires
        pos <= s@.len(),
    ensures
        r.deep_view() == path_components(s@.skip(pos as int)),
    decreases s@.len() - pos,
{
    let n = s.unicode_len();
    if pos == n {
        let r: Vec<String> = Vec::new();
        proof {
            assert(r.deep_view() =~= path_components(s@.skip(pos as int)));
        }
        return r;
    }
    let c = s.get_char(pos);
    if c == '/' {
        let r = split_components_from(s, pos + 1);
        proof {
            assert(s@.skip(pos as int).skip(1) =~= s@.skip(pos + 1));
        }
        return r;
    }
    let mut k = pos + 1;
    while k < n && s.get_char(k) != '/'
        invariant
            pos < k <= n,
            n == s@.len(),
            forall|j: int| pos <= j < k ==> s@[j] != '/',
        decreases n - k,
    {
        k = k + 1;
    }
    let comp = s.substring_char(pos, k);
    let comp_string = String::from_str(comp);
    let mut rest = split_components_from(s, k);
    rest.insert(0, comp_string);
    proof {
        let sub = s@.skip(pos as int);
        assert(forall|j: int| 0 <= j < k - pos ==> sub[j] == s@[j + pos] && sub[j] != '/');
        assert(k - pos == sub.len() || sub[k - pos] == '/');
        lemma_components_split(sub, k - pos);
        assert(sub.take(k - pos) =~= s@.subrange(pos as int, k as int));
        assert(sub.skip(k - pos) =~= s@.skip(k as int));
        assert(rest.deep_view() =~= seq![s@.subrange(pos as int, k as int)] + path_components(
            s@.skip(k as int),
        ));
    }
    rest
}

/// The rendering of a relative suffix as a string: each component in order,
/// each preceded by one separator.
pub open spec fn rendered_suffix(suffix: Seq<Seq<char>>) -> Seq<char>
    decreases suffix.len(),
{
    if suffix.len() == 0 {
        Seq::empty()
    } else {
        rendered_suffix(suffix.drop_last()) + seq!['/'] + suffix.last()
    }
}

/// What the path projector returns: the root, then the rendered suffix.
pub open spec fn join_path(root: Seq<char>, suffix: Seq<Seq<char>>) -> Seq<char> {
    root + rendered_suffix(suffix)
}

/// Derive the absolute path of the directory or file named by `suffix`
/// relative to `root`, by joining the root with each component in order.
/// Pure; no filesystem access. Used identically for the source and the
/// destination root, so the two trees stay structurally isomorphic.
pub fn project(root: &str, suffix: &Vec<String>) -> (r: String)
    ensures
        r@ == join_path(root@, suffix.deep_view()),
{
    let mut out = String::from_str(root);
    let n = suffix.len();
    proof {
        assert(out@ =~= join_path(root@, suffix.deep_view().take(0)));
    }
    for i in 0..n
        invariant
            n == suffix@.len(),
            out@ == join_path(root@, suffix.deep_view().take(i as int)),
    {
        out.append("/");
        out.append(suffix[i].as_str());
        proof {
            reveal_strlit("/");
            assert("/"@ =~= seq!['/']);
            let sv = suffix.deep_view();
            assert(sv.take(i + 1).drop_last() =~= sv.take(i as int));
            assert(sv.take(i + 1).last() == sv[i as int]);
            assert(out@ =~= join_path(root@, sv.take(i + 1)));
        }
    }
    proof {
        assert(suffix.deep_view().take(n as int) =~= suffix.deep_view());
    }
    out
}

/// Two projections of the same suffix differ only in their root: each is its
/// own root followed by one shared rendering of the suffix. In particular,
/// the path of a produced destination file relative to the destination root
/// equals the path of its source file relative to the source root.
pub proof fn lemma_project_isomorphic(
    source_root: Seq<char>,
    dest_root: Seq<char>,
    suffix: Seq<Seq<char>>,
)
    ensures
        join_path(source_root, suffix) == source_root + rendered_suffix(suffix),
        join_path(dest_root, suffix) == dest_root + rendered_suffix(suffix),
        join_path(source_root, suffix).skip(source_root.len() as int) == join_path(
            dest_root,
            suffix,
        ).skip(dest_root.len() as int),
{
    assert(join_path(source_root, suffix).skip(source_root.len() as int) =~= rendered_suffix(
        suffix,
    ));
    assert(join_path(dest_root, suffix).skip(dest_root.len() as int) =~= rendered_suffix(suffix));
}

/// A usable path component: non-empty and free of separators.
pub open spec fn well_formed_component(c: Seq<char>) -> bool {
    c.len() > 0 && forall|j: int| 0 <= j < c.len() ==> c[j] != '/'
}

proof fn lemma_components_nonempty(s: Seq<char>)
    requires
        s.len() > 0,
        s[0] != '/',
    ensures
        path_components(s).len() >= 1,
{
}

proof fn lemma_components_append(x: Seq<char>, c: Seq<char>)
    requires
        well_formed_component(c),
    ensures
        path_components(x + seq!['/'] + c) == path_components(x).push(c),
    decreases x.len(),
{
    let y = x + seq!['/'] + c;
    if x.len() == 0 {
        assert(y.skip(1) =~= c);
        lemma_components_split(c, c.len() as int);
        assert(c.take(c.len() as int) =~= c);
        assert(c.skip(c.len() as int) =~= Seq::<char>::empty());
        assert(path_components(y) =~= path_components(x).push(c));
    } else if x[0] == '/' {
        assert(y.skip(1) =~= x.skip(1) + seq!['/'] + c);
        lemma_components_append(x.skip(1), c);
    } else if x.len() == 1 {
        assert(y.len() >= 2 && y[1] == '/');
        assert(y.skip(1) =~= seq!['/'] + c);
        assert((seq!['/'] + c).skip(1) =~= c);
        lemma_components_split(c, c.len() as int);
        assert(c.take(c.len() as int) =~= c);
        assert(c.skip(c.len() as int) =~= Seq::<char>::empty());
        assert(path_components(c.skip(c.len() as int)) == Seq::<Seq<char>>::empty());
        assert(path_components(c) == seq![c]);
        assert((seq!['/'] + c)[0] == '/');
        assert(path_components(seq!['/'] + c) == path_components(c));
        assert(path_components(y) == seq![seq![y[0]]] + seq![c]);
        assert(x.skip(1) =~= Seq::<char>::empty());
        assert(path_components(x) == seq![seq![x[0]]]);
        assert(path_components(y) =~= path_components(x).push(c));
    } else {
        assert(y.skip(1) =~= x.skip(1) + seq!['/'] + c);
        lemma_components_append(x.skip(1), c);
        let rest_x = path_components(x.skip(1));
        let rest_y = path_components(y.skip(1));
        assert(rest_y == rest_x.push(c));
        assert(y[1] == x[1]);
        if x[1] == '/' {
            assert(path_components(y) == seq![seq![y[0]]] + rest_y);
            assert(path_components(x) == seq![seq![x[0]]] + rest_x);
            assert(path_components(y) =~= path_components(x).push(c));
        } else {
            lemma_components_nonempty(x.skip(1));
            assert(rest_y[0] == rest_x[0]);
            assert(rest_y.skip(1) =~= rest_x.skip(1).push(c));
            assert(path_components(y) == seq![seq![y[0]] + rest_y[0]] + rest_y.skip(1));
            assert(path_components(x) == seq![seq![x[0]] + rest_x[0]] + rest_x.skip(1));
            assert(path_components(y) =~= path_components(x).push(c));
        }
    }
}

/// Round trip between rendering and splitting: splitting the rendering of a
/// suffix of usable components gives the components back. An override key and
/// the projection of a suffix therefore agree on one component model.
pub proof fn lemma_split_of_rendered(suffix: Seq<Seq<char>>)
    requires
        forall|i: int| 0 <= i < suffix.len() ==> well_formed_component(#[trigger] suffix[i]),
    ensures
        path_components(rendered_suffix(suffix)) == suffix,
    decreases suffix.len(),
{
    if suffix.len() == 0 {
        assert(path_components(rendered_suffix(suffix)) =~= suffix);
    } else {
        lemma_split_of_rendered(suffix.drop_last());
        lemma_components_append(rendered_suffix(suffix.drop_last()), suffix.last());
        assert(path_components(rendered_suffix(suffix)) =~= suffix);
    }
}

/// The file name of a path string: the characters after the last separator,
/// or the whole string when it has none; empty when the path ends with a
/// separator.
pub open spec fn file_name_of(p: Seq<char>) -> Seq<char>
    decreases p.len(),
{
    if p.len() == 0 {
        Seq::empty()
    } else if p.last() == '/' {
        Seq::empty()
    } else {
        file_name_of(p.drop_last()).push(p.last())
    }
}

proof fn lemma_file_name_after_slash(p: Seq<char>, k: int)
    requires
        0 <= k < p.len(),
        p[k] == '/',
        forall|j: int| k < j < p.len() ==> p[j] != '/',
    ensures
        file_name_of(p) == p.skip(k + 1),
    decreases p.len(),
{
    if k == p.len() - 1 {
        assert(p.skip(k + 1) =~= Seq::<char>::empty());
    } else {
        lemma_file_name_after_slash(p.drop_last(), k);
        assert(file_name_of(p) == p.drop_last().skip(k + 1).push(p.last()));
        assert(p.drop_last().skip(k + 1).push(p.last()) =~= p.skip(k + 1));
    }
}

proof fn lemma_file_name_no_slash(p: Seq<char>)
    requires
        forall|j: int| 0 <= j < p.len() ==> p[j] != '/',
    ensures
        file_name_of(p) == p,
    decreases p.len(),
{
    if p.len() > 0 {
        lemma_file_name_no_slash(p.drop_last());
        assert(p.drop_last().push(p.last()) =~= p);
    }
}

/// Extract the file name of a path string: everything after its last
/// separator.
pub fn file_name(p: &str) -> (r: String)
    ensures
        r@ == file_name_of(p@),
{
    let n = p.unicode_len();
    let mut k = n;
    while k > 0 && p.get_char(k - 1) != '/'
        invariant
            0 <= k <= n,
            n == p@.len(),
            forall|j: int| k <= j < n ==> p@[j] != '/',
        decreases k,
    {
        k = k - 1;
    }
    let name = p.substring_char(k, n);
    proof {
        if k == 0 {
            lemma_file_name_no_slash(p@);
            assert(p@.subrange(0, n as int) =~= p@);
        } else {
            lemma_file_name_after_slash(p@, k - 1);
            assert(p@.subrange(k as int, n as int) =~= p@.skip(k as int));
        }
    }
    String::from_str(name)
}

} // verus!

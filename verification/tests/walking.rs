use downscaler::paths::{project, split_components};
use downscaler::walk::{plan_walk, FsTree};

fn file(name: &str, rest: FsTree) -> FsTree {
    FsTree::File { name: name.to_string(), rest: Box::new(rest) }
}

fn other(name: &str, rest: FsTree) -> FsTree {
    FsTree::Other { name: name.to_string(), rest: Box::new(rest) }
}

fn dir(name: &str, entries: FsTree, rest: FsTree) -> FsTree {
    FsTree::Dir { name: name.to_string(), entries: Box::new(entries), rest: Box::new(rest) }
}

fn path(parts: &[&str]) -> Vec<String> {
    parts.iter().map(|s| s.to_string()).collect()
}

#[test]
fn selection_correctness() {
    // a.mp4, b.mkv, c.txt, d (no extension) and subdirectory e/: exactly two
    // transfers, and the walk descends into e.
    let tree = file(
        "a.mp4",
        file("b.mkv", file("c.txt", file("d", dir("e", FsTree::Nil, FsTree::Nil)))),
    );
    let plan = plan_walk(&tree, &Vec::new(), None, &Vec::new(), &Vec::new());
    assert_eq!(plan.len(), 2);
    assert_eq!(plan[0].name, "a.mp4");
    assert_eq!(plan[0].rel_dir, Vec::<String>::new());
    assert_eq!(plan[1].name, "b.mkv");

    // The descent is real: a video inside e is planned with suffix ["e"].
    let tree = file(
        "a.mp4",
        file(
            "b.mkv",
            file("c.txt", file("d", dir("e", file("f.mp4", FsTree::Nil), FsTree::Nil))),
        ),
    );
    let plan = plan_walk(&tree, &Vec::new(), None, &Vec::new(), &Vec::new());
    assert_eq!(plan.len(), 3);
    assert_eq!(plan[2].rel_dir, path(&["e"]));
    assert_eq!(plan[2].name, "f.mp4");
}

#[test]
fn skips_wrong_and_missing_extensions() {
    let tree = file(
        "notes.txt",
        file("README", file(".mp4", file("archive.mp4.bak", other("link.mp4", FsTree::Nil)))),
    );
    let plan = plan_walk(&tree, &Vec::new(), Some(480), &Vec::new(), &Vec::new());
    assert!(plan.is_empty());
}

#[test]
fn extension_is_case_sensitive() {
    let tree = file("a.MP4", file("b.mkv", FsTree::Nil));
    let plan = plan_walk(&tree, &Vec::new(), None, &Vec::new(), &Vec::new());
    assert_eq!(plan.len(), 1);
    assert_eq!(plan[0].name, "b.mkv");
}

#[test]
fn existing_destination_is_skipped() {
    let tree = file("a.mp4", file("b.mkv", FsTree::Nil));
    let existing = vec![path(&["a.mp4"])];
    let plan = plan_walk(&tree, &Vec::new(), None, &Vec::new(), &existing);
    assert_eq!(plan.len(), 1);
    assert_eq!(plan[0].name, "b.mkv");
}

#[test]
fn walk_is_idempotent() {
    // After a run that produced every planned file, a second walk over the
    // unchanged tree plans nothing: zero transform invocations.
    let tree = dir(
        "movies",
        file("a.mp4", dir("action", file("b.mkv", FsTree::Nil), FsTree::Nil)),
        file("c.mkv", FsTree::Nil),
    );
    let first = plan_walk(&tree, &Vec::new(), Some(720), &Vec::new(), &Vec::new());
    assert_eq!(first.len(), 3);
    let mut existing: Vec<Vec<String>> = Vec::new();
    for unit in &first {
        let mut rel = unit.rel_dir.clone();
        rel.push(unit.name.clone());
        existing.push(rel);
    }
    let second = plan_walk(&tree, &Vec::new(), Some(720), &Vec::new(), &existing);
    assert!(second.is_empty());
}

#[test]
fn units_carry_the_resolved_scale() {
    let tree = dir(
        "movies",
        dir("action", file("fight.mkv", FsTree::Nil), file("drama.mp4", FsTree::Nil)),
        file("home.mp4", FsTree::Nil),
    );
    let overrides = vec![(path(&["movies", "action"]), 480)];
    let plan = plan_walk(&tree, &Vec::new(), Some(720), &overrides, &Vec::new());
    assert_eq!(plan.len(), 3);
    // movies/action/fight.mkv: the override wins over the default.
    assert_eq!(plan[0].rel_dir, path(&["movies", "action"]));
    assert_eq!(plan[0].name, "fight.mkv");
    assert_eq!(plan[0].scale, Some(480));
    // movies/drama.mp4: no override matches, the default applies.
    assert_eq!(plan[1].rel_dir, path(&["movies"]));
    assert_eq!(plan[1].scale, Some(720));
    // home.mp4 at the root: the default applies.
    assert_eq!(plan[2].rel_dir, Vec::<String>::new());
    assert_eq!(plan[2].scale, Some(720));
}

#[test]
fn structural_isomorphism_of_projected_paths() {
    let tree = dir("movies", dir("action", file("fight.mkv", FsTree::Nil), FsTree::Nil), FsTree::Nil);
    let plan = plan_walk(&tree, &Vec::new(), None, &Vec::new(), &Vec::new());
    assert_eq!(plan.len(), 1);
    let mut rel = plan[0].rel_dir.clone();
    rel.push(plan[0].name.clone());
    let src = project("/srv/source", &rel);
    let dst = project("/srv/dest", &rel);
    assert_eq!(src, "/srv/source/movies/action/fight.mkv");
    assert_eq!(dst, "/srv/dest/movies/action/fight.mkv");
    // The relative path from each root is the same.
    assert_eq!(src.strip_prefix("/srv/source"), dst.strip_prefix("/srv/dest"));
}

#[test]
fn splitting_a_projection_recovers_the_components() {
    let rel = path(&["movies", "action", "fight.mkv"]);
    let joined = project("", &rel);
    assert_eq!(joined, "/movies/action/fight.mkv");
    assert_eq!(split_components(&joined), rel);
}

use downscaler::parse::parse_override;
use downscaler::paths::project;
use downscaler::walk::{plan_walk, FsTree};
use downscaler::writer::{
    staging_paths, writer_action, writer_init, writer_result, writer_step, StagingPaths,
    WriterAction, WriterError, WriterEvent, WriterState,
};

fn example_paths() -> StagingPaths {
    staging_paths("/tmp", "/srv/source/dir/clip.mp4", "/srv/dest/dir/clip.mp4")
}

#[test]
fn staging_path_derivation() {
    let p = example_paths();
    assert_eq!(p.source, "/srv/source/dir/clip.mp4");
    assert_eq!(p.dest, "/srv/dest/dir/clip.mp4");
    assert_eq!(p.temp_input, "/tmp/downscaler_input_clip.mp4");
    assert_eq!(p.temp_output, "/tmp/downscaler_output_clip.mp4");
    assert_eq!(p.working_output, "/srv/dest/dir/clip.mp4.working");
}

/// Drive the protocol, answering success to every file operation and the
/// given outcome to the transform; collect a description of each action.
fn run_protocol(p: &StagingPaths, scale: Option<u32>, transform: WriterEvent) -> (Vec<String>, WriterState) {
    let mut state = writer_init();
    let mut log: Vec<String> = Vec::new();
    while let Some(action) = writer_action(p, scale, &state) {
        let event = match &action {
            WriterAction::RemoveIfExists(path) => {
                log.push(format!("remove_if_exists {}", path));
                WriterEvent::Succeeded
            }
            WriterAction::CopyFile(from, to) => {
                log.push(format!("copy {} {}", from, to));
                WriterEvent::Succeeded
            }
            WriterAction::RunTransform(input, output, s) => {
                log.push(format!("transform {} {} {:?}", input, output, s));
                transform
            }
            WriterAction::RenameFile(from, to) => {
                log.push(format!("rename {} {}", from, to));
                WriterEvent::Succeeded
            }
            WriterAction::RemoveFile(path) => {
                log.push(format!("remove {}", path));
                WriterEvent::Succeeded
            }
        };
        state = writer_step(&state, &event);
    }
    (log, state)
}

#[test]
fn protocol_success_follows_the_documented_order() {
    let p = example_paths();
    let (log, state) = run_protocol(&p, Some(480), WriterEvent::TransformExited(0));
    assert_eq!(
        log,
        vec![
            "remove_if_exists /tmp/downscaler_input_clip.mp4".to_string(),
            "remove_if_exists /tmp/downscaler_output_clip.mp4".to_string(),
            "remove_if_exists /srv/dest/dir/clip.mp4.working".to_string(),
            "copy /srv/source/dir/clip.mp4 /tmp/downscaler_input_clip.mp4".to_string(),
            "transform /tmp/downscaler_input_clip.mp4 /tmp/downscaler_output_clip.mp4 Some(480)"
                .to_string(),
            "copy /tmp/downscaler_output_clip.mp4 /srv/dest/dir/clip.mp4.working".to_string(),
            "rename /srv/dest/dir/clip.mp4.working /srv/dest/dir/clip.mp4".to_string(),
            "remove /tmp/downscaler_input_clip.mp4".to_string(),
            "remove /tmp/downscaler_output_clip.mp4".to_string(),
        ]
    );
    assert_eq!(state, WriterState::Done);
    assert_eq!(writer_result(&state), Some(Ok(())));
}

#[test]
fn transform_failure_never_renames() {
    // A non-zero exit aborts the protocol: no rename is ever requested, so
    // nothing appears at the destination path, and the staging artifacts are
    // left in place for diagnosis.
    let p = example_paths();
    let (log, state) = run_protocol(&p, Some(480), WriterEvent::TransformExited(1));
    assert!(log.iter().all(|line| !line.starts_with("rename")));
    assert!(log.iter().all(|line| !line.starts_with("remove ")));
    assert_eq!(state, WriterState::Failed(WriterError::TransformExit(1)));
    assert_eq!(writer_result(&state), Some(Err(WriterError::TransformExit(1))));
}

#[test]
fn transform_signal_is_a_distinct_failure() {
    let p = example_paths();
    let (log, state) = run_protocol(&p, None, WriterEvent::TransformSignaled);
    assert!(log.iter().all(|line| !line.starts_with("rename")));
    assert_eq!(state, WriterState::Failed(WriterError::TransformSignal));
}

#[test]
fn rerun_after_failure_succeeds() {
    // The retry mechanism is a re-run: after a failed transform, a fresh
    // protocol run over the same paths completes and commits.
    let p = example_paths();
    let (_, state) = run_protocol(&p, Some(480), WriterEvent::TransformExited(1));
    assert!(matches!(state, WriterState::Failed(_)));
    let (log, state) = run_protocol(&p, Some(480), WriterEvent::TransformExited(0));
    assert_eq!(state, WriterState::Done);
    assert!(log.iter().any(|line| line.starts_with("rename")));
}

#[test]
fn io_failure_aborts_without_commit() {
    let p = example_paths();
    let mut state = writer_init();
    // The first cleanup step fails.
    assert!(writer_action(&p, None, &state).is_some());
    state = writer_step(&state, &WriterEvent::IoFailed);
    assert_eq!(state, WriterState::Failed(WriterError::Io));
    assert!(writer_action(&p, None, &state).is_none());
    assert_eq!(writer_result(&state), Some(Err(WriterError::Io)));
}

#[test]
fn scaling_directive_is_passed_through() {
    let p = example_paths();
    let (log, _) = run_protocol(&p, None, WriterEvent::TransformExited(0));
    assert!(log
        .iter()
        .any(|line| line.starts_with("transform") && line.ends_with("None")));
}

#[test]
fn end_to_end_example() {
    // Source tree src/movies/action/fight.mkv, override movies/action:480,
    // default 720: the effective height is 480, and the destination file
    // appears at dst/movies/action/fight.mkv only after exit code 0.
    let tree = FsTree::Dir {
        name: "movies".to_string(),
        entries: Box::new(FsTree::Dir {
            name: "action".to_string(),
            entries: Box::new(FsTree::File {
                name: "fight.mkv".to_string(),
                rest: Box::new(FsTree::Nil),
            }),
            rest: Box::new(FsTree::Nil),
        }),
        rest: Box::new(FsTree::Nil),
    };
    let overrides = vec![parse_override("movies/action:480").unwrap()];
    let plan = plan_walk(&tree, &Vec::new(), Some(720), &overrides, &Vec::new());
    assert_eq!(plan.len(), 1);
    assert_eq!(plan[0].scale, Some(480));

    let mut rel = plan[0].rel_dir.clone();
    rel.push(plan[0].name.clone());
    let source = project("src", &rel);
    let dest = project("dst", &rel);
    assert_eq!(source, "src/movies/action/fight.mkv");
    assert_eq!(dest, "dst/movies/action/fight.mkv");

    let p = staging_paths("/tmp", &source, &dest);
    let mut state = writer_init();
    let mut renamed_to_dest = false;
    let mut transform_succeeded = false;
    while let Some(action) = writer_action(&p, plan[0].scale, &state) {
        let event = match &action {
            WriterAction::RunTransform(_, _, scale) => {
                assert_eq!(*scale, Some(480));
                transform_succeeded = true;
                WriterEvent::TransformExited(0)
            }
            WriterAction::RenameFile(_, to) => {
                // The destination becomes visible here, and only after the
                // transform has already succeeded.
                assert!(transform_succeeded);
                assert_eq!(to, "dst/movies/action/fight.mkv");
                renamed_to_dest = true;
                WriterEvent::Succeeded
            }
            _ => WriterEvent::Succeeded,
        };
        state = writer_step(&state, &event);
    }
    assert!(renamed_to_dest);
    assert_eq!(writer_result(&state), Some(Ok(())));
}

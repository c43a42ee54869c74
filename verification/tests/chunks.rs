use arnis_tiles::coord::{Coord, LLBBox, LLPoint};
use arnis_tiles::paths::{progress_path, tile_dir};
use arnis_tiles::progress::{accept_progress, ProgressState, PROGRESS_VERSION};
use arnis_tiles::region::{CoreCorners, RegionRange};
use arnis_tiles::run::{Action, ChunkedRun, Event, WorldFormat};
use arnis_tiles::skeleton::{copy_world_skeleton, SkeletonStep};
use arnis_tiles::tiles::{data_bbox, split_bbox};
use std::path::{Path, PathBuf};

fn state(completed: &[(usize, usize)], failed: &[(usize, usize)]) -> ProgressState {
    ProgressState {
        version: PROGRESS_VERSION,
        total_tiles: (9, 9),
        completed: completed.to_vec(),
        failed: failed.to_vec(),
    }
}

fn copy(p: &ProgressState) -> ProgressState {
    ProgressState {
        version: p.version,
        total_tiles: p.total_tiles,
        completed: p.completed.clone(),
        failed: p.failed.clone(),
    }
}

const CORNERS: CoreCorners = CoreCorners { min_x: 0, max_x: 600, min_z: -1, max_z: 10 };

/// Answers every action with success, but for the ones that `fails` names.
fn drive(
    run: &mut ChunkedRun,
    loaded: Option<ProgressState>,
    level_exists: bool,
    fails: &dyn Fn(&Action) -> bool,
) -> Vec<Action> {
    let mut loaded = loaded;
    let mut log = Vec::new();
    loop {
        let action = run.action();
        if matches!(action, Action::Finish | Action::Abort) {
            return log;
        }
        log.push(action);
        let event = match action {
            Action::LoadProgress => Event::Loaded { progress: loaded.take(), level_exists },
            Action::LocateCore { .. } => {
                Event::Located(if fails(&action) { None } else { Some(CORNERS) })
            }
            _ if fails(&action) => Event::Failed("boom".to_string()),
            _ => Event::Done,
        };
        run.step(event);
    }
}

fn never(_: &Action) -> bool {
    false
}

fn created(log: &[Action]) -> Vec<(usize, usize)> {
    log.iter()
        .filter_map(|a| match a {
            Action::CreateTileDir { tx, tz } => Some((*tx, *tz)),
            _ => None,
        })
        .collect()
}

#[test]
fn grid_goes_row_by_row() {
    assert_eq!(split_bbox(3, 2), vec![(0, 0), (1, 0), (2, 0), (0, 1), (1, 1), (2, 1)]);
    assert_eq!(split_bbox(1, 3), vec![(0, 0), (0, 1), (0, 2)]);
    assert!(split_bbox(0, 5).is_empty());
    assert!(split_bbox(5, 0).is_empty());
}

#[test]
fn data_box_is_cut_off_at_the_edges_of_the_world() {
    let c = |v: f64| Coord { bits: v.to_bits() };
    let make = |a: f64, b: f64, d: f64, e: f64| LLBBox {
        min: LLPoint { lat: c(a), lng: c(b) },
        max: LLPoint { lat: c(d), lng: c(e) },
    };
    assert_eq!(
        data_bbox(&make(-95.0, -200.0, 95.0, 200.0)),
        make(-90.0, -180.0, 90.0, 180.0)
    );
    assert_eq!(data_bbox(&make(1.0, 2.0, 3.0, 4.0)), make(1.0, 2.0, 3.0, 4.0));
    assert_eq!(
        data_bbox(&make(f64::NAN, f64::NAN, f64::NAN, f64::NAN)),
        make(-90.0, -180.0, 90.0, 180.0)
    );
}

#[test]
fn paths_of_a_run() {
    assert_eq!(
        progress_path(Path::new("/worlds/big")),
        PathBuf::from("/worlds/big/.arnis_progress.json")
    );
    assert_eq!(progress_path(Path::new("")), PathBuf::from(".arnis_progress.json"));
    assert_eq!(tile_dir(Path::new("/worlds/big"), 3, 40), PathBuf::from("/worlds/big/.tile_3_40"));
    assert_eq!(tile_dir(Path::new("w/"), 0, 0), PathBuf::from("w/.tile_0_0"));
    assert_ne!(tile_dir(Path::new("w"), 1, 11), tile_dir(Path::new("w"), 11, 1));
    let parts: Vec<PathBuf> = tile_dir(Path::new("/a/./b"), 1, 2)
        .components()
        .map(|c| PathBuf::from(c.as_os_str()))
        .collect();
    assert_eq!(parts, ["/", "a", "b", ".tile_1_2"].map(PathBuf::from));
}

#[test]
fn completed_set_has_each_tile_once() {
    let set = state(&[(1, 2), (0, 0), (1, 2)], &[(5, 5)]).completed_set();
    assert_eq!(set.into_iter().collect::<Vec<_>>(), vec![(0, 0), (1, 2)]);
}

#[test]
fn default_progress_is_empty() {
    let p = ProgressState::default();
    assert_eq!((p.version, p.total_tiles), (0, (0, 0)));
    assert!(p.completed.is_empty() && p.failed.is_empty());
}

#[test]
fn progress_of_another_version_is_not_used() {
    assert!(accept_progress(Some(state(&[(0, 0)], &[]))).is_some());
    let mut other = state(&[(0, 0)], &[]);
    other.version = 2;
    assert!(accept_progress(Some(copy(&other))).is_none());
    assert!(accept_progress(None).is_none());

    let mut run = ChunkedRun::start(WorldFormat::JavaAnvil, 2, 1);
    let log = drive(&mut run, Some(other), true, &never);
    assert_eq!(created(&log), vec![(0, 0), (1, 0)]);
}

#[test]
fn bedrock_is_refused() {
    let run = ChunkedRun::start(WorldFormat::BedrockMcWorld, 4, 4);
    assert_eq!(run.action(), Action::Abort);
    assert_eq!(
        run.outcome(),
        Some(Err("Chunked generation is only supported for Java Edition worlds.".to_string()))
    );
}

#[test]
fn single_tile_is_generated_like_an_ordinary_world() {
    let mut run = ChunkedRun::start(WorldFormat::JavaAnvil, 1, 1);
    let log = drive(&mut run, None, false, &never);
    assert_eq!(log, vec![Action::FetchAll, Action::GenerateAll]);
    assert_eq!(run.outcome(), Some(Ok(())));

    let mut run = ChunkedRun::start(WorldFormat::JavaAnvil, 1, 1);
    drive(&mut run, None, false, &|a| *a == Action::FetchAll);
    assert_eq!(run.outcome(), Some(Err("Failed to fetch data: boom".to_string())));

    let mut run = ChunkedRun::start(WorldFormat::JavaAnvil, 1, 1);
    drive(&mut run, None, false, &|a| *a == Action::GenerateAll);
    assert_eq!(run.outcome(), Some(Err("boom".to_string())));
}

#[test]
fn tiles_are_worked_on_in_order() {
    let mut run = ChunkedRun::start(WorldFormat::JavaAnvil, 2, 1);
    assert_eq!(run.outcome(), None);
    let log = drive(&mut run, None, false, &never);
    let range = RegionRange { min_rx: 0, max_rx: 1, min_rz: -1, max_rz: 0 };
    assert_eq!(
        log,
        vec![
            Action::LoadProgress,
            Action::CreateTileDir { tx: 0, tz: 0 },
            Action::FetchTile { tx: 0, tz: 0 },
            Action::GenerateTile { tx: 0, tz: 0 },
            Action::CopySkeleton { tx: 0, tz: 0 },
            Action::LocateCore { tx: 0, tz: 0 },
            Action::MergeRegions { tx: 0, tz: 0, range },
            Action::SaveProgress,
            Action::CreateTileDir { tx: 1, tz: 0 },
            Action::FetchTile { tx: 1, tz: 0 },
            Action::GenerateTile { tx: 1, tz: 0 },
            Action::LocateCore { tx: 1, tz: 0 },
            Action::MergeRegions { tx: 1, tz: 0, range },
            Action::SaveProgress,
        ]
    );
    assert_eq!(run.outcome(), Some(Ok(())));
    assert_eq!(run.progress().version, 1);
    assert_eq!(run.progress().total_tiles, (2, 1));
    assert_eq!(run.progress().completed, vec![(0, 0), (1, 0)]);
    assert!(run.progress().failed.is_empty());
    assert!(log.len() - 1 <= 7 * 2);
}

#[test]
fn completed_tiles_are_skipped() {
    let mut run = ChunkedRun::start(WorldFormat::JavaAnvil, 2, 2);
    let loaded = state(&[(0, 0), (1, 1), (7, 7)], &[(1, 0)]);
    let log = drive(&mut run, Some(loaded), true, &never);
    assert_eq!(created(&log), vec![(1, 0), (0, 1)]);
    assert_eq!(run.progress().completed, vec![(0, 0), (1, 1), (7, 7), (1, 0), (0, 1)]);
    assert_eq!(run.progress().failed, vec![(1, 0)]);
    assert_eq!(run.progress().total_tiles, (2, 2));
}

#[test]
fn skeleton_is_copied_once_and_not_over_an_existing_one() {
    let copies = |log: &[Action]| {
        log.iter().filter(|a| matches!(a, Action::CopySkeleton { .. })).count()
    };
    let mut run = ChunkedRun::start(WorldFormat::JavaAnvil, 3, 3);
    assert_eq!(copies(&drive(&mut run, None, false, &never)), 1);
    let mut run = ChunkedRun::start(WorldFormat::JavaAnvil, 3, 3);
    assert_eq!(copies(&drive(&mut run, None, true, &never)), 0);
}

#[test]
fn skeleton_comes_from_the_first_tile_that_was_generated() {
    let mut run = ChunkedRun::start(WorldFormat::JavaAnvil, 2, 1);
    let log = drive(&mut run, None, false, &|a| *a == Action::GenerateTile { tx: 0, tz: 0 });
    assert!(log.contains(&Action::CopySkeleton { tx: 1, tz: 0 }));
    assert!(!log.contains(&Action::CopySkeleton { tx: 0, tz: 0 }));
}

#[test]
fn failed_tiles_are_recorded_and_the_run_goes_on() {
    let range = RegionRange { min_rx: 0, max_rx: 1, min_rz: -1, max_rz: 0 };
    for bad in [
        Action::FetchTile { tx: 0, tz: 0 },
        Action::GenerateTile { tx: 0, tz: 0 },
        Action::MergeRegions { tx: 0, tz: 0, range },
    ] {
        let mut run = ChunkedRun::start(WorldFormat::JavaAnvil, 2, 1);
        let log = drive(&mut run, None, true, &|a| *a == bad);
        let at = log.iter().position(|a| *a == bad).unwrap();
        assert_eq!(log[at + 1], Action::SaveProgress);
        assert_eq!(run.progress().failed, vec![(0, 0)]);
        assert_eq!(run.progress().completed, vec![(1, 0)]);
        assert_eq!(run.outcome(), Some(Ok(())));
    }
}

#[test]
fn other_failures_end_the_run() {
    for bad in [
        Action::CreateTileDir { tx: 0, tz: 0 },
        Action::CopySkeleton { tx: 0, tz: 0 },
        Action::SaveProgress,
    ] {
        let mut run = ChunkedRun::start(WorldFormat::JavaAnvil, 2, 1);
        let log = drive(&mut run, None, false, &|a| *a == bad);
        assert_eq!(*log.last().unwrap(), bad);
        assert_eq!(run.outcome(), Some(Err("boom".to_string())));
    }
}

#[test]
fn tile_without_coordinates_is_completed_without_a_merge() {
    let mut run = ChunkedRun::start(WorldFormat::JavaAnvil, 2, 1);
    let log = drive(&mut run, None, true, &|a| matches!(a, Action::LocateCore { .. }));
    assert!(!log.iter().any(|a| matches!(a, Action::MergeRegions { .. })));
    assert_eq!(run.progress().completed, vec![(0, 0), (1, 0)]);
}

#[test]
fn next_run_retries_the_failed_tiles() {
    let mut first = ChunkedRun::start(WorldFormat::JavaAnvil, 3, 1);
    drive(&mut first, None, true, &|a| *a == Action::FetchTile { tx: 1, tz: 0 });
    let mut second = ChunkedRun::start(WorldFormat::JavaAnvil, 3, 1);
    let log = drive(&mut second, Some(copy(first.progress())), true, &never);
    assert_eq!(created(&log), vec![(1, 0)]);
    let mut third = ChunkedRun::start(WorldFormat::JavaAnvil, 3, 1);
    let log = drive(&mut third, Some(copy(second.progress())), true, &never);
    assert_eq!(log, vec![Action::LoadProgress]);
    assert_eq!(third.outcome(), Some(Ok(())));
}

#[test]
fn finished_run_settles_every_tile() {
    let mut run = ChunkedRun::start(WorldFormat::JavaAnvil, 4, 3);
    drive(&mut run, Some(state(&[(2, 2)], &[])), true, &|a| {
        matches!(a, Action::GenerateTile { tx: 3, .. })
    });
    for tile in split_bbox(4, 3) {
        let done = run.progress().completed.iter().filter(|t| **t == tile).count();
        let bad = run.progress().failed.iter().filter(|t| **t == tile).count();
        assert_eq!(done + bad, 1, "{tile:?}");
    }
}

#[test]
fn tiles_are_recorded_in_grid_order() {
    let mut run = ChunkedRun::start(WorldFormat::JavaAnvil, 3, 2);
    drive(&mut run, Some(state(&[(2, 1)], &[(2, 1)])), true, &|a| {
        matches!(a, Action::FetchTile { tx: 1, .. })
    });
    assert_eq!(run.progress().completed[1..], [(0, 0), (2, 0), (0, 1)]);
    assert_eq!(run.progress().failed[1..], [(1, 0), (1, 1)]);
}

#[test]
fn grid_without_tiles_finishes_at_once() {
    let mut run = ChunkedRun::start(WorldFormat::JavaAnvil, 0, 4);
    assert_eq!(drive(&mut run, None, false, &never), vec![Action::LoadProgress]);
    assert_eq!(run.outcome(), Some(Ok(())));
}

#[test]
fn skeleton_steps() {
    assert_eq!(
        copy_world_skeleton(true, true, true),
        vec![
            SkeletonStep::CopyLevel,
            SkeletonStep::CopyIcon,
            SkeletonStep::CopyDatapacks,
            SkeletonStep::CreateRegionDir,
        ]
    );
    assert_eq!(copy_world_skeleton(false, false, false), vec![SkeletonStep::CreateRegionDir]);
    assert_eq!(
        copy_world_skeleton(false, true, false),
        vec![SkeletonStep::CopyIcon, SkeletonStep::CreateRegionDir]
    );
    let names: Vec<&str> = copy_world_skeleton(true, true, true).iter().map(|s| s.name()).collect();
    assert_eq!(names, vec!["level.dat", "icon.png", "datapacks", "region"]);
}

/// Runs over a row of three tiles until the save of number `fatal` fails, and gives back the run
/// with what the last good save wrote.
fn interrupted(fatal: usize) -> (ChunkedRun, Option<ProgressState>) {
    let mut run = ChunkedRun::start(WorldFormat::JavaAnvil, 3, 1);
    let mut saved = None;
    let mut saves = 0;
    loop {
        let event = match run.action() {
            Action::Finish | Action::Abort => return (run, saved),
            Action::LoadProgress => Event::Loaded { progress: None, level_exists: true },
            Action::LocateCore { .. } => Event::Located(None),
            Action::SaveProgress => {
                saves += 1;
                if saves == fatal {
                    Event::Failed("disk full".to_string())
                } else {
                    saved = Some(copy(run.progress()));
                    Event::Done
                }
            }
            _ => Event::Done,
        };
        run.step(event);
    }
}

#[test]
fn interrupted_run_loses_at_most_one_tile() {
    let (run, saved) = interrupted(2);
    assert_eq!(run.outcome(), Some(Err("disk full".to_string())));
    assert_eq!(run.progress().completed, vec![(0, 0), (1, 0)]);
    assert_eq!(saved.unwrap().completed, vec![(0, 0)]);
    let (run, saved) = interrupted(1);
    assert_eq!(run.progress().completed, vec![(0, 0)]);
    assert!(saved.is_none());
}

#[test]
fn saved_progress_is_taken_up() {
    let (_, saved) = interrupted(3);
    let saved = saved.unwrap();
    assert_eq!((saved.version, saved.total_tiles), (1, (3, 1)));
    let mut run = ChunkedRun::start(WorldFormat::JavaAnvil, 3, 1);
    let log = drive(&mut run, Some(saved), true, &never);
    assert_eq!(created(&log), vec![(2, 0)]);
    assert_eq!(run.progress().completed, vec![(0, 0), (1, 0), (2, 0)]);
}

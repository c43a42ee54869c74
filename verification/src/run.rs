//! A chunked run: which tile is worked on, what is done next, and what an outcome leads to.
//!
//! The run itself touches nothing outside. The caller performs the action that the run names and
//! hands back how it went.

use crate::progress::{
    accept_progress, no_progress, ProgressState, ProgressView, PROGRESS_VERSION,
};
use crate::region::{core_region_range, regions_of, CoreCorners, RegionRange};
use crate::tiles::{split_bbox, tile_grid};
use std::collections::BTreeSet;
use vstd::prelude::*;

verus! {

/// The editions that a world can be written for.
#[derive(Clone, Copy, Debug, PartialEq, Eq, Structural)]
pub enum WorldFormat {
    JavaAnvil,
    BedrockMcWorld,
}

/// What the caller has to do next.
#[derive(Clone, Copy, Debug, PartialEq, Eq, Structural)]
pub enum Action {
    /// Fetch all data at once.
    FetchAll,
    /// Generate the whole world at once.
    GenerateAll,
    /// Read the progress file, and look whether the final world has a `level.dat`.
    LoadProgress,
    /// Create the directory of a tile.
    CreateTileDir { tx: usize, tz: usize },
    /// Fetch the data inside the data box of a tile.
    FetchTile { tx: usize, tz: usize },
    /// Generate a tile into its directory.
    GenerateTile { tx: usize, tz: usize },
    /// Copy the world skeleton from the directory of a tile to the final world.
    CopySkeleton { tx: usize, tz: usize },
    /// Find the block coordinates of the corners of a tile's core.
    LocateCore { tx: usize, tz: usize },
    /// Copy the region files of a tile that lie in the range.
    MergeRegions { tx: usize, tz: usize, range: RegionRange },
    /// Write the progress file.
    SaveProgress,
    /// Nothing: the run is over, and the final world is in place.
    Finish,
    /// Nothing: the run was given up.
    Abort,
}

/// How an action went.
pub enum Event {
    Done,
    Failed(String),
    /// The answer to [`Action::LocateCore`]; `None` where the area has no coordinates.
    Located(Option<CoreCorners>),
    /// The answer to [`Action::LoadProgress`]; `None` where there is no progress to be read.
    Loaded { progress: Option<ProgressState>, level_exists: bool },
}

/// What an [`Event`] holds.
pub enum EventView {
    Done,
    Failed(Seq<char>),
    Located(Option<CoreCorners>),
    Loaded { progress: Option<ProgressView>, level_exists: bool },
}

impl View for Event {
    type V = EventView;

    open spec fn view(&self) -> EventView {
        match *self {
            Event::Done => EventView::Done,
            Event::Failed(message) => EventView::Failed(message@),
            Event::Located(corners) => EventView::Located(corners),
            Event::Loaded { progress, level_exists } => EventView::Loaded {
                progress: match progress {
                    Some(state) => Some(state@),
                    None => None,
                },
                level_exists,
            },
        }
    }
}

/// Where a run stands.
enum Stage {
    FetchAll,
    GenerateAll,
    LoadProgress,
    CreateTileDir,
    FetchTile,
    GenerateTile,
    CopySkeleton,
    LocateCore,
    MergeRegions(RegionRange),
    SaveProgress,
    Finished,
    Aborted(String),
}

/// Where a run stands, with the reason where it was given up.
pub enum StageView {
    FetchAll,
    GenerateAll,
    LoadProgress,
    CreateTileDir,
    FetchTile,
    GenerateTile,
    CopySkeleton,
    LocateCore,
    MergeRegions(RegionRange),
    SaveProgress,
    Finished,
    Aborted(Seq<char>),
}

impl View for Stage {
    type V = StageView;

    closed spec fn view(&self) -> StageView {
        match *self {
            Stage::FetchAll => StageView::FetchAll,
            Stage::GenerateAll => StageView::GenerateAll,
            Stage::LoadProgress => StageView::LoadProgress,
            Stage::CreateTileDir => StageView::CreateTileDir,
            Stage::FetchTile => StageView::FetchTile,
            Stage::GenerateTile => StageView::GenerateTile,
            Stage::CopySkeleton => StageView::CopySkeleton,
            Stage::LocateCore => StageView::LocateCore,
            Stage::MergeRegions(range) => StageView::MergeRegions(range),
            Stage::SaveProgress => StageView::SaveProgress,
            Stage::Finished => StageView::Finished,
            Stage::Aborted(message) => StageView::Aborted(message@),
        }
    }
}

/// The state of a chunked run.
pub struct ChunkedRun {
    /// The number of columns and of rows of the grid.
    size: (usize, usize),
    /// The tiles of the grid in the order in which they are worked on.
    tiles: Vec<(usize, usize)>,
    /// The place of the current tile in `tiles`.
    position: usize,
    /// The tiles that were done before the run started.
    done_before: BTreeSet<(usize, usize)>,
    progress: ProgressState,
    skeleton_created: bool,
    stage: Stage,
}

/// What a [`ChunkedRun`] holds.
#[verifier::ext_equal]
pub struct RunView {
    pub size: (usize, usize),
    pub tiles: Seq<(usize, usize)>,
    pub position: int,
    pub done_before: Set<(usize, usize)>,
    pub progress: ProgressView,
    pub skeleton_created: bool,
    pub stage: StageView,
}

impl View for ChunkedRun {
    type V = RunView;

    closed spec fn view(&self) -> RunView {
        RunView {
            size: self.size,
            tiles: self.tiles@,
            position: self.position as int,
            done_before: self.done_before@,
            progress: self.progress@,
            skeleton_created: self.skeleton_created,
            stage: self.stage@,
        }
    }
}

/// The first place from `from` on whose tile was not done before, or the number of tiles.
pub open spec fn next_open(
    tiles: Seq<(usize, usize)>,
    done_before: Set<(usize, usize)>,
    from: int,
) -> int
    decreases tiles.len() - from,
{
    if from < 0 || from >= tiles.len() {
        tiles.len() as int
    } else if done_before.contains(tiles[from]) {
        next_open(tiles, done_before, from + 1)
    } else {
        from
    }
}

impl RunView {
    /// The current tile.
    pub open spec fn tile(self) -> (usize, usize) {
        self.tiles[self.position]
    }

    /// Whether the run works on a tile.
    pub open spec fn at_tile(self) -> bool {
        match self.stage {
            StageView::CreateTileDir
            | StageView::FetchTile
            | StageView::GenerateTile
            | StageView::CopySkeleton
            | StageView::LocateCore
            | StageView::MergeRegions(_)
            | StageView::SaveProgress => true,
            _ => false,
        }
    }

    /// Whether the run is over.
    pub open spec fn over(self) -> bool {
        self.stage is Finished || self.stage is Aborted
    }

    /// What every state of a run keeps: while it works on a tile, that tile is one of the grid and
    /// was not done before.
    pub open spec fn wf(self) -> bool {
        &&& 0 <= self.position
        &&& self.at_tile() ==> self.position < self.tiles.len() && !self.done_before.contains(
            self.tile(),
        )
    }

    pub open spec fn with_stage(self, stage: StageView) -> RunView {
        RunView { stage, ..self }
    }

    /// Moves on to the first open tile from `from` on, or to the end.
    pub open spec fn enter(self, from: int) -> RunView {
        let position = next_open(self.tiles, self.done_before, from);
        RunView {
            position,
            stage: if position < self.tiles.len() {
                StageView::CreateTileDir
            } else {
                StageView::Finished
            },
            ..self
        }
    }

    /// Records that the current tile failed. The progress is then saved.
    pub open spec fn fail_tile(self) -> RunView {
        RunView {
            progress: ProgressView {
                failed: self.progress.failed.push(self.tile()),
                ..self.progress
            },
            stage: StageView::SaveProgress,
            ..self
        }
    }

    /// Records that the current tile is done. The progress is then saved.
    pub open spec fn complete_tile(self) -> RunView {
        RunView {
            progress: ProgressView {
                completed: self.progress.completed.push(self.tile()),
                ..self.progress
            },
            stage: StageView::SaveProgress,
            ..self
        }
    }

    /// What the caller has to do next.
    pub open spec fn action(self) -> Action {
        let (tx, tz) = self.tile();
        match self.stage {
            StageView::FetchAll => Action::FetchAll,
            StageView::GenerateAll => Action::GenerateAll,
            StageView::LoadProgress => Action::LoadProgress,
            StageView::CreateTileDir => Action::CreateTileDir { tx, tz },
            StageView::FetchTile => Action::FetchTile { tx, tz },
            StageView::GenerateTile => Action::GenerateTile { tx, tz },
            StageView::CopySkeleton => Action::CopySkeleton { tx, tz },
            StageView::LocateCore => Action::LocateCore { tx, tz },
            StageView::MergeRegions(range) => Action::MergeRegions { tx, tz, range },
            StageView::SaveProgress => Action::SaveProgress,
            StageView::Finished => Action::Finish,
            StageView::Aborted(_) => Action::Abort,
        }
    }

    /// Whether `event` answers the current action.
    pub open spec fn expects(self, event: EventView) -> bool {
        &&& !self.over()
        &&& self.stage is LocateCore <==> event is Located
        &&& self.stage is LoadProgress <==> event is Loaded
    }

    /// The state after the current action went as `event` says.
    pub open spec fn after(self, event: EventView) -> RunView {
        match event {
            EventView::Done => match self.stage {
                StageView::FetchAll => self.with_stage(StageView::GenerateAll),
                StageView::GenerateAll => self.with_stage(StageView::Finished),
                StageView::CreateTileDir => self.with_stage(StageView::FetchTile),
                StageView::FetchTile => self.with_stage(StageView::GenerateTile),
                StageView::GenerateTile => if self.skeleton_created {
                    self.with_stage(StageView::LocateCore)
                } else {
                    self.with_stage(StageView::CopySkeleton)
                },
                StageView::CopySkeleton => RunView {
                    skeleton_created: true,
                    stage: StageView::LocateCore,
                    ..self
                },
                StageView::MergeRegions(_) => self.complete_tile(),
                StageView::SaveProgress => self.enter(self.position + 1),
                _ => self,
            },
            EventView::Failed(message) => match self.stage {
                StageView::FetchAll => self.with_stage(
                    StageView::Aborted("Failed to fetch data: "@ + message),
                ),
                StageView::FetchTile
                | StageView::GenerateTile
                | StageView::MergeRegions(_) => self.fail_tile(),
                StageView::GenerateAll
                | StageView::CreateTileDir
                | StageView::CopySkeleton
                | StageView::SaveProgress => self.with_stage(StageView::Aborted(message)),
                _ => self,
            },
            EventView::Located(corners) => match corners {
                Some(c) => self.with_stage(StageView::MergeRegions(regions_of(c))),
                None => self.complete_tile(),
            },
            EventView::Loaded { progress, level_exists } => {
                let start = starting_progress(progress, self.size);
                RunView {
                    tiles: tile_grid(self.size.0 as nat, self.size.1 as nat),
                    done_before: start.completed.to_set(),
                    progress: start,
                    skeleton_created: level_exists,
                    ..self
                }.enter(0)
            },
        }
    }
}

/// The progress with which a run starts: what was read from a file of the right version, or
/// nothing, with the size of the grid brought up to date.
pub open spec fn starting_progress(
    loaded: Option<ProgressView>,
    size: (usize, usize),
) -> ProgressView {
    let base = match loaded {
        Some(progress) => if progress.version == PROGRESS_VERSION {
            progress
        } else {
            no_progress()
        },
        None => no_progress(),
    };
    ProgressView { version: PROGRESS_VERSION, total_tiles: size, ..base }
}

/// The state in which a run starts. A grid of one tile is generated like an ordinary world.
pub open spec fn starting_run(format: WorldFormat, size: (usize, usize)) -> RunView {
    RunView {
        size,
        tiles: Seq::empty(),
        position: 0,
        done_before: Set::empty(),
        progress: no_progress(),
        skeleton_created: false,
        stage: if format == WorldFormat::BedrockMcWorld {
            StageView::Aborted("Chunked generation is only supported for Java Edition worlds."@)
        } else if size == (1usize, 1usize) {
            StageView::FetchAll
        } else {
            StageView::LoadProgress
        },
    }
}

/// Whether a tile is in a set.
fn was_done(set: &BTreeSet<(usize, usize)>, tile: (usize, usize)) -> (r: bool)
    ensures
        r == set@.contains(tile),
{
    broadcast use vstd::laws_cmp::group_laws_cmp;
    broadcast use vstd::std_specs::btree::group_btree_axioms;

    set.contains(&tile)
}

impl ChunkedRun {
    /// Whether the run is in a state that a run can reach.
    pub open spec fn wf(self) -> bool {
        self@.wf()
    }

    /// Starts a run over a grid of `tiles_x` columns and `tiles_z` rows.
    pub fn start(format: WorldFormat, tiles_x: usize, tiles_z: usize) -> (r: ChunkedRun)
        ensures
            r@ == starting_run(format, (tiles_x, tiles_z)),
            r.wf(),
    {
        let stage = if format == WorldFormat::BedrockMcWorld {
            Stage::Aborted(
                String::from_str("Chunked generation is only supported for Java Edition worlds."),
            )
        } else if tiles_x == 1 && tiles_z == 1 {
            Stage::FetchAll
        } else {
            Stage::LoadProgress
        };
        ChunkedRun {
            size: (tiles_x, tiles_z),
            tiles: Vec::new(),
            position: 0,
            done_before: BTreeSet::new(),
            progress: ProgressState::default(),
            skeleton_created: false,
            stage,
        }
    }

    /// What to do next.
    pub fn action(&self) -> (r: Action)
        requires
            self.wf(),
        ensures
            r == self@.action(),
    {
        let (tx, tz): (usize, usize) = if self.position < self.tiles.len() {
            self.tiles[self.position]
        } else {
            (0, 0)
        };
        match &self.stage {
            Stage::FetchAll => Action::FetchAll,
            Stage::GenerateAll => Action::GenerateAll,
            Stage::LoadProgress => Action::LoadProgress,
            Stage::CreateTileDir => Action::CreateTileDir { tx, tz },
            Stage::FetchTile => Action::FetchTile { tx, tz },
            Stage::GenerateTile => Action::GenerateTile { tx, tz },
            Stage::CopySkeleton => Action::CopySkeleton { tx, tz },
            Stage::LocateCore => Action::LocateCore { tx, tz },
            Stage::MergeRegions(range) => Action::MergeRegions { tx, tz, range: *range },
            Stage::SaveProgress => Action::SaveProgress,
            Stage::Finished => Action::Finish,
            Stage::Aborted(_) => Action::Abort,
        }
    }

    /// The progress as it stands, which is what [`Action::SaveProgress`] writes.
    pub fn progress(&self) -> (r: &ProgressState)
        ensures
            r@ == self@.progress,
    {
        &self.progress
    }

    /// How the run ended, once it is over.
    pub fn outcome(&self) -> (r: Option<Result<(), String>>)
        ensures
            match self@.stage {
                StageView::Finished => r == Some(Ok::<(), String>(())),
                StageView::Aborted(message) => r matches Some(Err(text)) && text@ == message,
                _ => r is None,
            },
    {
        match &self.stage {
            Stage::Finished => Some(Ok(())),
            Stage::Aborted(message) => Some(Err(message.clone())),
            _ => None,
        }
    }

    /// Moves on to the first open tile from `from` on.
    fn enter(&mut self, from: usize)
        ensures
            final(self)@ == old(self)@.enter(from as int),
            final(self).wf(),
    {
        let mut at: usize = from;
        while at < self.tiles.len() && was_done(&self.done_before, self.tiles[at])
            invariant
                next_open(self.tiles@, self.done_before@, at as int) == next_open(
                    self.tiles@,
                    self.done_before@,
                    from as int,
                ),
                *self == *old(self),
            decreases self.tiles.len() - at,
        {
            at += 1;
        }
        if at < self.tiles.len() {
            self.position = at;
            self.stage = Stage::CreateTileDir;
        } else {
            self.position = self.tiles.len();
            self.stage = Stage::Finished;
        }
    }

    fn fail_tile(&mut self)
        requires
            old(self)@.position < old(self)@.tiles.len(),
        ensures
            final(self)@ == old(self)@.fail_tile(),
    {
        let tile = self.tiles[self.position];
        self.progress.failed.push(tile);
        self.stage = Stage::SaveProgress;
    }

    fn complete_tile(&mut self)
        requires
            old(self)@.position < old(self)@.tiles.len(),
        ensures
            final(self)@ == old(self)@.complete_tile(),
    {
        let tile = self.tiles[self.position];
        self.progress.completed.push(tile);
        self.stage = Stage::SaveProgress;
    }

    /// Takes in how the current action went.
    pub fn step(&mut self, event: Event)
        requires
            old(self).wf(),
            old(self)@.expects(event@),
        ensures
            final(self)@ == old(self)@.after(event@),
            final(self).wf(),
    {
        match event {
            Event::Done => match &self.stage {
                Stage::FetchAll => {
                    self.stage = Stage::GenerateAll;
                },
                Stage::GenerateAll => {
                    self.stage = Stage::Finished;
                },
                Stage::CreateTileDir => {
                    self.stage = Stage::FetchTile;
                },
                Stage::FetchTile => {
                    self.stage = Stage::GenerateTile;
                },
                Stage::GenerateTile => {
                    self.stage = if self.skeleton_created {
                        Stage::LocateCore
                    } else {
                        Stage::CopySkeleton
                    };
                },
                Stage::CopySkeleton => {
                    self.skeleton_created = true;
                    self.stage = Stage::LocateCore;
                },
                Stage::MergeRegions(_) => self.complete_tile(),
                Stage::SaveProgress => {
                    assert(self.position < self.tiles.len());
                    let next: usize = self.position + 1;
                    self.enter(next);
                },
                _ => (),
            },
            Event::Failed(message) => match &self.stage {
                Stage::FetchAll => {
                    let mut text = String::from_str("Failed to fetch data: ");
                    text.append(message.as_str());
                    self.stage = Stage::Aborted(text);
                },
                Stage::FetchTile | Stage::GenerateTile | Stage::MergeRegions(_) => self.fail_tile(),
                Stage::GenerateAll
                | Stage::CreateTileDir
                | Stage::CopySkeleton
                | Stage::SaveProgress => {
                    self.stage = Stage::Aborted(message);
                },
                _ => (),
            },
            Event::Located(corners) => match core_region_range(corners) {
                Some(range) => {
                    self.stage = Stage::MergeRegions(range);
                },
                None => self.complete_tile(),
            },
            Event::Loaded { progress, level_exists } => {
                let mut start = match accept_progress(progress) {
                    Some(state) => state,
                    None => ProgressState::default(),
                };
                start.version = PROGRESS_VERSION;
                start.total_tiles = self.size;
                self.done_before = start.completed_set();
                self.tiles = split_bbox(self.size.0, self.size.1);
                self.progress = start;
                self.skeleton_created = level_exists;
                self.enter(0);
            },
        }
    }
}

} // verus!

//! What a single step of a chunked run does, in every state that the run can be in.

use crate::progress::ProgressView;
use crate::region::{regions_of, CoreCorners};
use crate::run::{
    next_open, starting_run, Action, Event, EventView, RunView, StageView, WorldFormat,
};
use crate::run_laws::{answers, loaded_run, newly_completed, newly_failed, run};
use crate::tiles::{law_grid_covers_every_tile_once, law_place_of_a_tile};
use vstd::prelude::*;

verus! {

/// Every action on a tile is about the tile at the current place of the list.
pub proof fn law_action_is_about_the_current_tile(now: RunView)
    ensures
        ({
            let (tx, tz) = now.tiles[now.position];
            match now.stage {
                StageView::FetchAll => now.action() == Action::FetchAll,
                StageView::GenerateAll => now.action() == Action::GenerateAll,
                StageView::LoadProgress => now.action() == Action::LoadProgress,
                StageView::CreateTileDir => now.action() == (Action::CreateTileDir { tx, tz }),
                StageView::FetchTile => now.action() == (Action::FetchTile { tx, tz }),
                StageView::GenerateTile => now.action() == (Action::GenerateTile { tx, tz }),
                StageView::CopySkeleton => now.action() == (Action::CopySkeleton { tx, tz }),
                StageView::LocateCore => now.action() == (Action::LocateCore { tx, tz }),
                StageView::MergeRegions(range) => now.action() == (Action::MergeRegions {
                    tx,
                    tz,
                    range,
                }),
                StageView::SaveProgress => now.action() == Action::SaveProgress,
                StageView::Finished => now.action() == Action::Finish,
                StageView::Aborted(_) => now.action() == Action::Abort,
            }
        }),
{
}

/// A run that is over takes no answer. The search for the core is answered with what was found,
/// reading the progress with what was read, and every other action with success or failure.
pub proof fn law_which_answers_are_taken(now: RunView, event: EventView)
    ensures
        now.expects(event) <==> match now.stage {
            StageView::Finished => false,
            StageView::Aborted(_) => false,
            StageView::LocateCore => event is Located,
            StageView::LoadProgress => event is Loaded,
            _ => event is Done || event is Failed,
        },
{
}

/// Once the corners of a tile's core are known, whatever the tile, the regions of that tile that
/// belong to the core are merged next, and nothing is recorded before that.
pub proof fn law_located_tile_is_merged(now: RunView, corners: CoreCorners)
    requires
        now.stage is LocateCore,
    ensures
        ({
            let next = now.after(EventView::Located(Some(corners)));
            let (tx, tz) = now.tiles[now.position];
            &&& next.action() == (Action::MergeRegions { tx, tz, range: regions_of(corners) })
            &&& next.progress == now.progress
        }),
{
}

/// A tile whose every action succeeds is created, fetched, generated, searched for its core and
/// merged, in this order, with the skeleton copied before the search where there is none yet. Only
/// then is it recorded as completed, and the progress saved.
pub proof fn law_successful_tile(now: RunView, corners: CoreCorners)
    requires
        now.stage is CreateTileDir,
    ensures
        ({
            let (tx, tz) = now.tiles[now.position];
            let fetching = now.after(EventView::Done);
            let generating = fetching.after(EventView::Done);
            let generated = generating.after(EventView::Done);
            let locating = if now.skeleton_created {
                generated
            } else {
                generated.after(EventView::Done)
            };
            let merging = locating.after(EventView::Located(Some(corners)));
            let done = merging.after(EventView::Done);
            &&& now.action() == (Action::CreateTileDir { tx, tz })
            &&& fetching.action() == (Action::FetchTile { tx, tz })
            &&& generating.action() == (Action::GenerateTile { tx, tz })
            &&& !now.skeleton_created ==> generated.action() == (Action::CopySkeleton { tx, tz })
            &&& locating.action() == (Action::LocateCore { tx, tz })
            &&& merging.action() == (Action::MergeRegions {
                tx,
                tz,
                range: regions_of(corners),
            })
            &&& merging.progress == now.progress
            &&& done.action() == Action::SaveProgress
            &&& done.progress.completed == now.progress.completed.push((tx, tz))
            &&& done.progress.failed == now.progress.failed
            &&& done.progress.version == now.progress.version
            &&& done.progress.total_tiles == now.progress.total_tiles
            &&& done.skeleton_created
            &&& done.position == now.position
            &&& done.tiles == now.tiles
            &&& done.done_before == now.done_before
        }),
{
}

/// A tile that has no coordinates is completed without a merge.
pub proof fn law_tile_without_coordinates(now: RunView)
    requires
        now.stage is LocateCore,
    ensures
        ({
            let next = now.after(EventView::Located(None));
            &&& next.action() == Action::SaveProgress
            &&& next.progress.completed == now.progress.completed.push(now.tiles[now.position])
            &&& next.progress.failed == now.progress.failed
            &&& next.position == now.position
        }),
{
}

/// A tile whose data cannot be fetched, that cannot be generated or whose regions cannot be merged
/// is recorded as failed, and the run goes on by saving that.
pub proof fn law_failed_tile(now: RunView, message: Seq<char>)
    requires
        now.stage is FetchTile || now.stage is GenerateTile || now.stage is MergeRegions,
    ensures
        ({
            let next = now.after(EventView::Failed(message));
            &&& next.action() == Action::SaveProgress
            &&& next.progress.failed == now.progress.failed.push(now.tiles[now.position])
            &&& next.progress.completed == now.progress.completed
            &&& next.progress.version == now.progress.version
            &&& next.progress.total_tiles == now.progress.total_tiles
            &&& next.position == now.position
            &&& next.skeleton_created == now.skeleton_created
            &&& next.tiles == now.tiles
            &&& next.done_before == now.done_before
        }),
{
}

/// Every other failure ends the run with its message, and leaves the progress as it was.
pub proof fn law_fatal_failure(now: RunView, message: Seq<char>)
    requires
        now.expects(EventView::Failed(message)),
        !(now.stage is FetchTile) && !(now.stage is GenerateTile) && !(now.stage is MergeRegions),
    ensures
        ({
            let next = now.after(EventView::Failed(message));
            &&& next.action() == Action::Abort
            &&& next.progress == now.progress
            &&& now.stage is FetchAll ==> next.stage == StageView::Aborted(
                "Failed to fetch data: "@ + message,
            )
            &&& !(now.stage is FetchAll) ==> next.stage == StageView::Aborted(message)
        }),
{
}

/// After the progress has been saved the run goes on with the next tile of the list that was not
/// done before the run, passing over none, or ends behind the last one.
pub proof fn law_next_tile(now: RunView)
    requires
        now.stage is SaveProgress,
        0 <= now.position < now.tiles.len(),
    ensures
        ({
            let next = now.after(EventView::Done);
            &&& now.position < next.position <= now.tiles.len()
            &&& forall|i: int|
                now.position < i < next.position ==> now.done_before.contains(
                    #[trigger] now.tiles[i],
                )
            &&& next.position < now.tiles.len() ==> !now.done_before.contains(
                now.tiles[next.position],
            ) && next.action() == (Action::CreateTileDir {
                tx: now.tiles[next.position].0,
                tz: now.tiles[next.position].1,
            })
            &&& next.position == now.tiles.len() ==> next.action() == Action::Finish
            &&& next.progress == now.progress
            &&& next.tiles == now.tiles
            &&& next.done_before == now.done_before
            &&& next.size == now.size
            &&& next.skeleton_created == now.skeleton_created
        }),
{
    lemma_search(now.tiles, now.done_before, now.position + 1);
}

/// The search ends at the first open tile.
proof fn lemma_search(tiles: Seq<(usize, usize)>, done_before: Set<(usize, usize)>, from: int)
    requires
        0 <= from <= tiles.len(),
    ensures
        from <= next_open(tiles, done_before, from) <= tiles.len(),
        next_open(tiles, done_before, from) < tiles.len() ==> !done_before.contains(
            tiles[next_open(tiles, done_before, from)],
        ),
        forall|i: int|
            from <= i < next_open(tiles, done_before, from) ==> done_before.contains(
                #[trigger] tiles[i],
            ),
    decreases tiles.len() - from,
{
    if from < tiles.len() && done_before.contains(tiles[from]) {
        lemma_search(tiles, done_before, from + 1);
    }
}

/// A grid of one tile is fetched and generated at once, and then the run is over.
pub proof fn law_single_tile(now: RunView)
    ensures
        now.stage is FetchAll ==> now.after(EventView::Done).action() == Action::GenerateAll,
        now.stage is GenerateAll ==> now.after(EventView::Done).action() == Action::Finish,
        now.stage is FetchAll || now.stage is GenerateAll ==> now.after(EventView::Done).progress
            == now.progress,
{
}

/// A run for Bedrock is refused with a message. A Java run over one tile fetches everything, and
/// one over any other grid reads its progress first.
pub proof fn law_start_of_a_run(tiles_x: usize, tiles_z: usize)
    ensures
        starting_run(WorldFormat::BedrockMcWorld, (tiles_x, tiles_z)).stage == StageView::Aborted(
            "Chunked generation is only supported for Java Edition worlds."@,
        ),
        tiles_x == 1 && tiles_z == 1 <==> starting_run(
            WorldFormat::JavaAnvil,
            (tiles_x, tiles_z),
        ).action() == Action::FetchAll,
        !(tiles_x == 1 && tiles_z == 1) <==> starting_run(
            WorldFormat::JavaAnvil,
            (tiles_x, tiles_z),
        ).action() == Action::LoadProgress,
        starting_run(WorldFormat::JavaAnvil, (tiles_x, tiles_z)).size == (tiles_x, tiles_z),
{
}

/// The progress that was read is taken up where it has the right version, and otherwise the run
/// starts from nothing. The tiles are those of the grid, row by row; those that are recorded as
/// completed are passed over, and the run starts with the first of the others.
pub proof fn law_loaded_progress(
    now: RunView,
    progress: Option<ProgressView>,
    level_exists: bool,
    x: usize,
    z: usize,
)
    requires
        now.stage is LoadProgress,
        x < now.size.0,
        z < now.size.1,
    ensures
        ({
            let next = now.after(EventView::Loaded { progress, level_exists });
            let place = z * now.size.0 + x;
            &&& next.progress.version == 1
            &&& next.progress.total_tiles == now.size
            &&& match progress {
                Some(p) => if p.version == 1 {
                    next.progress.completed == p.completed && next.progress.failed == p.failed
                } else {
                    next.progress.completed.len() == 0 && next.progress.failed.len() == 0
                },
                None => next.progress.completed.len() == 0 && next.progress.failed.len() == 0,
            }
            &&& next.skeleton_created == level_exists
            &&& next.tiles.len() == now.size.0 * now.size.1
            &&& 0 <= place < next.tiles.len()
            &&& next.tiles[place] == (x, z)
            &&& next.done_before.contains((x, z)) <==> next.progress.completed.contains((x, z))
            &&& place < next.position ==> next.progress.completed.contains((x, z))
            &&& place == next.position ==> !next.progress.completed.contains((x, z))
                && next.action() == (Action::CreateTileDir { tx: x, tz: z })
            &&& next.position == next.tiles.len() <==> next.action() == Action::Finish
        }),
{
    let next = now.after(EventView::Loaded { progress, level_exists });
    law_place_of_a_tile(now.size.0, now.size.1, x, z);
    lemma_search(next.tiles, next.done_before, 0);
    let place = z * now.size.0 + x;
    if place < next.position {
        assert(next.done_before.contains(next.tiles[place]));
    }
}

/// A run over a grid without tiles is over as soon as its progress has been read.
pub proof fn law_empty_grid(now: RunView, progress: Option<ProgressView>, level_exists: bool)
    requires
        now.stage is LoadProgress,
        now.size.0 == 0 || now.size.1 == 0,
    ensures
        now.after(EventView::Loaded { progress, level_exists }).action() == Action::Finish,
{
    assert(now.size.0 * now.size.1 == 0) by (nonlinear_arith)
        requires
            now.size.0 == 0 || now.size.1 == 0,
    ;
}

/// A tile is recorded as completed only by the success of its merge, or by the news that it has no
/// coordinates, and as failed only by a failure to fetch, generate or merge it. Nothing else
/// changes the progress once it has been read.
pub proof fn law_what_changes_the_progress(now: RunView, event: EventView)
    requires
        now.expects(event),
        !(now.stage is LoadProgress),
    ensures
        ({
            let next = now.after(event);
            let tile = now.tiles[now.position];
            let completes = now.stage is MergeRegions && event is Done || now.stage is LocateCore
                && event == EventView::Located(None);
            let fails = event is Failed && (now.stage is FetchTile || now.stage is GenerateTile
                || now.stage is MergeRegions);
            &&& next.progress.version == now.progress.version
            &&& next.progress.total_tiles == now.progress.total_tiles
            &&& completes ==> next.progress.completed == now.progress.completed.push(tile)
            &&& !completes ==> next.progress.completed == now.progress.completed
            &&& fails ==> next.progress.failed == now.progress.failed.push(tile)
            &&& !fails ==> next.progress.failed == now.progress.failed
        }),
{
}

/// The list of tiles and what was done before never change. The place in the list moves only after
/// a save, and the skeleton counts as created only once it has been copied.
pub proof fn law_what_stays(now: RunView, event: EventView)
    requires
        now.expects(event),
        !(now.stage is LoadProgress),
    ensures
        ({
            let next = now.after(event);
            &&& next.size == now.size
            &&& next.tiles == now.tiles
            &&& next.done_before == now.done_before
            &&& !(now.stage is SaveProgress && event is Done) ==> next.position == now.position
            &&& next.skeleton_created <==> now.skeleton_created || now.stage is CopySkeleton
                && event is Done
        }),
{
}

/// Each stage of a tile is reached only by the success of the one before, for the same tile.
pub proof fn law_how_a_stage_is_reached(now: RunView, event: EventView)
    requires
        now.expects(event),
    ensures
        ({
            let next = now.after(event);
            &&& next.stage is FetchTile ==> now.stage is CreateTileDir && event is Done
                && next.position == now.position
            &&& next.stage is GenerateTile ==> now.stage is FetchTile && event is Done
                && next.position == now.position
            &&& next.stage is CopySkeleton ==> now.stage is GenerateTile && event is Done
                && next.position == now.position && !now.skeleton_created
            &&& next.stage is LocateCore ==> next.position == now.position && event is Done && (
            now.stage is GenerateTile && now.skeleton_created || now.stage is CopySkeleton)
            &&& next.stage matches StageView::MergeRegions(range) ==> now.stage is LocateCore
                && next.position == now.position && (event matches EventView::Located(Some(corners))
                && range == regions_of(corners))
            &&& next.stage is Finished ==> event is Done && (now.stage is GenerateAll
                || now.stage is SaveProgress) || now.stage is LoadProgress
            &&& next.stage is Aborted ==> event is Failed
        }),
{
}

/// Whether the event at `n` records `tile` as completed: it answers the merge of the tile with
/// success, or the search for its core with the news that there is none.
pub open spec fn completes(
    start: RunView,
    events: Seq<EventView>,
    n: int,
    tile: (usize, usize),
) -> bool {
    let at = run(start, events.take(n));
    &&& 0 <= n < events.len()
    &&& at.tiles[at.position] == tile
    &&& at.stage is MergeRegions && events[n] is Done || at.stage is LocateCore && events[n]
        == EventView::Located(None)
}

/// Whether the event at `n` records `tile` as failed: it answers fetching, generating or merging
/// the tile with a failure.
pub open spec fn fails(
    start: RunView,
    events: Seq<EventView>,
    n: int,
    tile: (usize, usize),
) -> bool {
    let at = run(start, events.take(n));
    &&& 0 <= n < events.len()
    &&& at.tiles[at.position] == tile
    &&& events[n] is Failed
    &&& at.stage is FetchTile || at.stage is GenerateTile || at.stage is MergeRegions
}

proof fn lemma_longer_history(start: RunView, events: Seq<EventView>, n: int, tile: (usize, usize))
    requires
        events.len() > 0,
    ensures
        completes(start, events.drop_last(), n, tile) ==> completes(start, events, n, tile),
        fails(start, events.drop_last(), n, tile) ==> fails(start, events, n, tile),
{
    if 0 <= n < events.len() - 1 {
        assert(events.drop_last().take(n) =~= events.take(n));
    }
}

/// Over a whole run, a tile is among those completed exactly where some answer completed it: no
/// tile is recorded without its regions having been merged, but for those without coordinates, and
/// no merged tile goes unrecorded. The same holds of failures.
pub proof fn law_history_of_the_records(
    size: (usize, usize),
    progress: Option<ProgressView>,
    level_exists: bool,
    events: Seq<EventView>,
    tile: (usize, usize),
)
    requires
        answers(loaded_run(size, progress, level_exists), events),
    ensures
        ({
            let start = loaded_run(size, progress, level_exists);
            let now = run(start, events);
            &&& newly_completed(start, now).contains(tile) <==> exists|n: int| #[trigger]
                completes(start, events, n, tile)
            &&& newly_failed(start, now).contains(tile) <==> exists|n: int| #[trigger]
                fails(start, events, n, tile)
        }),
    decreases events.len(),
{
    let start = loaded_run(size, progress, level_exists);
    let now = run(start, events);
    lemma_never_loading(size, progress, level_exists, events);
    if events.len() == 0 {
        assert(newly_completed(start, now) =~= Seq::empty());
        assert(newly_failed(start, now) =~= Seq::empty());
    } else {
        let n = events.len() - 1;
        let front = events.drop_last();
        let before = run(start, front);
        let event = events.last();
        assert(events.take(n) =~= front);
        law_history_of_the_records(size, progress, level_exists, front, tile);
        lemma_never_loading(size, progress, level_exists, front);
        law_what_changes_the_progress(before, event);
        let c = newly_completed(start, before);
        let f = newly_failed(start, before);
        let here = before.tiles[before.position];
        if now.progress.completed == before.progress.completed.push(here) {
            assert(newly_completed(start, now) =~= c.push(here));
        } else {
            assert(newly_completed(start, now) =~= c);
        }
        if now.progress.failed == before.progress.failed.push(here) {
            assert(newly_failed(start, now) =~= f.push(here));
        } else {
            assert(newly_failed(start, now) =~= f);
        }
        lemma_push_contains(c, here, tile);
        lemma_push_contains(f, here, tile);
        assert(completes(start, events, n, here) <==> before.stage is MergeRegions && event is Done
            || before.stage is LocateCore && event == EventView::Located(None));
        assert(fails(start, events, n, here) <==> event is Failed && (before.stage is FetchTile
            || before.stage is GenerateTile || before.stage is MergeRegions));
        assert forall|m: int| #[trigger] completes(start, events, m, tile) implies m == n
            || completes(start, front, m, tile) by {
            if m < n {
                assert(front.take(m) =~= events.take(m));
            }
        }
        assert forall|m: int| #[trigger] fails(start, events, m, tile) implies m == n || fails(
            start,
            front,
            m,
            tile,
        ) by {
            if m < n {
                assert(front.take(m) =~= events.take(m));
            }
        }
        assert forall|m: int| #[trigger] completes(start, front, m, tile) implies completes(
            start,
            events,
            m,
            tile,
        ) by {
            lemma_longer_history(start, events, m, tile);
        }
        assert forall|m: int| #[trigger] fails(start, front, m, tile) implies fails(
            start,
            events,
            m,
            tile,
        ) by {
            lemma_longer_history(start, events, m, tile);
        }
    }
}

proof fn lemma_push_contains(s: Seq<(usize, usize)>, last: (usize, usize), t: (usize, usize))
    ensures
        s.push(last).contains(t) <==> s.contains(t) || t == last,
{
    if s.contains(t) {
        let k = choose|k: int| 0 <= k < s.len() && s[k] == t;
        assert(s.push(last)[k] == t);
    }
    assert(s.push(last)[s.len() as int] == last);
}

/// A run reads its progress once, and what it records only grows.
proof fn lemma_never_loading(
    size: (usize, usize),
    progress: Option<ProgressView>,
    level_exists: bool,
    events: Seq<EventView>,
)
    requires
        answers(loaded_run(size, progress, level_exists), events),
    ensures
        ({
            let start = loaded_run(size, progress, level_exists);
            let now = run(start, events);
            &&& !(now.stage is LoadProgress)
            &&& start.progress.completed.len() <= now.progress.completed.len()
            &&& start.progress.failed.len() <= now.progress.failed.len()
        }),
    decreases events.len(),
{
    if events.len() > 0 {
        lemma_never_loading(size, progress, level_exists, events.drop_last());
    }
}

/// The tiles of a run are the tiles of its grid, each once.
pub proof fn law_tiles_of_a_run(
    size: (usize, usize),
    progress: Option<ProgressView>,
    level_exists: bool,
    tile: (usize, usize),
)
    ensures
        loaded_run(size, progress, level_exists).tiles.no_duplicates(),
        loaded_run(size, progress, level_exists).tiles.contains(tile) <==> tile.0 < size.0 && tile.1
            < size.1,
{
    law_grid_covers_every_tile_once(size.0, size.1);
}

/// What an event holds is all there is to it.
pub proof fn law_event_view_is_faithful(event: Event)
    ensures
        match event {
            Event::Done => event@ == EventView::Done,
            Event::Failed(message) => event@ == EventView::Failed(message@),
            Event::Located(corners) => event@ == EventView::Located(corners),
            Event::Loaded { progress: Some(state), level_exists } => event@ == (EventView::Loaded {
                progress: Some(state@),
                level_exists,
            }),
            Event::Loaded { progress: None, level_exists } => event@ == (EventView::Loaded {
                progress: None,
                level_exists,
            }),
        },
{
}

} // verus!

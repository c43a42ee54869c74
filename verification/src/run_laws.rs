//! What holds of a chunked run from its start to its end.

use crate::progress::{ProgressView, PROGRESS_VERSION};
use crate::run::{next_open, starting_run, EventView, RunView, StageView, WorldFormat};
use crate::tiles::{
    law_grid_covers_every_tile_once, law_grid_goes_row_by_row, precedes, tile_grid,
};
use vstd::prelude::*;

verus! {

/// The state of a run after the given events.
pub open spec fn run(start: RunView, events: Seq<EventView>) -> RunView
    decreases events.len(),
{
    if events.len() == 0 {
        start
    } else {
        run(start, events.drop_last()).after(events.last())
    }
}

/// Whether every event answers the action that the run had named.
pub open spec fn answers(start: RunView, events: Seq<EventView>) -> bool
    decreases events.len(),
{
    events.len() > 0 ==> {
        &&& answers(start, events.drop_last())
        &&& run(start, events.drop_last()).expects(events.last())
    }
}

/// The state of a run over a grid of several tiles once its progress file has been read.
pub open spec fn loaded_run(
    size: (usize, usize),
    progress: Option<ProgressView>,
    level_exists: bool,
) -> RunView {
    starting_run(WorldFormat::JavaAnvil, size).after(
        EventView::Loaded { progress, level_exists },
    )
}

/// The tiles that a run completed itself.
pub open spec fn newly_completed(start: RunView, now: RunView) -> Seq<(usize, usize)> {
    now.progress.completed.skip(start.progress.completed.len() as int)
}

/// The tiles that failed in the run.
pub open spec fn newly_failed(start: RunView, now: RunView) -> Seq<(usize, usize)> {
    now.progress.failed.skip(start.progress.failed.len() as int)
}

/// Whether the run has recorded `tile` as completed or as failed.
pub open spec fn recorded(start: RunView, now: RunView, tile: (usize, usize)) -> bool {
    newly_completed(start, now).contains(tile) || newly_failed(start, now).contains(tile)
}

/// The progress that was last written to the progress file, or with which the run started.
pub open spec fn last_saved(start: RunView, events: Seq<EventView>) -> ProgressView
    decreases events.len(),
{
    if events.len() == 0 {
        start.progress
    } else {
        let before = run(start, events.drop_last());
        if before.stage is SaveProgress && events.last() is Done {
            before.progress
        } else {
            last_saved(start, events.drop_last())
        }
    }
}

/// The place of a tile in the grid that has been settled or is about to be.
spec fn behind(now: RunView, i: int) -> bool {
    i < now.position || i == now.position && (now.stage is SaveProgress || now.stage is Aborted)
}

/// What every state of a loaded run keeps.
spec fn keeps(start: RunView, now: RunView) -> bool {
    &&& now.wf()
    &&& now.size == start.size
    &&& now.tiles == start.tiles
    &&& now.done_before == start.done_before
    &&& now.position <= now.tiles.len()
    &&& now.tiles.no_duplicates()
    &&& !(now.stage is LoadProgress) && !(now.stage is FetchAll) && !(now.stage is GenerateAll)
    &&& now.progress.version == start.progress.version
    &&& now.progress.total_tiles == start.progress.total_tiles
    &&& start.progress.completed.is_prefix_of(now.progress.completed)
    &&& start.progress.failed.is_prefix_of(now.progress.failed)
    &&& now.stage is SaveProgress ==> recorded(start, now, now.tile())
    &&& now.stage is Finished ==> now.position == now.tiles.len()
    &&& (newly_completed(start, now) + newly_failed(start, now)).no_duplicates()
    &&& forall|t: (usize, usize)| #[trigger]
        recorded(start, now, t) ==> !now.done_before.contains(t) && exists|i: int|
            0 <= i < now.tiles.len() && behind(now, i) && now.tiles[i] == t
    &&& forall|i: int|
        0 <= i < now.position && i < now.tiles.len() ==> now.done_before.contains(
            #[trigger] now.tiles[i],
        ) || recorded(start, now, now.tiles[i])
    &&& now.skeleton_created || !start.skeleton_created
    &&& now.stage is CopySkeleton ==> !now.skeleton_created
    &&& now.stage is LocateCore || now.stage is MergeRegions ==> now.skeleton_created
    &&& newly_completed(start, now).len() > 0 ==> now.skeleton_created
}

/// The search for an open tile ends at one, and passes over none.
proof fn lemma_next_open(
    tiles: Seq<(usize, usize)>,
    done_before: Set<(usize, usize)>,
    from: int,
)
    requires
        0 <= from <= tiles.len(),
    ensures
        from <= next_open(tiles, done_before, from) <= tiles.len(),
        next_open(tiles, done_before, from) < tiles.len() ==> !done_before.contains(
            tiles[next_open(tiles, done_before, from)],
        ),
        forall|i: int|
            from <= i < next_open(tiles, done_before, from) ==> done_before.contains(
                #[trigger] tiles[i],
            ),
    decreases tiles.len() - from,
{
    if from < tiles.len() && done_before.contains(tiles[from]) {
        lemma_next_open(tiles, done_before, from + 1);
    }
}

proof fn lemma_loaded_run_keeps(
    size: (usize, usize),
    progress: Option<ProgressView>,
    level_exists: bool,
)
    ensures
        keeps(
            loaded_run(size, progress, level_exists),
            loaded_run(size, progress, level_exists),
        ),
{
    let start = loaded_run(size, progress, level_exists);
    law_grid_covers_every_tile_once(size.0, size.1);
    lemma_next_open(start.tiles, start.done_before, 0);
    assert(newly_completed(start, start) =~= Seq::empty());
    assert(newly_failed(start, start) =~= Seq::empty());
}

proof fn lemma_step_keeps(start: RunView, now: RunView, event: EventView)
    requires
        keeps(start, now),
        now.expects(event),
    ensures
        keeps(start, now.after(event)),
{
    let next = now.after(event);
    let c0 = newly_completed(start, now);
    let f0 = newly_failed(start, now);
    let c1 = newly_completed(start, next);
    let f1 = newly_failed(start, next);
    if now.stage is SaveProgress && event is Done {
        lemma_next_open(now.tiles, now.done_before, now.position + 1);
        assert(next.progress == now.progress);
        assert forall|t: (usize, usize)| #[trigger]
            recorded(start, next, t) implies !next.done_before.contains(t) && exists|i: int|
            0 <= i < next.tiles.len() && behind(next, i) && next.tiles[i] == t by {
            assert(recorded(start, now, t));
            let i = choose|i: int|
                0 <= i < now.tiles.len() && behind(now, i) && now.tiles[i] == t;
            assert(behind(next, i));
        }
        assert forall|i: int|
            0 <= i < next.position && i < next.tiles.len() implies next.done_before.contains(
            #[trigger] next.tiles[i],
        ) || recorded(start, next, next.tiles[i]) by {
            if i < now.position {
                assert(now.done_before.contains(now.tiles[i]) || recorded(
                    start,
                    now,
                    now.tiles[i],
                ));
            } else if i == now.position {
                assert(recorded(start, now, now.tile()));
            }
        }
    } else if next.progress == now.progress {
        assert forall|t: (usize, usize)| #[trigger]
            recorded(start, next, t) implies !next.done_before.contains(t) && exists|i: int|
            0 <= i < next.tiles.len() && behind(next, i) && next.tiles[i] == t by {
            assert(recorded(start, now, t));
            let i = choose|i: int|
                0 <= i < now.tiles.len() && behind(now, i) && now.tiles[i] == t;
            assert(behind(next, i));
        }
        assert forall|i: int|
            0 <= i < next.position && i < next.tiles.len() implies next.done_before.contains(
            #[trigger] next.tiles[i],
        ) || recorded(start, next, next.tiles[i]) by {
            assert(now.done_before.contains(now.tiles[i]) || recorded(start, now, now.tiles[i]));
        }
    } else {
        let tile = now.tile();
        assert(!recorded(start, now, tile)) by {
            if recorded(start, now, tile) {
                let i = choose|i: int|
                    0 <= i < now.tiles.len() && behind(now, i) && now.tiles[i] == tile;
                assert(now.tiles[i] == now.tiles[now.position]);
            }
        }
        if next == now.complete_tile() {
            assert(c1 =~= c0.push(tile));
            assert(f1 =~= f0);
            assert(c1.last() == tile);
        } else {
            assert(f1 =~= f0.push(tile));
            assert(c1 =~= c0);
            assert(f1.last() == tile);
        }
        lemma_record(c0, f0, tile);
        assert forall|t: (usize, usize)| #[trigger]
            recorded(start, next, t) implies recorded(start, now, t) || t == tile by {}
        assert forall|t: (usize, usize)| #[trigger]
            recorded(start, now, t) implies recorded(start, next, t) by {
            if c0.contains(t) {
                let k = choose|k: int| 0 <= k < c0.len() && c0[k] == t;
                assert(c1[k] == t);
            } else {
                let k = choose|k: int| 0 <= k < f0.len() && f0[k] == t;
                assert(f1[k] == t);
            }
        }
        assert(recorded(start, next, tile));
        assert forall|t: (usize, usize)| #[trigger]
            recorded(start, next, t) implies !next.done_before.contains(t) && exists|i: int|
            0 <= i < next.tiles.len() && behind(next, i) && next.tiles[i] == t by {
            if recorded(start, now, t) {
                let i = choose|i: int|
                    0 <= i < now.tiles.len() && behind(now, i) && now.tiles[i] == t;
                assert(behind(next, i));
            } else {
                assert(behind(next, now.position));
            }
        }
        assert forall|i: int|
            0 <= i < next.position && i < next.tiles.len() implies next.done_before.contains(
            #[trigger] next.tiles[i],
        ) || recorded(start, next, next.tiles[i]) by {
            assert(now.done_before.contains(now.tiles[i]) || recorded(start, now, now.tiles[i]));
        }
    }
}

/// A tile that is in neither list can be added to either without a repetition.
proof fn lemma_record(c: Seq<(usize, usize)>, f: Seq<(usize, usize)>, tile: (usize, usize))
    requires
        (c + f).no_duplicates(),
        !c.contains(tile),
        !f.contains(tile),
    ensures
        (c.push(tile) + f).no_duplicates(),
        (c + f.push(tile)).no_duplicates(),
        forall|t: (usize, usize)| #[trigger]
            c.push(tile).contains(t) ==> c.contains(t) || t == tile,
        forall|t: (usize, usize)| #[trigger]
            f.push(tile).contains(t) ==> f.contains(t) || t == tile,
{
    let n = c.len();
    let all = c + f;
    let a = c.push(tile) + f;
    let b = c + f.push(tile);
    assert forall|i: int| 0 <= i < all.len() implies #[trigger] all[i] != tile by {
        if i < n {
            assert(c[i] == all[i]);
        } else {
            assert(f[i - n] == all[i]);
        }
    }
    assert forall|i: int, j: int| 0 <= i < j < a.len() implies a[i] != a[j] by {
        let x = if i <= n { i } else { i - 1 };
        let y = if j <= n { j } else { j - 1 };
        if i != n {
            assert(a[i] == all[x]);
        }
        if j != n {
            assert(a[j] == all[y]);
        }
    }
    assert(b =~= all.push(tile));
    assert forall|i: int, j: int| 0 <= i < j < b.len() implies b[i] != b[j] by {
        assert(b[i] == all[i]);
        if j < all.len() {
            assert(b[j] == all[j]);
        }
    }
}

proof fn lemma_run_keeps(start: RunView, events: Seq<EventView>)
    requires
        keeps(start, start),
        answers(start, events),
    ensures
        keeps(start, run(start, events)),
    decreases events.len(),
{
    if events.len() > 0 {
        lemma_run_keeps(start, events.drop_last());
        lemma_step_keeps(start, run(start, events.drop_last()), events.last());
    }
}

/// The lists of completed and of failed tiles only grow. No tile is recorded twice, none as both
/// completed and failed, and none that was completed before the run.
pub proof fn law_tiles_are_recorded_once(
    size: (usize, usize),
    progress: Option<ProgressView>,
    level_exists: bool,
    events: Seq<EventView>,
)
    requires
        answers(loaded_run(size, progress, level_exists), events),
    ensures
        ({
            let start = loaded_run(size, progress, level_exists);
            let now = run(start, events);
            &&& start.progress.completed.is_prefix_of(now.progress.completed)
            &&& start.progress.failed.is_prefix_of(now.progress.failed)
            &&& (newly_completed(start, now) + newly_failed(start, now)).no_duplicates()
            &&& forall|tile: (usize, usize)| #[trigger]
                recorded(start, now, tile) ==> tile.0 < size.0 && tile.1 < size.1
                    && !start.progress.completed.contains(tile)
        }),
{
    let start = loaded_run(size, progress, level_exists);
    let now = run(start, events);
    lemma_loaded_run_keeps(size, progress, level_exists);
    lemma_run_keeps(start, events);
    law_grid_covers_every_tile_once(size.0, size.1);
    assert forall|tile: (usize, usize)| #[trigger] recorded(start, now, tile) implies tile.0
        < size.0 && tile.1 < size.1 && !start.progress.completed.contains(tile) by {
        let i = choose|i: int| 0 <= i < now.tiles.len() && behind(now, i) && now.tiles[i] == tile;
        assert(tile_grid(size.0 as nat, size.1 as nat).contains(tile));
        assert(!start.progress.completed.to_set().contains(tile));
    }
}

/// Whether the tiles of a list stand in the order of the grid.
pub open spec fn in_grid_order(tiles: Seq<(usize, usize)>) -> bool {
    forall|i: int, j: int|
        0 <= i < j < tiles.len() ==> precedes(#[trigger] tiles[i], #[trigger] tiles[j])
}

/// A tile that all others of a list precede can be added to its end.
proof fn lemma_order_grows(tiles: Seq<(usize, usize)>, tile: (usize, usize))
    requires
        in_grid_order(tiles),
        forall|t: (usize, usize)| #[trigger] tiles.contains(t) ==> precedes(t, tile),
    ensures
        in_grid_order(tiles.push(tile)),
{
    let longer = tiles.push(tile);
    assert forall|i: int, j: int| 0 <= i < j < longer.len() implies precedes(
        #[trigger] longer[i],
        #[trigger] longer[j],
    ) by {
        assert(longer[i] == tiles[i]);
        if j < tiles.len() {
            assert(longer[j] == tiles[j]);
        } else {
            assert(tiles.contains(tiles[i]));
        }
    }
}

/// The tiles that a run completes, and those that fail in it, each stand in the order of the grid.
pub proof fn law_tiles_are_recorded_in_grid_order(
    size: (usize, usize),
    progress: Option<ProgressView>,
    level_exists: bool,
    events: Seq<EventView>,
)
    requires
        answers(loaded_run(size, progress, level_exists), events),
    ensures
        ({
            let start = loaded_run(size, progress, level_exists);
            let now = run(start, events);
            in_grid_order(newly_completed(start, now)) && in_grid_order(newly_failed(start, now))
        }),
    decreases events.len(),
{
    let start = loaded_run(size, progress, level_exists);
    let now = run(start, events);
    lemma_loaded_run_keeps(size, progress, level_exists);
    if events.len() > 0 {
        let before = run(start, events.drop_last());
        lemma_run_keeps(start, events.drop_last());
        law_tiles_are_recorded_in_grid_order(size, progress, level_exists, events.drop_last());
        if now.progress != before.progress {
            let tile = before.tile();
            let c = newly_completed(start, before);
            let f = newly_failed(start, before);
            assert forall|t: (usize, usize)| #[trigger] recorded(start, before, t) implies precedes(
                t,
                tile,
            ) by {
                let i = choose|i: int|
                    0 <= i < before.tiles.len() && behind(before, i) && before.tiles[i] == t;
                law_grid_goes_row_by_row(size.0, size.1, i, before.position);
            }
            assert forall|t: (usize, usize)| #[trigger] c.contains(t) implies precedes(t, tile) by {
                assert(recorded(start, before, t));
            }
            assert forall|t: (usize, usize)| #[trigger] f.contains(t) implies precedes(t, tile) by {
                assert(recorded(start, before, t));
            }
            lemma_order_grows(c, tile);
            lemma_order_grows(f, tile);
            if now == before.complete_tile() {
                assert(newly_completed(start, now) =~= c.push(tile));
                assert(newly_failed(start, now) =~= f);
            } else {
                assert(newly_failed(start, now) =~= f.push(tile));
                assert(newly_completed(start, now) =~= c);
            }
        }
    }
}

/// A run that finishes leaves no tile out: each is completed, now or in an earlier run, or failed
/// in this one, and never both.
pub proof fn law_finished_run_settles_every_tile(
    size: (usize, usize),
    progress: Option<ProgressView>,
    level_exists: bool,
    events: Seq<EventView>,
    tile: (usize, usize),
)
    requires
        answers(loaded_run(size, progress, level_exists), events),
        run(loaded_run(size, progress, level_exists), events).stage is Finished,
        tile.0 < size.0,
        tile.1 < size.1,
    ensures
        ({
            let start = loaded_run(size, progress, level_exists);
            let now = run(start, events);
            now.progress.completed.contains(tile) <==> !newly_failed(start, now).contains(tile)
        }),
{
    let start = loaded_run(size, progress, level_exists);
    let now = run(start, events);
    lemma_loaded_run_keeps(size, progress, level_exists);
    lemma_run_keeps(start, events);
    law_grid_covers_every_tile_once(size.0, size.1);
    assert(start.tiles.contains(tile));
    let i = choose|i: int| 0 <= i < start.tiles.len() && start.tiles[i] == tile;
    assert(now.done_before.contains(now.tiles[i]) || recorded(start, now, now.tiles[i]));
    let c = newly_completed(start, now);
    let f = newly_failed(start, now);
    lemma_split_contains(start.progress.completed, now.progress.completed, tile);
    if f.contains(tile) {
        assert(recorded(start, now, tile));
        assert(!start.progress.completed.to_set().contains(tile));
        if c.contains(tile) {
            let a = choose|a: int| 0 <= a < c.len() && c[a] == tile;
            let b = choose|b: int| 0 <= b < f.len() && f[b] == tile;
            assert((c + f)[a] == tile);
            assert((c + f)[c.len() + b] == tile);
        }
    }
}

/// What a longer list holds is in its front or in its rest.
proof fn lemma_split_contains(
    front: Seq<(usize, usize)>,
    all: Seq<(usize, usize)>,
    tile: (usize, usize),
)
    requires
        front.is_prefix_of(all),
    ensures
        all.contains(tile) <==> front.contains(tile) || all.skip(front.len() as int).contains(tile),
{
    let rest = all.skip(front.len() as int);
    if all.contains(tile) {
        let k = choose|k: int| 0 <= k < all.len() && all[k] == tile;
        if k < front.len() {
            assert(front[k] == tile);
        } else {
            assert(rest[k - front.len()] == tile);
        }
    }
    if front.contains(tile) {
        let k = choose|k: int| 0 <= k < front.len() && front[k] == tile;
        assert(all[k] == tile);
    }
    if rest.contains(tile) {
        let k = choose|k: int| 0 <= k < rest.len() && rest[k] == tile;
        assert(all[k + front.len()] == tile);
    }
}

/// While a tile is worked on, it is neither one that was completed before the run nor one that
/// the run has already recorded.
pub proof fn law_settled_tiles_are_not_repeated(
    size: (usize, usize),
    progress: Option<ProgressView>,
    level_exists: bool,
    events: Seq<EventView>,
)
    requires
        answers(loaded_run(size, progress, level_exists), events),
    ensures
        ({
            let start = loaded_run(size, progress, level_exists);
            let now = run(start, events);
            now.at_tile() ==> {
                &&& !start.progress.completed.contains(now.tile())
                &&& !(now.stage is SaveProgress) ==> !recorded(start, now, now.tile())
                &&& now.stage is SaveProgress ==> recorded(start, now, now.tile())
            }
        }),
{
    let start = loaded_run(size, progress, level_exists);
    let now = run(start, events);
    lemma_loaded_run_keeps(size, progress, level_exists);
    lemma_run_keeps(start, events);
    if now.at_tile() {
        assert(!start.progress.completed.to_set().contains(now.tile()));
        if !(now.stage is SaveProgress) && recorded(start, now, now.tile()) {
            let i = choose|i: int|
                0 <= i < now.tiles.len() && behind(now, i) && now.tiles[i] == now.tile();
            assert(now.tiles[i] == now.tiles[now.position]);
        }
    }
}

/// A run that starts from the progress of a finished one works on exactly the tiles that failed
/// there; where none failed it is over at once.
pub proof fn law_next_run_retries_the_failed_tiles(
    size: (usize, usize),
    progress: Option<ProgressView>,
    level_exists: bool,
    events: Seq<EventView>,
    level_exists_now: bool,
)
    requires
        answers(loaded_run(size, progress, level_exists), events),
        run(loaded_run(size, progress, level_exists), events).stage is Finished,
    ensures
        ({
            let start = loaded_run(size, progress, level_exists);
            let now = run(start, events);
            let next = loaded_run(size, Some(now.progress), level_exists_now);
            &&& next.progress == now.progress
            &&& forall|i: int|
                0 <= i < next.tiles.len() ==> (next.done_before.contains(#[trigger] next.tiles[i])
                    <==> !newly_failed(start, now).contains(next.tiles[i]))
            &&& newly_failed(start, now).len() == 0 ==> next.stage is Finished
        }),
{
    let start = loaded_run(size, progress, level_exists);
    let now = run(start, events);
    let next = loaded_run(size, Some(now.progress), level_exists_now);
    lemma_loaded_run_keeps(size, progress, level_exists);
    lemma_run_keeps(start, events);
    law_grid_covers_every_tile_once(size.0, size.1);
    assert forall|i: int| 0 <= i < next.tiles.len() implies (next.done_before.contains(
        #[trigger] next.tiles[i],
    ) <==> !newly_failed(start, now).contains(next.tiles[i])) by {
        let tile = next.tiles[i];
        assert(next.tiles.contains(tile));
        law_finished_run_settles_every_tile(size, progress, level_exists, events, tile);
        assert(next.done_before.contains(tile) <==> now.progress.completed.contains(tile));
    }
    lemma_next_open(next.tiles, next.done_before, 0);
}

/// Whenever the run works on a tile or has finished, the progress file holds what the run has
/// recorded: each change is saved before anything else is done.
pub proof fn law_every_change_is_saved_at_once(
    size: (usize, usize),
    progress: Option<ProgressView>,
    level_exists: bool,
    events: Seq<EventView>,
)
    requires
        answers(loaded_run(size, progress, level_exists), events),
    ensures
        ({
            let start = loaded_run(size, progress, level_exists);
            let now = run(start, events);
            now.stage is SaveProgress || now.stage is Aborted || now.progress == last_saved(
                start,
                events,
            )
        }),
    decreases events.len(),
{
    let start = loaded_run(size, progress, level_exists);
    if events.len() > 0 {
        lemma_loaded_run_keeps(size, progress, level_exists);
        lemma_run_keeps(start, events.drop_last());
        law_every_change_is_saved_at_once(size, progress, level_exists, events.drop_last());
    }
}

/// A run that is cut off at any point loses at most one tile: what was last saved holds all that
/// the run has recorded but for the tile recorded last.
pub proof fn law_interrupted_run_loses_at_most_one_tile(
    size: (usize, usize),
    progress: Option<ProgressView>,
    level_exists: bool,
    events: Seq<EventView>,
)
    requires
        answers(loaded_run(size, progress, level_exists), events),
    ensures
        ({
            let start = loaded_run(size, progress, level_exists);
            let now = run(start, events).progress;
            let saved = last_saved(start, events);
            &&& saved.completed.is_prefix_of(now.completed)
            &&& saved.failed.is_prefix_of(now.failed)
            &&& now.completed.len() + now.failed.len() <= saved.completed.len()
                + saved.failed.len() + 1
        }),
    decreases events.len(),
{
    let start = loaded_run(size, progress, level_exists);
    if events.len() > 0 {
        lemma_loaded_run_keeps(size, progress, level_exists);
        lemma_run_keeps(start, events.drop_last());
        law_every_change_is_saved_at_once(size, progress, level_exists, events.drop_last());
        law_interrupted_run_loses_at_most_one_tile(
            size,
            progress,
            level_exists,
            events.drop_last(),
        );
    }
}

/// Whatever a run saves, a later run over the same grid takes up as it is: it has the right
/// version and the size of the grid.
pub proof fn law_saved_progress_is_taken_up(
    size: (usize, usize),
    progress: Option<ProgressView>,
    level_exists: bool,
    events: Seq<EventView>,
    level_exists_now: bool,
)
    requires
        answers(loaded_run(size, progress, level_exists), events),
    ensures
        ({
            let saved = last_saved(loaded_run(size, progress, level_exists), events);
            &&& saved.version == PROGRESS_VERSION
            &&& saved.total_tiles == size
            &&& loaded_run(size, Some(saved), level_exists_now).progress == saved
        }),
    decreases events.len(),
{
    let start = loaded_run(size, progress, level_exists);
    lemma_loaded_run_keeps(size, progress, level_exists);
    if events.len() > 0 {
        lemma_run_keeps(start, events.drop_last());
        law_saved_progress_is_taken_up(
            size,
            progress,
            level_exists,
            events.drop_last(),
            level_exists_now,
        );
    }
}

/// The skeleton is copied at most once, not at all where the final world had one, and before the
/// regions of any tile are merged or any tile is completed.
pub proof fn law_skeleton_comes_first_and_once(
    size: (usize, usize),
    progress: Option<ProgressView>,
    level_exists: bool,
    events: Seq<EventView>,
    more: Seq<EventView>,
)
    requires
        answers(loaded_run(size, progress, level_exists), events),
        answers(run(loaded_run(size, progress, level_exists), events), more),
    ensures
        ({
            let start = loaded_run(size, progress, level_exists);
            let now = run(start, events);
            let later = run(now, more);
            &&& now.stage is MergeRegions || newly_completed(start, now).len() > 0
                ==> now.skeleton_created
            &&& now.stage is CopySkeleton ==> !level_exists
            &&& now.skeleton_created ==> later.skeleton_created && !(later.stage is CopySkeleton)
        }),
    decreases more.len(),
{
    let start = loaded_run(size, progress, level_exists);
    let now = run(start, events);
    lemma_loaded_run_keeps(size, progress, level_exists);
    lemma_run_keeps(start, events);
    if more.len() > 0 {
        law_skeleton_comes_first_and_once(size, progress, level_exists, events, more.drop_last());
        lemma_later_keeps(start, now, more.drop_last());
    }
}

proof fn lemma_later_keeps(start: RunView, now: RunView, more: Seq<EventView>)
    requires
        keeps(start, now),
        answers(now, more),
    ensures
        keeps(start, run(now, more)),
    decreases more.len(),
{
    if more.len() > 0 {
        lemma_later_keeps(start, now, more.drop_last());
        lemma_step_keeps(start, run(now, more.drop_last()), more.last());
    }
}

/// How many actions are left at most.
spec fn actions_left(now: RunView) -> int {
    let here = 7 * (now.tiles.len() - now.position);
    match now.stage {
        StageView::CreateTileDir => here,
        StageView::FetchTile => here - 1,
        StageView::GenerateTile => here - 2,
        StageView::CopySkeleton => here - 3,
        StageView::LocateCore => here - 4,
        StageView::MergeRegions(_) => here - 5,
        StageView::SaveProgress => here - 6,
        _ => 0,
    }
}

/// A run ends: there are at most seven actions for each tile of the grid.
pub proof fn law_run_ends(
    size: (usize, usize),
    progress: Option<ProgressView>,
    level_exists: bool,
    events: Seq<EventView>,
)
    requires
        answers(loaded_run(size, progress, level_exists), events),
    ensures
        events.len() <= 7 * (size.0 * size.1),
{
    lemma_loaded_run_keeps(size, progress, level_exists);
    lemma_actions_left(loaded_run(size, progress, level_exists), events);
}

proof fn lemma_actions_left(start: RunView, events: Seq<EventView>)
    requires
        keeps(start, start),
        answers(start, events),
    ensures
        0 <= actions_left(run(start, events)),
        events.len() + actions_left(run(start, events)) <= actions_left(start),
        actions_left(start) <= 7 * start.tiles.len(),
    decreases events.len(),
{
    if events.len() > 0 {
        let before = run(start, events.drop_last());
        lemma_actions_left(start, events.drop_last());
        lemma_run_keeps(start, events.drop_last());
        lemma_step_keeps(start, before, events.last());
        lemma_next_open(before.tiles, before.done_before, if before.at_tile() {
            before.position + 1
        } else {
            0
        });
    }
}

} // verus!

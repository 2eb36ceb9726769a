//! Whole runs: the engine and a driver that answers it, turn by turn.
//!
//! A `World` says what the driver finds: the bytes and the text of each
//! file, the time, and the files for which the translation backend fails.
//! `run` plays a number of turns of the engine against it and keeps track
//! of what was written to the metadata file. What holds of every such run
//! is proved here.

use crate::filter::{is_candidate, is_excluded, is_translatable};
use crate::hash::content_hash_of;
use crate::meta::{has_record, FileRecord, MetaRecord};
use crate::paths::{copy_of, law_mirror_tells_files_apart, mirror_of, CopyPlan};
use crate::sync::{
    next_state, pending_action, start_state, ActionState, EngineState, EventState, StageState,
    Summary,
};
use vstd::prelude::*;

verus! {

/// What a driver finds outside the engine.
pub struct World {
    /// The bytes of the file at a path.
    pub bytes: spec_fn(Seq<char>) -> Seq<u8>,
    /// The text of the file at a path.
    pub text: spec_fn(Seq<char>) -> Seq<char>,
    /// Whether the translation backend fails on the file at a path.
    pub fails: spec_fn(Seq<char>) -> bool,
    /// The time at which the output of the file at a path is written.
    pub clock: spec_fn(Seq<char>) -> u64,
}

/// A run part way through: the engine, and the metadata as it was written
/// last.
pub struct Run {
    pub engine: EngineState,
    pub disk: MetaRecord,
}

/// The hash of the file at `path`.
pub open spec fn hash_in(world: World, path: Seq<char>) -> Seq<char> {
    content_hash_of((world.bytes)(path))
}

/// The file at `path` is not up to date when `recorded` is what the
/// metadata holds: its hash is not recorded under its path.
pub open spec fn is_stale(world: World, recorded: Seq<FileRecord>, path: Seq<char>) -> bool {
    !has_record(recorded, path, hash_in(world, path))
}

/// The file at `path` is sent to the backend when `recorded` is what the
/// metadata holds: it is not up to date, and it is not empty.
pub open spec fn needs_translation(
    world: World,
    recorded: Seq<FileRecord>,
    path: Seq<char>,
) -> bool {
    is_stale(world, recorded, path) && (world.text)(path).len() > 0
}

/// The entry that is added for the file at `path` once its output is
/// written.
pub open spec fn entry_for(world: World, path: Seq<char>) -> FileRecord {
    FileRecord {
        path,
        hash: hash_in(world, path),
        translation_timestamp: (world.clock)(path),
    }
}

/// The entries of the metadata once the first `upto` of `files` are done
/// with, where `recorded` are the entries at the start: one more, at the
/// end, for each file that was not up to date when its turn came, be it
/// empty or not.
pub open spec fn settled(
    world: World,
    recorded: Seq<FileRecord>,
    files: Seq<Seq<char>>,
    upto: nat,
) -> Seq<FileRecord>
    decreases upto,
{
    if upto == 0 {
        recorded
    } else {
        let before = settled(world, recorded, files, (upto - 1) as nat);
        let path = files[upto - 1];
        if is_stale(world, before, path) {
            before.push(entry_for(world, path))
        } else {
            before
        }
    }
}

/// How many of the first `upto` of `files` are sent to the backend.
pub open spec fn sent(
    world: World,
    recorded: Seq<FileRecord>,
    files: Seq<Seq<char>>,
    upto: nat,
) -> nat
    decreases upto,
{
    if upto == 0 {
        0
    } else {
        let before = settled(world, recorded, files, (upto - 1) as nat);
        let earlier = sent(world, recorded, files, (upto - 1) as nat);
        if needs_translation(world, before, files[upto - 1]) {
            earlier + 1
        } else {
            earlier
        }
    }
}

/// How the driver answers `action`; `None` where it has no answer: the
/// backend failed, or the run is over.
pub open spec fn answer(world: World, action: ActionState) -> Option<EventState> {
    match action {
        ActionState::ReadBytes { path } => Some(EventState::Bytes((world.bytes)(path))),
        ActionState::ReadText { path, directory } => Some(EventState::Text((world.text)(path))),
        ActionState::WriteEmpty { path, output_path } => Some(
            EventState::Written { now: (world.clock)(path) },
        ),
        ActionState::Translate { path, prompt, output_path } => if (world.fails)(path) {
            None
        } else {
            Some(EventState::Translated { now: (world.clock)(path) })
        },
        ActionState::Persist { meta } => Some(EventState::Persisted),
        ActionState::Finish { summary } => None,
    }
}

/// One turn: the driver does what the engine asks and the engine takes the
/// answer in. What the driver is asked to write, it writes: after a turn
/// that began with a request to write the metadata, the disk holds the
/// metadata of that request. Where the driver has no answer the run stays
/// as it is.
pub open spec fn turn(world: World, r: Run) -> Run {
    let action = pending_action(r.engine);
    match answer(world, action) {
        None => r,
        Some(event) => match next_state(r.engine, event) {
            None => r,
            Some(next) => Run {
                engine: next,
                disk: match action {
                    ActionState::Persist { meta } => meta,
                    _ => r.disk,
                },
            },
        },
    }
}

/// The run `r` after `turns` turns.
pub open spec fn run(world: World, r: Run, turns: nat) -> Run
    decreases turns,
{
    if turns == 0 {
        r
    } else {
        turn(world, run(world, r, (turns - 1) as nat))
    }
}

/// The run has come to a halt: it is over, or the backend failed.
pub open spec fn halted(world: World, e: EngineState) -> bool {
    e.stage is Done || (e.stage is Translate && (world.fails)(e.current()))
}

/// How far a run has come: four for each file done with, and the place of
/// the stage in the handling of a file.
pub open spec fn progress(e: EngineState) -> nat {
    4 * e.cursor + match e.stage {
        StageState::Hash => 0nat,
        StageState::Load { hash } => 1nat,
        StageState::Blank { hash } => 2nat,
        StageState::Translate { hash, text } => 2nat,
        StageState::Persist { translated } => 3nat,
        StageState::Close => 0nat,
        StageState::Done => 1nat,
    }
}

/// What holds of a run over `files` that began with the entries `first` in
/// the metadata and on disk.
pub open spec fn on_track(
    world: World,
    first: Seq<FileRecord>,
    files: Seq<Seq<char>>,
    r: Run,
) -> bool {
    let e = r.engine;
    let before = settled(world, first, files, e.cursor);
    &&& e.well_formed()
    &&& e.files == files
    &&& r.disk.files == before
    &&& e.up_to_date + sent(world, first, files, e.cursor) == e.cursor
    &&& match e.stage {
        StageState::Hash => e.meta.files == before,
        StageState::Load { hash } => {
            &&& e.meta.files == before
            &&& hash == hash_in(world, e.current())
            &&& is_stale(world, before, e.current())
        },
        StageState::Blank { hash } => {
            &&& e.meta.files == before
            &&& hash == hash_in(world, e.current())
            &&& is_stale(world, before, e.current())
            &&& (world.text)(e.current()).len() == 0
        },
        StageState::Translate { hash, text } => {
            &&& e.meta.files == before
            &&& hash == hash_in(world, e.current())
            &&& needs_translation(world, before, e.current())
        },
        StageState::Persist { translated } => {
            &&& e.meta.files == before.push(entry_for(world, e.current()))
            &&& is_stale(world, before, e.current())
            &&& translated == ((world.text)(e.current()).len() > 0)
        },
        StageState::Close => e.meta.files == before,
        StageState::Done => e.meta.files == before && r.disk == e.meta,
    }
}

/// The run in which the engine begins.
pub open spec fn start_run(
    meta: MetaRecord,
    commit: Seq<char>,
    files: Seq<Seq<char>>,
    source_root: Seq<char>,
    output_root: Seq<char>,
) -> Run {
    Run { engine: start_state(meta, commit, files, source_root, output_root), disk: meta }
}

/// A turn keeps a run on track.
proof fn lemma_turn_on_track(world: World, first: Seq<FileRecord>, files: Seq<Seq<char>>, r: Run)
    requires
        on_track(world, first, files, r),
    ensures
        on_track(world, first, files, turn(world, r)),
{
    let e = r.engine;
    let c = e.cursor;
    if c < files.len() {
        let before = settled(world, first, files, c);
        assert(settled(world, first, files, c + 1) == if is_stale(world, before, files[c as int]) {
            before.push(entry_for(world, files[c as int]))
        } else {
            before
        });
        assert(sent(world, first, files, c + 1) == if needs_translation(
            world,
            before,
            files[c as int],
        ) {
            sent(world, first, files, c) + 1
        } else {
            sent(world, first, files, c)
        });
    }
}

/// Every run is on track from its first turn to its last.
proof fn lemma_run_on_track(
    world: World,
    first: Seq<FileRecord>,
    files: Seq<Seq<char>>,
    r: Run,
    turns: nat,
)
    requires
        on_track(world, first, files, r),
    ensures
        on_track(world, first, files, run(world, r, turns)),
    decreases turns,
{
    if turns > 0 {
        lemma_run_on_track(world, first, files, r, (turns - 1) as nat);
        lemma_turn_on_track(world, first, files, run(world, r, (turns - 1) as nat));
    }
}

/// A run begins on track, and stays there.
proof fn lemma_on_track(
    world: World,
    meta: MetaRecord,
    commit: Seq<char>,
    files: Seq<Seq<char>>,
    source_root: Seq<char>,
    output_root: Seq<char>,
    turns: nat,
)
    requires
        files.len() <= usize::MAX,
    ensures
        on_track(
            world,
            meta.files,
            files,
            run(world, start_run(meta, commit, files, source_root, output_root), turns),
        ),
{
    let start = start_run(meta, commit, files, source_root, output_root);
    assert(on_track(world, meta.files, files, start));
    lemma_run_on_track(world, meta.files, files, start, turns);
}

/// A turn of a run that has not halted brings it further.
proof fn lemma_turn_progress(world: World, r: Run)
    requires
        r.engine.well_formed(),
    ensures
        halted(world, r.engine) ==> turn(world, r) == r,
        !halted(world, r.engine) ==> progress(turn(world, r).engine) > progress(r.engine),
        turn(world, r).engine.well_formed(),
        progress(r.engine) <= 4 * r.engine.files.len() + 1,
{
}

/// After `turns` turns a run has halted or made as much progress.
proof fn lemma_run_progress(world: World, r: Run, turns: nat)
    requires
        r.engine.well_formed(),
    ensures
        run(world, r, turns).engine.well_formed(),
        run(world, r, turns).engine.files == r.engine.files,
        halted(world, run(world, r, turns).engine) || progress(run(world, r, turns).engine)
            >= turns,
    decreases turns,
{
    if turns > 0 {
        let before = run(world, r, (turns - 1) as nat);
        lemma_run_progress(world, r, (turns - 1) as nat);
        lemma_turn_progress(world, before);
    }
}

/// An entry that is recorded stays recorded when another is added, and
/// the one that is added is recorded with it.
proof fn lemma_record_stays(
    recorded: Seq<FileRecord>,
    entry: FileRecord,
    path: Seq<char>,
    hash: Seq<char>,
)
    ensures
        has_record(recorded, path, hash) ==> has_record(recorded.push(entry), path, hash),
        has_record(recorded.push(entry), entry.path, entry.hash),
        has_record(recorded.push(entry), path, hash) ==> has_record(recorded, path, hash) || (
        entry.path == path && entry.hash == hash),
{
    let longer = recorded.push(entry);
    if has_record(recorded, path, hash) {
        let i = choose|i: int|
            0 <= i < recorded.len() && (#[trigger] recorded[i]).path == path && recorded[i].hash
                == hash;
        assert(longer[i] == recorded[i]);
    }
    assert(longer[recorded.len() as int] == entry);
    if has_record(longer, path, hash) {
        let i = choose|i: int|
            0 <= i < longer.len() && (#[trigger] longer[i]).path == path && longer[i].hash == hash;
        if i < recorded.len() {
            assert(recorded[i] == longer[i]);
        }
    }
}

/// What is recorded once some files are done with is still recorded once
/// more of them are.
proof fn lemma_settled_keeps(
    world: World,
    recorded: Seq<FileRecord>,
    files: Seq<Seq<char>>,
    sooner: nat,
    later: nat,
    path: Seq<char>,
    hash: Seq<char>,
)
    requires
        sooner <= later,
        has_record(settled(world, recorded, files, sooner), path, hash),
    ensures
        has_record(settled(world, recorded, files, later), path, hash),
    decreases later,
{
    if sooner < later {
        lemma_settled_keeps(world, recorded, files, sooner, (later - 1) as nat, path, hash);
        let before = settled(world, recorded, files, (later - 1) as nat);
        lemma_record_stays(before, entry_for(world, files[later - 1]), path, hash);
    }
}

/// Once a file is done with, its hash is recorded under its path.
proof fn lemma_settled_covers(
    world: World,
    recorded: Seq<FileRecord>,
    files: Seq<Seq<char>>,
    upto: nat,
    j: int,
)
    requires
        0 <= j < upto,
    ensures
        !is_stale(world, settled(world, recorded, files, upto), files[j]),
{
    let path = files[j];
    let before = settled(world, recorded, files, j as nat);
    let after = settled(world, recorded, files, (j + 1) as nat);
    lemma_record_stays(before, entry_for(world, path), path, hash_in(world, path));
    assert(has_record(after, path, hash_in(world, path)));
    lemma_settled_keeps(world, recorded, files, (j + 1) as nat, upto, path, hash_in(world, path));
}

/// Where every file is up to date, nothing is added and nothing is sent.
proof fn lemma_settled_unchanged(
    world: World,
    recorded: Seq<FileRecord>,
    files: Seq<Seq<char>>,
    upto: nat,
)
    requires
        forall|j: int| 0 <= j < upto ==> !is_stale(world, recorded, #[trigger] files[j]),
    ensures
        settled(world, recorded, files, upto) == recorded,
        sent(world, recorded, files, upto) == 0,
    decreases upto,
{
    if upto > 0 {
        lemma_settled_unchanged(world, recorded, files, (upto - 1) as nat);
        assert(!is_stale(world, recorded, files[upto - 1]));
    }
}

/// The entries at the start stay where they are, and each entry after
/// them is the entry of one of the files done with.
proof fn lemma_settled_extends(
    world: World,
    recorded: Seq<FileRecord>,
    files: Seq<Seq<char>>,
    upto: nat,
)
    ensures
        recorded.len() <= settled(world, recorded, files, upto).len(),
        settled(world, recorded, files, upto).take(recorded.len() as int) == recorded,
        forall|k: int|
            recorded.len() <= k < settled(world, recorded, files, upto).len() ==> exists|j: int|
                0 <= j < upto && #[trigger] settled(world, recorded, files, upto)[k] == entry_for(
                    world,
                    #[trigger] files[j],
                ),
    decreases upto,
{
    let now = settled(world, recorded, files, upto);
    if upto == 0 {
        assert(now.take(recorded.len() as int) =~= recorded);
    } else {
        let before = settled(world, recorded, files, (upto - 1) as nat);
        lemma_settled_extends(world, recorded, files, (upto - 1) as nat);
        assert(now.take(recorded.len() as int) =~= before.take(recorded.len() as int));
        assert forall|k: int| recorded.len() <= k < now.len() implies exists|j: int|
            0 <= j < upto && #[trigger] now[k] == entry_for(world, #[trigger] files[j]) by {
            if k < before.len() {
                let j = choose|j: int|
                    0 <= j < upto - 1 && #[trigger] before[k] == entry_for(
                        world,
                        #[trigger] files[j],
                    );
                assert(now[k] == entry_for(world, files[j]));
            } else {
                assert(now[k] == entry_for(world, files[upto - 1]));
            }
        }
    }
}

/// A run in which the backend never fails comes to its end: after four
/// turns for each file and two more, the engine has nothing left to ask.
pub proof fn law_run_ends(
    world: World,
    meta: MetaRecord,
    commit: Seq<char>,
    files: Seq<Seq<char>>,
    source_root: Seq<char>,
    output_root: Seq<char>,
    turns: nat,
)
    requires
        files.len() <= usize::MAX,
        forall|i: int| 0 <= i < files.len() ==> !(world.fails)(#[trigger] files[i]),
        turns >= 4 * files.len() + 2,
    ensures
        run(world, start_run(meta, commit, files, source_root, output_root), turns).engine.stage
            is Done,
{
    let start = start_run(meta, commit, files, source_root, output_root);
    lemma_run_progress(world, start, turns);
    let end = run(world, start, turns);
    lemma_turn_progress(world, end);
}

/// The metadata on disk holds an entry for each file whose output was
/// written, and no more. After any number of turns, the entries on disk are
/// those that the run found there and one for each file done with that was
/// not up to date, in the order of the files. The engine holds one entry
/// more only while it waits for the metadata to be written: the entry of a
/// file reaches the disk before the next file is touched.
pub proof fn law_disk_follows_entries(
    world: World,
    meta: MetaRecord,
    commit: Seq<char>,
    files: Seq<Seq<char>>,
    source_root: Seq<char>,
    output_root: Seq<char>,
    turns: nat,
)
    requires
        files.len() <= usize::MAX,
    ensures
        ({
            let r = run(world, start_run(meta, commit, files, source_root, output_root), turns);
            &&& r.disk.files == settled(world, meta.files, files, r.engine.cursor)
            &&& !(r.engine.stage is Persist) ==> r.engine.meta.files == r.disk.files
            &&& r.engine.stage is Persist ==> r.engine.meta.files == r.disk.files.push(
                entry_for(world, r.engine.current()),
            )
            &&& r.engine.stage is Done ==> r.disk == r.engine.meta
        }),
{
    lemma_on_track(world, meta, commit, files, source_root, output_root, turns);
}

/// Every file that a run is done with is recorded, the empty ones too:
/// the metadata on disk holds an entry with its path and the hash of its
/// bytes. At the end of a run that is so of every file.
pub proof fn law_every_file_done_is_recorded(
    world: World,
    meta: MetaRecord,
    commit: Seq<char>,
    files: Seq<Seq<char>>,
    source_root: Seq<char>,
    output_root: Seq<char>,
    turns: nat,
    j: int,
)
    requires
        files.len() <= usize::MAX,
        0 <= j < run(
            world,
            start_run(meta, commit, files, source_root, output_root),
            turns,
        ).engine.cursor,
    ensures
        ({
            let r = run(world, start_run(meta, commit, files, source_root, output_root), turns);
            &&& has_record(r.disk.files, files[j], content_hash_of((world.bytes)(files[j])))
            &&& r.engine.stage is Done ==> r.engine.cursor == files.len()
        }),
{
    lemma_on_track(world, meta, commit, files, source_root, output_root, turns);
    let r = run(world, start_run(meta, commit, files, source_root, output_root), turns);
    lemma_settled_covers(world, meta.files, files, r.engine.cursor, j);
}

/// A run adds entries for its own files only, and takes none away: the
/// entries that it found stay at the front, and each entry after them
/// bears the path of one of the files of the run, the hash of that file's
/// bytes and the time at which its output was written. A file that is
/// copied and not handed to the engine gets no entry.
pub proof fn law_entries_are_of_the_files(
    world: World,
    meta: MetaRecord,
    commit: Seq<char>,
    files: Seq<Seq<char>>,
    source_root: Seq<char>,
    output_root: Seq<char>,
    turns: nat,
    k: int,
)
    requires
        files.len() <= usize::MAX,
        0 <= k < run(
            world,
            start_run(meta, commit, files, source_root, output_root),
            turns,
        ).engine.meta.files.len(),
    ensures
        ({
            let r = run(world, start_run(meta, commit, files, source_root, output_root), turns);
            let entry = r.engine.meta.files[k];
            &&& meta.files.len() <= r.engine.meta.files.len()
            &&& k < meta.files.len() ==> entry == meta.files[k]
            &&& k >= meta.files.len() ==> files.contains(entry.path) && entry == entry_for(
                world,
                entry.path,
            )
        }),
{
    lemma_on_track(world, meta, commit, files, source_root, output_root, turns);
    let r = run(world, start_run(meta, commit, files, source_root, output_root), turns);
    let c = r.engine.cursor;
    let before = settled(world, meta.files, files, c);
    lemma_settled_extends(world, meta.files, files, c);
    let entry = r.engine.meta.files[k];
    if k < meta.files.len() {
        assert(before.take(meta.files.len() as int)[k] == before[k]);
    } else if k < before.len() {
        let j = choose|j: int|
            0 <= j < c && #[trigger] before[k] == entry_for(world, #[trigger] files[j]);
        assert(files[j] == entry.path);
    } else {
        assert(entry == entry_for(world, files[c as int]));
        assert(files[c as int] == entry.path);
    }
}

/// Where the backend fails on one file, the work done before it is kept.
/// Let the file at index `failing` be the first on which the backend fails,
/// and let it be one that is sent there. Then the run halts at that file,
/// waiting for the backend, and the metadata on disk holds the entries that
/// the run found and one for each file whose output was written before, and
/// nothing else.
pub proof fn law_failed_call_keeps_finished_work(
    world: World,
    meta: MetaRecord,
    commit: Seq<char>,
    files: Seq<Seq<char>>,
    source_root: Seq<char>,
    output_root: Seq<char>,
    failing: nat,
    turns: nat,
)
    requires
        files.len() <= usize::MAX,
        failing < files.len(),
        (world.fails)(files[failing as int]),
        forall|j: int| 0 <= j < failing ==> !(world.fails)(#[trigger] files[j]),
        needs_translation(
            world,
            settled(world, meta.files, files, failing),
            files[failing as int],
        ),
        turns >= 4 * failing + 3,
    ensures
        ({
            let r = run(world, start_run(meta, commit, files, source_root, output_root), turns);
            &&& r.engine.cursor == failing
            &&& r.engine.stage is Translate
            &&& r.disk.files == settled(world, meta.files, files, failing)
            &&& r.engine.meta.files == r.disk.files
        }),
{
    let start = start_run(meta, commit, files, source_root, output_root);
    lemma_on_track(world, meta, commit, files, source_root, output_root, 0);
    lemma_halts_at_failing(world, meta.files, files, start, failing, turns);
    lemma_run_on_track(world, meta.files, files, start, turns);
    lemma_run_progress(world, start, turns);
}

/// The run has not gone past the file at index `failing`.
pub open spec fn held_at(e: EngineState, failing: nat) -> bool {
    e.cursor < failing || (e.cursor == failing && (e.stage is Hash || e.stage is Load
        || e.stage is Translate))
}

/// A run does not go past a file that is sent to the backend where the
/// backend fails on it.
proof fn lemma_halts_at_failing(
    world: World,
    first: Seq<FileRecord>,
    files: Seq<Seq<char>>,
    r: Run,
    failing: nat,
    turns: nat,
)
    requires
        on_track(world, first, files, r),
        held_at(r.engine, failing),
        failing < files.len(),
        (world.fails)(files[failing as int]),
        needs_translation(world, settled(world, first, files, failing), files[failing as int]),
    ensures
        held_at(run(world, r, turns).engine, failing),
    decreases turns,
{
    if turns > 0 {
        let before = run(world, r, (turns - 1) as nat);
        lemma_halts_at_failing(world, first, files, r, failing, (turns - 1) as nat);
        lemma_run_on_track(world, first, files, r, (turns - 1) as nat);
        lemma_turn_on_track(world, first, files, before);
    }
}

/// A second run over unchanged files does nothing anew. Let a first run
/// have come to its end, and let a second run begin with the metadata that
/// the first left on disk, over the same files with the same content. Then
/// the second run never asks for a translation nor for an output to be
/// written, adds no entry, and counts every file that it has done with as
/// up to date.
pub proof fn law_second_run_translates_nothing(
    world: World,
    meta: MetaRecord,
    commit: Seq<char>,
    files: Seq<Seq<char>>,
    source_root: Seq<char>,
    output_root: Seq<char>,
    turns: nat,
    next_commit: Seq<char>,
    again: nat,
)
    requires
        files.len() <= usize::MAX,
        run(world, start_run(meta, commit, files, source_root, output_root), turns).engine.stage
            is Done,
    ensures
        ({
            let first = run(world, start_run(meta, commit, files, source_root, output_root), turns);
            let second = run(
                world,
                start_run(first.disk, next_commit, files, source_root, output_root),
                again,
            );
            &&& !(pending_action(second.engine) is Translate)
            &&& !(pending_action(second.engine) is WriteEmpty)
            &&& second.engine.meta.files == first.disk.files
            &&& second.disk.files == first.disk.files
            &&& second.engine.up_to_date == second.engine.cursor
            &&& second.engine.stage is Done ==> second.engine.summary() == (Summary {
                total: files.len() as usize,
                newly_translated: 0,
                up_to_date: files.len() as usize,
            })
        }),
{
    lemma_on_track(world, meta, commit, files, source_root, output_root, turns);
    let first = run(world, start_run(meta, commit, files, source_root, output_root), turns);
    let kept = first.disk.files;
    assert(kept == settled(world, meta.files, files, files.len()));
    assert forall|j: int| 0 <= j < files.len() implies !is_stale(world, kept, #[trigger] files[j]) by {
        lemma_settled_covers(world, meta.files, files, files.len(), j);
    }
    lemma_on_track(world, first.disk, next_commit, files, source_root, output_root, again);
    let second = run(
        world,
        start_run(first.disk, next_commit, files, source_root, output_root),
        again,
    );
    lemma_settled_unchanged(world, kept, files, second.engine.cursor);
    if second.engine.cursor < files.len() {
        assert(!is_stale(world, kept, files[second.engine.cursor as int]));
    }
}

/// `path` is among the first `upto` of `files`.
pub open spec fn seen(files: Seq<Seq<char>>, upto: nat, path: Seq<char>) -> bool {
    exists|j: int| 0 <= j < upto && #[trigger] files[j] == path
}

/// The entries of a run over files of which only the one at `path` is not
/// up to date: the entries at the start, and one for that file once it is
/// done with. It is sent to the backend once if it is not empty.
proof fn lemma_settled_one(
    world: World,
    recorded: Seq<FileRecord>,
    files: Seq<Seq<char>>,
    path: Seq<char>,
    upto: nat,
)
    requires
        upto <= files.len(),
        is_stale(world, recorded, path),
        forall|j: int|
            0 <= j < files.len() && #[trigger] files[j] != path ==> !is_stale(
                world,
                recorded,
                files[j],
            ),
    ensures
        settled(world, recorded, files, upto) == if seen(files, upto, path) {
            recorded.push(entry_for(world, path))
        } else {
            recorded
        },
        sent(world, recorded, files, upto) == if seen(files, upto, path) && (world.text)(
            path,
        ).len() > 0 {
            1nat
        } else {
            0nat
        },
    decreases upto,
{
    if upto > 0 {
        let last = files[upto - 1];
        let before = settled(world, recorded, files, (upto - 1) as nat);
        lemma_settled_one(world, recorded, files, path, (upto - 1) as nat);
        lemma_record_stays(recorded, entry_for(world, path), last, hash_in(world, last));
        if seen(files, (upto - 1) as nat, path) {
            let j = choose|j: int| 0 <= j < upto - 1 && #[trigger] files[j] == path;
            assert(files[j] == path);
            assert(seen(files, upto, path));
        } else if last == path {
            assert(files[upto - 1] == path);
            assert(seen(files, upto, path));
        } else {
            if seen(files, upto, path) {
                let j = choose|j: int| 0 <= j < upto && #[trigger] files[j] == path;
                assert(j < upto - 1);
                assert(files[j] == path);
            }
        }
    }
}

/// A changed file, and that file alone, is worked on again. Let a first
/// run have come to its end. Then the file at `path` changes, so that its
/// hash is not among those recorded under its path; every other file stays
/// as it was. A second run, begun with the metadata that the first left on
/// disk, asks for the translation or the empty output of no file but that
/// one. At its end it has added one entry, for that file; if the file is
/// not empty, it counts one file as newly translated and all others as up
/// to date, and if it is empty, it counts all files as up to date.
pub proof fn law_changed_file_alone_is_translated(
    world: World,
    changed: World,
    path: Seq<char>,
    meta: MetaRecord,
    commit: Seq<char>,
    files: Seq<Seq<char>>,
    source_root: Seq<char>,
    output_root: Seq<char>,
    turns: nat,
    next_commit: Seq<char>,
    again: nat,
)
    requires
        files.len() <= usize::MAX,
        files.contains(path),
        run(world, start_run(meta, commit, files, source_root, output_root), turns).engine.stage
            is Done,
        forall|other: Seq<char>|
            other != path ==> #[trigger] (changed.bytes)(other) == (world.bytes)(other),
        is_stale(
            changed,
            run(world, start_run(meta, commit, files, source_root, output_root), turns).disk.files,
            path,
        ),
    ensures
        ({
            let first = run(world, start_run(meta, commit, files, source_root, output_root), turns);
            let second = run(
                changed,
                start_run(first.disk, next_commit, files, source_root, output_root),
                again,
            );
            let entry = entry_for(changed, path);
            let translated: nat = if (changed.text)(path).len() > 0 {
                1
            } else {
                0
            };
            &&& pending_action(second.engine) is Translate || pending_action(second.engine)
                is WriteEmpty ==> second.engine.current() == path
            &&& second.engine.meta.files == first.disk.files || second.engine.meta.files
                == first.disk.files.push(entry)
            &&& second.engine.stage is Done ==> {
                &&& second.engine.meta.files == first.disk.files.push(entry)
                &&& second.disk.files == first.disk.files.push(entry)
                &&& second.engine.summary() == (Summary {
                    total: files.len() as usize,
                    newly_translated: translated as usize,
                    up_to_date: (files.len() - translated) as usize,
                })
            }
        }),
{
    lemma_on_track(world, meta, commit, files, source_root, output_root, turns);
    let first = run(world, start_run(meta, commit, files, source_root, output_root), turns);
    let kept = first.disk.files;
    assert(kept == settled(world, meta.files, files, files.len()));
    assert forall|j: int| 0 <= j < files.len() && #[trigger] files[j] != path implies !is_stale(
        changed,
        kept,
        files[j],
    ) by {
        lemma_settled_covers(world, meta.files, files, files.len(), j);
        assert((changed.bytes)(files[j]) == (world.bytes)(files[j]));
    }
    lemma_on_track(changed, first.disk, next_commit, files, source_root, output_root, again);
    let second = run(
        changed,
        start_run(first.disk, next_commit, files, source_root, output_root),
        again,
    );
    let e = second.engine;
    lemma_settled_one(changed, kept, files, path, e.cursor);
    let entry = entry_for(changed, path);
    if e.cursor < files.len() {
        let current = files[e.cursor as int];
        lemma_record_stays(kept, entry, current, hash_in(changed, current));
    }
    if e.stage is Done {
        let j = choose|j: int| 0 <= j < files.len() && files[j] == path;
        assert(files[j] == path);
        assert(seen(files, files.len(), path));
    }
}

/// An empty file gets an empty output and an entry, and no translation.
/// Where the engine waits for the text of a file and the text is empty, it
/// asks for an empty file at the file's place in the mirror. Once that is
/// written, it adds an entry with the file's path, the hash that it took of
/// the file's bytes and the time of the writing, and asks for the
/// metadata to be written. After that it goes on to the next file and
/// counts the empty one as up to date.
pub proof fn law_empty_file_is_written_and_recorded(s: EngineState, hash: Seq<char>, now: u64)
    requires
        s.well_formed(),
        s.stage == (StageState::Load { hash }),
    ensures
        ({
            let entry = FileRecord { path: s.current(), hash, translation_timestamp: now };
            &&& next_state(s, EventState::Text(Seq::empty())) matches Some(waiting) && {
                &&& pending_action(waiting) == (ActionState::WriteEmpty {
                    path: s.current(),
                    output_path: s.output_path(),
                })
                &&& waiting.meta == s.meta
                &&& next_state(waiting, EventState::Written { now }) matches Some(written) && {
                    &&& written.meta.files == s.meta.files.push(entry)
                    &&& pending_action(written) == (ActionState::Persist { meta: written.meta })
                    &&& next_state(written, EventState::Persisted) matches Some(after) && {
                        &&& after.meta == written.meta
                        &&& after.cursor == s.cursor + 1
                        &&& after.up_to_date == s.up_to_date + 1
                        &&& after.summary().newly_translated == s.summary().newly_translated
                    }
                }
            }
        }),
{
}

/// In a run, the hash under which an empty file is recorded is the hash of
/// its bytes: where the engine waits for the empty output of a file to be
/// written, the hash that it holds for the entry is that of the bytes that
/// the driver read, and no entry with that hash stands under the file's
/// path yet.
pub proof fn law_empty_file_is_recorded_by_its_bytes(
    world: World,
    meta: MetaRecord,
    commit: Seq<char>,
    files: Seq<Seq<char>>,
    source_root: Seq<char>,
    output_root: Seq<char>,
    turns: nat,
)
    requires
        files.len() <= usize::MAX,
    ensures
        ({
            let r = run(world, start_run(meta, commit, files, source_root, output_root), turns);
            r.engine.stage matches StageState::Blank { hash } ==> {
                &&& hash == content_hash_of((world.bytes)(r.engine.current()))
                &&& (world.text)(r.engine.current()).len() == 0
                &&& !has_record(r.engine.meta.files, r.engine.current(), hash)
            }
        }),
{
    lemma_on_track(world, meta, commit, files, source_root, output_root, turns);
}

/// The engine adds an entry only where an output was written. An event
/// changes the metadata only where it says that the translation or the
/// empty output of the current file was written. Then it adds one entry,
/// for the current file with the hash of its bytes and the time of the
/// event, and the engine asks next for the metadata to be written.
pub proof fn law_entries_change_by_outputs_only(s: EngineState, e: EventState)
    requires
        s.well_formed(),
    ensures
        next_state(s, e) matches Some(next) ==> {
            ||| next.meta == s.meta
            ||| {
                &&& next.meta.commit == s.meta.commit
                &&& pending_action(next) == (ActionState::Persist { meta: next.meta })
                &&& match (s.stage, e) {
                    (
                        StageState::Translate { hash, text },
                        EventState::Translated { now },
                    ) => next.meta.files == s.meta.files.push(
                        FileRecord { path: s.current(), hash, translation_timestamp: now },
                    ),
                    (StageState::Blank { hash }, EventState::Written { now }) => next.meta.files
                        == s.meta.files.push(
                        FileRecord { path: s.current(), hash, translation_timestamp: now },
                    ),
                    _ => false,
                }
            }
        },
{
}

/// No excluded file is ever worked on. In a run over the files that a
/// filter picks among `all`, every file that the engine comes to ends with
/// one of the filter's suffixes and holds none of its excluded substrings;
/// so does every file whose translation it asks for.
pub proof fn law_excluded_file_is_never_sent(
    world: World,
    meta: MetaRecord,
    commit: Seq<char>,
    all: Seq<Seq<char>>,
    suffixes: Seq<Seq<char>>,
    excludes: Seq<Seq<char>>,
    source_root: Seq<char>,
    output_root: Seq<char>,
    turns: nat,
)
    requires
        all.len() <= usize::MAX,
    ensures
        ({
            let files = all.filter(|p: Seq<char>| is_translatable(p, suffixes, excludes));
            let r = run(world, start_run(meta, commit, files, source_root, output_root), turns);
            &&& r.engine.cursor < files.len() ==> is_candidate(r.engine.current(), suffixes)
                && !is_excluded(r.engine.current(), excludes)
            &&& pending_action(r.engine) matches ActionState::Translate {
                path,
                prompt,
                output_path,
            } ==> is_candidate(path, suffixes) && !is_excluded(path, excludes)
        }),
{
    let chosen = |p: Seq<char>| is_translatable(p, suffixes, excludes);
    let files = all.filter(chosen);
    all.lemma_filter_len(chosen);
    let start = start_run(meta, commit, files, source_root, output_root);
    lemma_run_progress(world, start, turns);
    let r = run(world, start, turns);
    if r.engine.cursor < files.len() {
        all.lemma_filter_pred(chosen, r.engine.cursor as int);
    }
}

/// What the mirror holds once the driver has carried out the first `upto`
/// of the copies `jobs`: at the destination of each, the bytes that it
/// read at the source.
pub open spec fn mirrored(world: World, jobs: Seq<CopyPlan>, upto: nat) -> Map<
    Seq<char>,
    Seq<u8>,
>
    decreases upto,
{
    if upto == 0 {
        Map::empty()
    } else {
        mirrored(world, jobs, (upto - 1) as nat).insert(
            jobs[upto - 1].destination,
            (world.bytes)(jobs[upto - 1].source),
        )
    }
}

/// Once a copy is carried out, the mirror holds the bytes of its source,
/// and the copies that follow leave them there.
proof fn lemma_mirrored_keeps(
    world: World,
    files: Seq<Seq<char>>,
    source_root: Seq<char>,
    output_root: Seq<char>,
    jobs: Seq<CopyPlan>,
    upto: nat,
    j: int,
)
    requires
        jobs.len() == files.len(),
        forall|i: int|
            0 <= i < files.len() ==> #[trigger] jobs[i] == copy_of(
                files[i],
                source_root,
                output_root,
            ),
        forall|i: int| 0 <= i < files.len() ==> source_root.is_prefix_of(#[trigger] files[i]),
        0 <= j < upto <= files.len(),
    ensures
        mirrored(world, jobs, upto).dom().contains(mirror_of(files[j], source_root, output_root)),
        mirrored(world, jobs, upto)[mirror_of(files[j], source_root, output_root)] == (
        world.bytes)(files[j]),
    decreases upto,
{
    let last = upto - 1;
    assert(jobs[last] == copy_of(files[last], source_root, output_root));
    assert(source_root.is_prefix_of(files[last]));
    assert(source_root.is_prefix_of(files[j]));
    if j < last {
        lemma_mirrored_keeps(world, files, source_root, output_root, jobs, last as nat, j);
        if mirror_of(files[j], source_root, output_root) == mirror_of(
            files[last],
            source_root,
            output_root,
        ) {
            law_mirror_tells_files_apart(files[j], files[last], source_root, output_root);
        }
    }
}

/// The files that are copied arrive byte for byte. Let `jobs` be the
/// copies of `files`, which lie under the source root, and let the driver
/// carry them out in order, writing at each destination the bytes that it
/// read at the source. Then the mirror holds, at the place of each of the
/// files, the bytes of that file, whatever they are and whatever the
/// metadata holds.
pub proof fn law_copies_are_byte_for_byte(
    world: World,
    files: Seq<Seq<char>>,
    source_root: Seq<char>,
    output_root: Seq<char>,
    jobs: Seq<CopyPlan>,
    j: int,
)
    requires
        jobs.len() == files.len(),
        forall|i: int|
            0 <= i < files.len() ==> #[trigger] jobs[i] == copy_of(
                files[i],
                source_root,
                output_root,
            ),
        forall|i: int| 0 <= i < files.len() ==> source_root.is_prefix_of(#[trigger] files[i]),
        0 <= j < files.len(),
    ensures
        ({
            let mirror = mirrored(world, jobs, jobs.len());
            let place = mirror_of(files[j], source_root, output_root);
            &&& place == output_root + files[j].skip(source_root.len() as int)
            &&& mirror.dom().contains(place)
            &&& mirror[place] == (world.bytes)(files[j])
        }),
{
    assert(source_root.is_prefix_of(files[j]));
    lemma_mirrored_keeps(world, files, source_root, output_root, jobs, files.len(), j);
}

/// A file that is copied gets no entry. In a run over the files that a
/// filter picks among `all`, no entry is added under the path of a file
/// that the filter leaves to be copied: every entry beyond those that the
/// run found bears the path of a file that is translatable.
pub proof fn law_copied_file_gets_no_entry(
    world: World,
    meta: MetaRecord,
    commit: Seq<char>,
    all: Seq<Seq<char>>,
    suffixes: Seq<Seq<char>>,
    excludes: Seq<Seq<char>>,
    source_root: Seq<char>,
    output_root: Seq<char>,
    turns: nat,
    k: int,
)
    requires
        all.len() <= usize::MAX,
        ({
            let files = all.filter(|p: Seq<char>| is_translatable(p, suffixes, excludes));
            meta.files.len() <= k < run(
                world,
                start_run(meta, commit, files, source_root, output_root),
                turns,
            ).engine.meta.files.len()
        }),
    ensures
        ({
            let files = all.filter(|p: Seq<char>| is_translatable(p, suffixes, excludes));
            let r = run(world, start_run(meta, commit, files, source_root, output_root), turns);
            is_translatable(r.engine.meta.files[k].path, suffixes, excludes)
        }),
{
    let chosen = |p: Seq<char>| is_translatable(p, suffixes, excludes);
    let files = all.filter(chosen);
    all.lemma_filter_len(chosen);
    law_entries_are_of_the_files(world, meta, commit, files, source_root, output_root, turns, k);
    let r = run(world, start_run(meta, commit, files, source_root, output_root), turns);
    let path = r.engine.meta.files[k].path;
    let i = choose|i: int| 0 <= i < files.len() && files[i] == path;
    all.lemma_filter_pred(chosen, i);
}

} // verus!

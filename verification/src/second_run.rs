//! Running twice: after a run in which nothing failed, every file counts as measured, and another
//! run has nothing to do.

use crate::album::{
    holds_file, is_album_of, is_album_plan, lemma_plan_holds_every_file_once, Album, AlbumFile,
};
use crate::gain_run::{
    album_sizes, files_before, lemma_begun_run_is_valid, lemma_run_stays_valid, state_after,
    EventView, RunView, StepView,
};
use crate::lofty_file::texts_read_of;
use crate::lofty_tag::is_primary_format;
use crate::replaygain::{
    gains_written, lemma_places_of_yes, lemma_written_file_is_measured, measured_in,
    measured_tracks, places_of_yes, successes, values_for, Measured, TrackValues,
};
use crate::text::is_blank;
use lofty::tag::{Tag, TagType};
use vstd::prelude::*;

verus! {

/// The files on a disk: the tags of each, and the formats of their primary tags.
#[verifier::ext_equal]
pub struct Disk {
    pub tags: Seq<Seq<Tag>>,
    pub formats: Seq<TagType>,
}

impl Disk {
    /// There are as many files as in a list, and their primary tags have known formats.
    pub open spec fn is_valid(self, files: Seq<AlbumFile>) -> bool {
        &&& self.tags.len() == files.len()
        &&& self.formats.len() == files.len()
        &&& forall|f: int|
            0 <= f < files.len() ==> is_primary_format(#[trigger] self.formats[f])
    }

    /// A file counts as measured.
    pub open spec fn is_measured(self, file: int) -> bool {
        measured_in(texts_read_of(self.tags[file], self.formats[file]))
    }
}

/// The tags of a file become what they are after gains and peaks have been written to it.
pub open spec fn gets_gains(before: Seq<Tag>, format: TagType, after: Seq<Tag>) -> bool {
    exists|track_gain: Seq<char>, track_peak: Seq<char>, album_gain: Seq<char>, album_peak: Seq<char>|
        {
            &&& #[trigger] gains_written(
                before,
                format,
                after,
                track_gain,
                track_peak,
                album_gain,
                album_peak,
            )
            &&& !is_blank(track_peak)
            &&& !is_blank(album_peak)
        }
}

/// The file of a track of an album.
pub open spec fn file_of(albums: Seq<Album>, album: int, track: int) -> int {
    albums[album].files@[track] as int
}

/// Values are to be written to a file.
pub open spec fn is_written_to(
    albums: Seq<Album>,
    album: int,
    values: Seq<TrackValues>,
    file: int,
) -> bool {
    exists|i: int|
        0 <= i < values.len() && file_of(albums, album, (#[trigger] values[i]).track as int) == file
}

/// The event answers the step of a run truthfully, and the disk goes from `before` to `after`: the
/// files that are said to be measured are those that are, files that are said to be written have
/// been written, and no file is changed to which nothing is to be written.
pub open spec fn is_truthful(
    albums: Seq<Album>,
    run: RunView,
    event: EventView,
    before: Disk,
    after: Disk,
) -> bool {
    &&& run.is_answered_by(event)
    &&& after.formats == before.formats
    &&& after.tags.len() == before.tags.len()
    &&& match (run.step, event) {
        (StepView::CheckTags(album), EventView::TagsChecked(tagged)) => {
            &&& after == before
            &&& forall|t: int|
                0 <= t < tagged.len() ==> #[trigger] tagged[t] == before.is_measured(
                    file_of(albums, album, t),
                )
        },
        (StepView::WriteTags(album, values), EventView::Written(written)) => {
            &&& forall|i: int|
                0 <= i < values.len() && #[trigger] written[i] ==> {
                    let file = file_of(albums, album, values[i].track as int);
                    gets_gains(before.tags[file], before.formats[file], after.tags[file])
                }
            &&& forall|file: int|
                0 <= file < before.tags.len() && !is_written_to(albums, album, values, file)
                    ==> #[trigger] after.tags[file] == before.tags[file]
        },
        _ => after == before,
    }
}

/// A run over albums with these events, each of them truthful, and with the disk as it is before
/// the first of them and after each.
pub open spec fn is_run_history(
    albums: Seq<Album>,
    events: Seq<EventView>,
    disks: Seq<Disk>,
) -> bool {
    &&& disks.len() == events.len() + 1
    &&& forall|i: int|
        0 <= i < events.len() ==> is_truthful(
            albums,
            state_after(RunView::begun(albums), events.take(i)),
            #[trigger] events[i],
            disks[i],
            disks[i + 1],
        )
}

/// The number of albums that a run is done with.
spec fn albums_done(run: RunView) -> int {
    match run.step {
        StepView::CheckTags(album) | StepView::Analyze(album) => album,
        StepView::JoinLoudness(album, _) => album,
        StepView::WriteTags(album, _) => album,
        StepView::Finished => run.sizes.len() as int,
    }
}

/// All files of an album count as measured.
spec fn album_is_measured(albums: Seq<Album>, album: int, disk: Disk) -> bool {
    forall|t: int|
        0 <= t < albums[album].files@.len() ==> disk.is_measured(#[trigger] file_of(albums, album, t))
}

/// There is a value for each track.
spec fn covers(values: Seq<TrackValues>, size: nat) -> bool {
    forall|t: usize| t < size ==> #[trigger] has_value(values, t)
}

/// There is a value for a track.
spec fn has_value(values: Seq<TrackValues>, track: usize) -> bool {
    exists|i: int| 0 <= i < values.len() && (#[trigger] values[i]).track == track
}

/// What holds of a run as long as nothing has failed: the albums that it is done with are measured,
/// and all files of the current one are written where some are.
spec fn is_clean(albums: Seq<Album>, run: RunView, disk: Disk) -> bool {
    &&& forall|a: int| 0 <= a < albums_done(run) ==> #[trigger] album_is_measured(albums, a, disk)
    &&& match run.step {
        StepView::JoinLoudness(album, tracks) => tracks.len() == run.sizes[album],
        StepView::WriteTags(album, values) => covers(values, run.sizes[album]),
        _ => true,
    }
}

/// A truthful event in a clean run that does not make anything fail.
spec fn is_clean_step(
    files: Seq<AlbumFile>,
    albums: Seq<Album>,
    run: RunView,
    event: EventView,
    before: Disk,
    after: Disk,
) -> bool {
    &&& is_album_plan(files, albums)
    &&& run.is_valid()
    &&& run.sizes == album_sizes(albums)
    &&& before.is_valid(files)
    &&& is_truthful(albums, run, event, before, after)
    &&& run.failed == 0
    &&& run.after(event).failed == 0
    &&& is_clean(albums, run, before)
}

/// A run stays clean when it learns which files of an album are measured already.
proof fn lemma_clean_check(
    files: Seq<AlbumFile>,
    albums: Seq<Album>,
    run: RunView,
    event: EventView,
    before: Disk,
    after: Disk,
)
    requires
        is_clean_step(files, albums, run, event, before, after),
        run.step is CheckTags,
    ensures
        is_clean(albums, run.after(event), after),
{
    let album = run.step->CheckTags_0;
    let tagged = event->TagsChecked_0;
    if forall|i: int| 0 <= i < tagged.len() ==> #[trigger] tagged[i] {
        assert forall|t: int| 0 <= t < albums[album].files@.len() implies after.is_measured(
            #[trigger] file_of(albums, album, t),
        ) by {
            assert(tagged[t]);
        }
        assert(album_is_measured(albums, album, after));
    }
}

/// A run stays clean when all files of an album could be measured.
proof fn lemma_clean_analysis(
    files: Seq<AlbumFile>,
    albums: Seq<Album>,
    run: RunView,
    event: EventView,
    before: Disk,
    after: Disk,
)
    requires
        is_clean_step(files, albums, run, event, before, after),
        run.step is Analyze,
    ensures
        is_clean(albums, run.after(event), after),
{
    let album = run.step->Analyze_0;
    let measured = event->Analyzed_0;
    lemma_sizes_are_small(run, album);
    lemma_places_of_yes(successes(measured));
    assert(measured_tracks(measured).len() == measured.len());
    if measured_tracks(measured).len() == 0 {
        assert(albums[album].files@.len() == 0);
        assert(album_is_measured(albums, album, after));
    }
}

/// A run stays clean when the loudness of its tracks has been computed: there is a value for each.
proof fn lemma_clean_join(
    files: Seq<AlbumFile>,
    albums: Seq<Album>,
    run: RunView,
    event: EventView,
    before: Disk,
    after: Disk,
)
    requires
        is_clean_step(files, albums, run, event, before, after),
        run.step is JoinLoudness,
    ensures
        is_clean(albums, run.after(event), after),
{
    let album = run.step->JoinLoudness_0;
    lemma_sizes_are_small(run, album);
    lemma_full_measurement_covers(run.measured, event->Joined_0);
}

/// Where all tracks of an album could be measured, there is a value for each.
proof fn lemma_full_measurement_covers(
    measured: Seq<Option<Measured>>,
    loudness: Option<u64>,
)
    requires
        measured.len() <= usize::MAX,
        measured_tracks(measured).len() == measured.len(),
    ensures
        covers(values_for(measured, loudness), measured.len()),
{
    let answers = successes(measured);
    let tracks = measured_tracks(measured);
    let values = values_for(measured, loudness);
    lemma_places_of_yes(answers);
    assert forall|t: usize| t < measured.len() implies #[trigger] has_value(values, t) by {
        assert(answers[t as int]);
        assert(tracks.contains(t));
        let i = choose|i: int| 0 <= i < tracks.len() && tracks[i] == t;
        assert(values[i].track == t);
    }
}

/// Where all values of an album have been written, its files count as measured, and so do those
/// that did before.
proof fn lemma_clean_file(
    files: Seq<AlbumFile>,
    albums: Seq<Album>,
    album: int,
    values: Seq<TrackValues>,
    before: Disk,
    after: Disk,
    file: int,
)
    requires
        before.is_valid(files),
        0 <= file < files.len(),
        after.formats == before.formats,
        forall|i: int|
            0 <= i < values.len() ==> {
                let f = file_of(albums, album, (#[trigger] values[i]).track as int);
                gets_gains(before.tags[f], before.formats[f], after.tags[f])
            },
        !is_written_to(albums, album, values, file) ==> after.tags[file] == before.tags[file]
            && before.is_measured(file),
    ensures
        after.is_measured(file),
{
    if is_written_to(albums, album, values, file) {
        let i = choose|i: int|
            0 <= i < values.len() && file_of(albums, album, (#[trigger] values[i]).track as int)
                == file;
        assert(gets_gains(before.tags[file], before.formats[file], after.tags[file]));
        lemma_gains_make_measured(before.tags[file], before.formats[file], after.tags[file]);
    }
}

/// A run stays clean when all values of an album could be written.
proof fn lemma_clean_write(
    files: Seq<AlbumFile>,
    albums: Seq<Album>,
    run: RunView,
    event: EventView,
    before: Disk,
    after: Disk,
)
    requires
        is_clean_step(files, albums, run, event, before, after),
        run.step is WriteTags,
    ensures
        is_clean(albums, run.after(event), after),
{
    let album = run.step->WriteTags_0;
    let values = run.step->WriteTags_1;
    let written = event->Written_0;
    lemma_sizes_are_small(run, album);
    lemma_places_of_yes(written);
    assert(places_of_yes(written).len() == written.len());
    assert forall|i: int| 0 <= i < values.len() implies {
        let f = file_of(albums, album, (#[trigger] values[i]).track as int);
        gets_gains(before.tags[f], before.formats[f], after.tags[f])
    } by {
        assert(written[i]);
    }
    assert forall|a: int| 0 <= a <= album implies #[trigger] album_is_measured(albums, a, after) by {
        assert(is_album_of(files, albums[a]));
        assert forall|t: int| 0 <= t < albums[a].files@.len() implies after.is_measured(
            #[trigger] file_of(albums, a, t),
        ) by {
            let file = file_of(albums, a, t);
            assert(albums[a].files@[t] < files.len());
            if a == album {
                assert(albums[a].files@.len() == run.sizes[a]);
                assert(has_value(values, t as usize));
                let i = choose|i: int|
                    0 <= i < values.len() && (#[trigger] values[i]).track == t as usize;
                assert(file_of(albums, album, values[i].track as int) == file);
            } else {
                assert(album_is_measured(albums, a, before));
            }
            lemma_clean_file(files, albums, album, values, before, after, file);
        }
    }
}

/// One truthful event keeps a run clean in which nothing fails.
proof fn lemma_clean_step(
    files: Seq<AlbumFile>,
    albums: Seq<Album>,
    run: RunView,
    event: EventView,
    before: Disk,
    after: Disk,
)
    requires
        is_clean_step(files, albums, run, event, before, after),
    ensures
        is_clean(albums, run.after(event), after),
{
    match run.step {
        StepView::CheckTags(_) => lemma_clean_check(files, albums, run, event, before, after),
        StepView::Analyze(_) => lemma_clean_analysis(files, albums, run, event, before, after),
        StepView::JoinLoudness(_, _) => lemma_clean_join(files, albums, run, event, before, after),
        StepView::WriteTags(_, _) => lemma_clean_write(files, albums, run, event, before, after),
        StepView::Finished => {},
    }
}

/// A file to which gains and peaks have been written counts as measured.
proof fn lemma_gains_make_measured(before: Seq<Tag>, format: TagType, after: Seq<Tag>)
    requires
        is_primary_format(format),
        gets_gains(before, format, after),
    ensures
        measured_in(texts_read_of(after, format)),
{
    let (track_gain, track_peak, album_gain, album_peak) = choose|
        track_gain: Seq<char>,
        track_peak: Seq<char>,
        album_gain: Seq<char>,
        album_peak: Seq<char>,
    |
        {
            &&& #[trigger] gains_written(
                before,
                format,
                after,
                track_gain,
                track_peak,
                album_gain,
                album_peak,
            )
            &&& !is_blank(track_peak)
            &&& !is_blank(album_peak)
        };
    lemma_written_file_is_measured(
        before,
        format,
        after,
        track_gain,
        track_peak,
        album_gain,
        album_peak,
    );
}

/// No album of a valid run is too large to be counted.
proof fn lemma_sizes_are_small(run: RunView, album: int)
    requires
        run.is_valid(),
        0 <= album < run.sizes.len(),
    ensures
        run.sizes[album] <= usize::MAX,
{
    lemma_size_is_counted(run.sizes, album, run.sizes.len() as int);
}

/// The files of an album are among those that are counted.
proof fn lemma_size_is_counted(sizes: Seq<nat>, album: int, n: int)
    requires
        0 <= album < n <= sizes.len(),
    ensures
        sizes[album] <= files_before(sizes, n),
    decreases n,
{
    if album < n - 1 {
        lemma_size_is_counted(sizes, album, n - 1);
    }
}

/// After each of its events, a run in which nothing has failed is clean.
proof fn lemma_history_is_clean(
    files: Seq<AlbumFile>,
    albums: Seq<Album>,
    events: Seq<EventView>,
    disks: Seq<Disk>,
    n: int,
)
    requires
        is_album_plan(files, albums),
        files.len() <= usize::MAX,
        is_run_history(albums, events, disks),
        disks[0].is_valid(files),
        0 <= n <= events.len(),
    ensures
        ({
            let run = state_after(RunView::begun(albums), events.take(n));
            &&& run.is_valid()
            &&& run.sizes == album_sizes(albums)
            &&& disks[n].is_valid(files)
            &&& run.failed == 0 ==> is_clean(albums, run, disks[n])
        }),
    decreases n,
{
    let begun = RunView::begun(albums);
    if n == 0 {
        lemma_plan_holds_every_file_once(files, albums);
        lemma_begun_run_is_valid(albums);
        assert(state_after(begun, events.take(0)) == begun);
    } else {
        lemma_history_is_clean(files, albums, events, disks, n - 1);
        let before = state_after(begun, events.take(n - 1));
        let event = events[n - 1];
        assert(events.take(n).drop_last() =~= events.take(n - 1));
        assert(state_after(begun, events.take(n)) == before.after(event));
        assert(is_truthful(albums, before, event, disks[n - 1], disks[n - 1 + 1]));
        lemma_run_stays_valid(before, event);
        if before.after(event).failed == 0 {
            lemma_clean_step(files, albums, before, event, disks[n - 1], disks[n]);
        }
    }
}

/// After a finished run in which nothing failed, every file counts as measured.
pub proof fn lemma_clean_run_measures_every_file(
    files: Seq<AlbumFile>,
    albums: Seq<Album>,
    events: Seq<EventView>,
    disks: Seq<Disk>,
)
    requires
        is_album_plan(files, albums),
        files.len() <= usize::MAX,
        is_run_history(albums, events, disks),
        disks[0].is_valid(files),
        state_after(RunView::begun(albums), events).step == StepView::Finished,
        state_after(RunView::begun(albums), events).failed == 0,
    ensures
        disks.last().is_valid(files),
        forall|f: int| 0 <= f < files.len() ==> #[trigger] disks.last().is_measured(f),
{
    let n = events.len() as int;
    lemma_history_is_clean(files, albums, events, disks, n);
    assert(events.take(n) =~= events);
    lemma_plan_holds_every_file_once(files, albums);
    assert forall|f: int| 0 <= f < files.len() implies #[trigger] disks.last().is_measured(f) by {
        assert(holds_file(albums, f as usize));
        let a = choose|a: int|
            0 <= a < albums.len() && (#[trigger] albums[a]).files@.contains(f as usize);
        let t = choose|t: int|
            0 <= t < albums[a].files@.len() && albums[a].files@[t] == f as usize;
        assert(album_is_measured(albums, a, disks.last()));
        assert(file_of(albums, a, t) == f);
    }
}

/// The event says of all files of an album that they are measured already.
pub open spec fn says_measured(event: EventView, size: nat) -> bool {
    event matches EventView::TagsChecked(tagged) && tagged.len() == size && forall|t: int|
        0 <= t < tagged.len() ==> #[trigger] tagged[t]
}

/// A run that is done with some albums, all of which it skipped.
pub open spec fn skipped_so_far(albums: Seq<Album>, n: int) -> RunView {
    RunView {
        step: if n < albums.len() {
            StepView::CheckTags(n)
        } else {
            StepView::Finished
        },
        skipped_albums: n as nat,
        skipped_files: files_before(album_sizes(albums), n),
        ..RunView::begun(albums)
    }
}

/// A run in which all files of every album are measured already skips every album: it measures
/// and writes nothing, and nothing fails.
pub proof fn lemma_measured_albums_are_skipped(albums: Seq<Album>, events: Seq<EventView>)
    requires
        events.len() == albums.len(),
        forall|a: int|
            0 <= a < albums.len() ==> says_measured(
                #[trigger] events[a],
                albums[a].files@.len(),
            ),
    ensures
        ({
            let run = state_after(RunView::begun(albums), events);
            &&& run.step == StepView::Finished
            &&& run.skipped_albums == albums.len()
            &&& run.skipped_files == run.total()
            &&& run.processed == 0
            &&& run.failed == 0
        }),
        forall|n: int|
            0 <= n < events.len() ==> (#[trigger] state_after(
                RunView::begun(albums),
                events.take(n),
            )).step == StepView::CheckTags(n),
{
    assert forall|n: int| 0 <= n <= events.len() implies #[trigger] state_after(
        RunView::begun(albums),
        events.take(n),
    ) == skipped_so_far(albums, n) by {
        lemma_albums_are_skipped(albums, events, n);
    }
    assert(events.take(events.len() as int) =~= events);
}

/// A run that is told of its first `n` albums that they are measured already skips them.
proof fn lemma_albums_are_skipped(albums: Seq<Album>, events: Seq<EventView>, n: int)
    requires
        events.len() == albums.len(),
        forall|a: int|
            0 <= a < albums.len() ==> says_measured(
                #[trigger] events[a],
                albums[a].files@.len(),
            ),
        0 <= n <= albums.len(),
    ensures
        state_after(RunView::begun(albums), events.take(n)) == skipped_so_far(albums, n),
    decreases n,
{
    if n > 0 {
        lemma_albums_are_skipped(albums, events, n - 1);
        assert(events.take(n).drop_last() =~= events.take(n - 1));
        assert(says_measured(events[n - 1], albums[n - 1].files@.len()));
        assert(album_sizes(albums)[n - 1] == albums[n - 1].files@.len());
    }
}

/// A second run over the files of a finished run in which nothing failed skips every album, in
/// whatever order it finds the files: it measures and writes nothing, and nothing fails. The files
/// are those of the first run, and are as the first run left them: file `f` of the second list is
/// file `same[f]` of the first.
pub proof fn lemma_second_run_skips_every_album(
    files: Seq<AlbumFile>,
    albums: Seq<Album>,
    events: Seq<EventView>,
    disks: Seq<Disk>,
    files_again: Seq<AlbumFile>,
    albums_again: Seq<Album>,
    same: Seq<int>,
    events_again: Seq<EventView>,
)
    requires
        is_album_plan(files, albums),
        files.len() <= usize::MAX,
        is_run_history(albums, events, disks),
        disks[0].is_valid(files),
        state_after(RunView::begun(albums), events).step == StepView::Finished,
        state_after(RunView::begun(albums), events).failed == 0,
        is_album_plan(files_again, albums_again),
        same.len() == files_again.len(),
        forall|f: int| 0 <= f < same.len() ==> 0 <= (#[trigger] same[f]) < files.len(),
        events_again.len() == albums_again.len(),
        forall|a: int|
            0 <= a < albums_again.len() ==> tells_truth(
                albums_again,
                a,
                same,
                disks.last(),
                #[trigger] events_again[a],
            ),
    ensures
        ({
            let run = state_after(RunView::begun(albums_again), events_again);
            &&& run.step == StepView::Finished
            &&& run.skipped_albums == albums_again.len()
            &&& run.skipped_files == run.total()
            &&& run.processed == 0
            &&& run.failed == 0
        }),
        forall|n: int|
            0 <= n < events_again.len() ==> (#[trigger] state_after(
                RunView::begun(albums_again),
                events_again.take(n),
            )).step == StepView::CheckTags(n),
{
    lemma_clean_run_measures_every_file(files, albums, events, disks);
    assert forall|a: int| 0 <= a < albums_again.len() implies says_measured(
        #[trigger] events_again[a],
        albums_again[a].files@.len(),
    ) by {
        assert(tells_truth(albums_again, a, same, disks.last(), events_again[a]));
        assert(is_album_of(files_again, albums_again[a]));
        if let EventView::TagsChecked(tagged) = events_again[a] {
            assert forall|t: int| 0 <= t < tagged.len() implies #[trigger] tagged[t] by {
                assert(albums_again[a].files@[t] < files_again.len());
                assert(disks.last().is_measured(same[file_of(albums_again, a, t)]));
            }
        }
    }
    lemma_measured_albums_are_skipped(albums_again, events_again);
}

/// The event says truthfully which files of an album are measured already. File `f` of the list is
/// file `same[f]` of the disk.
pub open spec fn tells_truth(
    albums: Seq<Album>,
    album: int,
    same: Seq<int>,
    disk: Disk,
    event: EventView,
) -> bool {
    event matches EventView::TagsChecked(tagged) && tagged.len() == albums[album].files@.len()
        && forall|t: int|
        0 <= t < tagged.len() ==> #[trigger] tagged[t] == disk.is_measured(
            same[file_of(albums, album, t)],
        )
}

} // verus!

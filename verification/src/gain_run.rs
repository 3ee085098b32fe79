//! The run that measures and tags the files of albums, step by step.

use crate::album::{files_in, Album};
use crate::replaygain::{
    album_values, count_no, count_yes, find_measured, find_yes, lemma_answers_are_counted,
    lemma_places_go_up, lemma_places_of_yes, measured_tracks, successes, values_for, Measured,
    TrackValues,
};
use vstd::prelude::*;

verus! {

/// What a run does next. Albums are named by their places in the plan, tracks by their places in
/// the album.
#[derive(Debug)]
pub enum GainStep {
    /// Find out which files of the album are measured already.
    CheckTags(usize),
    /// Measure all files of the album.
    Analyze(usize),
    /// Compute the loudness of these tracks of the album together.
    JoinLoudness(usize, Vec<usize>),
    /// Write these values to tracks of the album.
    WriteTags(usize, Vec<TrackValues>),
    /// All albums are done.
    Finished,
}

/// What a run does next, apart from how it is stored.
#[verifier::ext_equal]
pub enum StepView {
    CheckTags(int),
    Analyze(int),
    JoinLoudness(int, Seq<usize>),
    WriteTags(int, Seq<TrackValues>),
    Finished,
}

impl View for GainStep {
    type V = StepView;

    open spec fn view(&self) -> StepView {
        match *self {
            GainStep::CheckTags(album) => StepView::CheckTags(album as int),
            GainStep::Analyze(album) => StepView::Analyze(album as int),
            GainStep::JoinLoudness(album, tracks) => StepView::JoinLoudness(album as int, tracks@),
            GainStep::WriteTags(album, values) => StepView::WriteTags(album as int, values@),
            GainStep::Finished => StepView::Finished,
        }
    }
}

/// What came of a step.
pub enum GainEvent {
    /// Whether each file of the album is measured already.
    TagsChecked(Vec<bool>),
    /// What measuring each file of the album gave, where it could be measured.
    Analyzed(Vec<Option<Measured>>),
    /// The loudness of the tracks together, where it could be computed.
    Joined(Option<u64>),
    /// Whether each of the values could be written.
    Written(Vec<bool>),
}

/// What came of a step, apart from how it is stored.
#[verifier::ext_equal]
pub enum EventView {
    TagsChecked(Seq<bool>),
    Analyzed(Seq<Option<Measured>>),
    Joined(Option<u64>),
    Written(Seq<bool>),
}

impl View for GainEvent {
    type V = EventView;

    open spec fn view(&self) -> EventView {
        match *self {
            GainEvent::TagsChecked(tagged) => EventView::TagsChecked(tagged@),
            GainEvent::Analyzed(measured) => EventView::Analyzed(measured@),
            GainEvent::Joined(loudness) => EventView::Joined(loudness),
            GainEvent::Written(written) => EventView::Written(written@),
        }
    }
}

/// What has become of files so far.
#[derive(Debug, Clone, Copy, PartialEq, Eq)]
pub struct GainCounts {
    pub processed: usize,
    pub failed: usize,
    pub skipped_albums: usize,
    pub skipped_files: usize,
}

/// The number of files in the first `n` albums.
pub open spec fn files_before(sizes: Seq<nat>, n: int) -> nat
    decreases n,
{
    if n <= 0 {
        0
    } else {
        files_before(sizes, n - 1) + sizes[n - 1]
    }
}

/// Fewer albums hold no more files.
proof fn lemma_files_before_grows(sizes: Seq<nat>, m: int, n: int)
    requires
        0 <= m <= n <= sizes.len(),
    ensures
        files_before(sizes, m) <= files_before(sizes, n),
    decreases n - m,
{
    if m < n {
        lemma_files_before_grows(sizes, m, n - 1);
    }
}

/// The numbers of files of some albums.
pub open spec fn album_sizes(albums: Seq<Album>) -> Seq<nat> {
    albums.map_values(|album: Album| album.files@.len())
}

/// The sizes of albums add up to the number of their files.
proof fn lemma_sizes_add_up(albums: Seq<Album>, n: int)
    requires
        0 <= n <= albums.len(),
    ensures
        files_before(album_sizes(albums), n) == files_in(albums.take(n)),
    decreases n,
{
    if n > 0 {
        lemma_sizes_add_up(albums, n - 1);
        assert(albums.take(n).drop_last() =~= albums.take(n - 1));
        assert(albums.take(n).last() == albums[n - 1]);
    }
}

/// Where a run stands: the numbers of files of its albums, the next step, what measuring the
/// files of the current album gave while its loudness is being computed, and what has become of
/// the files so far.
#[verifier::ext_equal]
pub struct RunView {
    pub sizes: Seq<nat>,
    pub step: StepView,
    pub measured: Seq<Option<Measured>>,
    pub processed: nat,
    pub failed: nat,
    pub skipped_albums: nat,
    pub skipped_files: nat,
}

impl RunView {
    /// The first step of a run.
    pub open spec fn first_step(sizes: Seq<nat>) -> StepView {
        if sizes.len() > 0 {
            StepView::CheckTags(0)
        } else {
            StepView::Finished
        }
    }

    /// A run over some albums at its beginning.
    pub open spec fn begun(albums: Seq<Album>) -> RunView {
        RunView {
            sizes: album_sizes(albums),
            step: RunView::first_step(album_sizes(albums)),
            measured: Seq::empty(),
            processed: 0,
            failed: 0,
            skipped_albums: 0,
            skipped_files: 0,
        }
    }

    /// The step after an album is done: the next album, where there is one.
    pub open spec fn step_after(self, album: int) -> StepView {
        if album + 1 < self.sizes.len() {
            StepView::CheckTags(album + 1)
        } else {
            StepView::Finished
        }
    }

    /// The number of files whose fate is known.
    pub open spec fn accounted(self) -> nat {
        self.processed + self.failed + self.skipped_files
    }

    /// The number of all files.
    pub open spec fn total(self) -> nat {
        files_before(self.sizes, self.sizes.len() as int)
    }

    /// Each file before the current album is processed, failed or skipped, and of those in the
    /// album none but the ones that could not be measured.
    pub open spec fn is_valid(self) -> bool {
        &&& self.total() <= usize::MAX
        &&& match self.step {
            StepView::CheckTags(album) | StepView::Analyze(album) => {
                &&& 0 <= album < self.sizes.len()
                &&& self.skipped_albums <= album
                &&& self.accounted() == files_before(self.sizes, album)
            },
            StepView::JoinLoudness(album, tracks) => {
                &&& 0 <= album < self.sizes.len()
                &&& self.skipped_albums <= album
                &&& self.measured.len() == self.sizes[album]
                &&& tracks == measured_tracks(self.measured)
                &&& 0 < tracks.len() <= self.sizes[album]
                &&& self.accounted() == files_before(self.sizes, album) + self.sizes[album]
                    - tracks.len()
            },
            StepView::WriteTags(album, values) => {
                &&& 0 <= album < self.sizes.len()
                &&& self.skipped_albums <= album
                &&& 0 < values.len() <= self.sizes[album]
                &&& forall|i: int|
                    0 <= i < values.len() ==> (#[trigger] values[i]).track < self.sizes[album]
                &&& self.accounted() == files_before(self.sizes, album) + self.sizes[album]
                    - values.len()
            },
            StepView::Finished => {
                &&& self.skipped_albums <= self.sizes.len()
                &&& self.accounted() == self.total()
            },
        }
    }

    /// How many steps there are at most until the run is finished.
    pub open spec fn steps_left(self) -> int {
        match self.step {
            StepView::CheckTags(album) => 4 * (self.sizes.len() - album),
            StepView::Analyze(album) => 4 * (self.sizes.len() - album) - 1,
            StepView::JoinLoudness(album, _) => 4 * (self.sizes.len() - album) - 2,
            StepView::WriteTags(album, _) => 4 * (self.sizes.len() - album) - 3,
            StepView::Finished => 0,
        }
    }

    /// The event answers the step: it says something of each file, or of each of the values.
    pub open spec fn is_answered_by(self, event: EventView) -> bool {
        match (self.step, event) {
            (StepView::CheckTags(album), EventView::TagsChecked(tagged)) => tagged.len()
                == self.sizes[album],
            (StepView::Analyze(album), EventView::Analyzed(measured)) => measured.len()
                == self.sizes[album],
            (StepView::JoinLoudness(_, _), EventView::Joined(_)) => true,
            (StepView::WriteTags(_, values), EventView::Written(written)) => written.len()
                == values.len(),
            _ => false,
        }
    }

    /// Where the run stands after an event. An album all of whose files are measured already is
    /// skipped; else all its files are measured, and where some could be, their loudness together
    /// is computed and the values of just these tracks are written. What does not answer the step
    /// changes nothing.
    pub open spec fn after(self, event: EventView) -> RunView {
        if !self.is_answered_by(event) {
            self
        } else {
            match (self.step, event) {
                (StepView::CheckTags(album), EventView::TagsChecked(tagged)) => if forall|i: int|
                    0 <= i < tagged.len() ==> #[trigger] tagged[i] {
                    RunView {
                        step: self.step_after(album),
                        measured: Seq::empty(),
                        skipped_albums: self.skipped_albums + 1,
                        skipped_files: self.skipped_files + self.sizes[album],
                        ..self
                    }
                } else {
                    RunView { step: StepView::Analyze(album), measured: Seq::empty(), ..self }
                },
                (StepView::Analyze(album), EventView::Analyzed(measured)) => {
                    let tracks = measured_tracks(measured);
                    let failed = (self.failed + measured.len() - tracks.len()) as nat;
                    if tracks.len() == 0 {
                        RunView {
                            step: self.step_after(album),
                            measured: Seq::empty(),
                            failed,
                            ..self
                        }
                    } else {
                        RunView {
                            step: StepView::JoinLoudness(album, tracks),
                            measured,
                            failed,
                            ..self
                        }
                    }
                },
                (StepView::JoinLoudness(album, _), EventView::Joined(loudness)) => RunView {
                    step: StepView::WriteTags(album, values_for(self.measured, loudness)),
                    measured: Seq::empty(),
                    ..self
                },
                (StepView::WriteTags(album, _), EventView::Written(written)) => RunView {
                    step: self.step_after(album),
                    measured: Seq::empty(),
                    processed: self.processed + count_yes(written),
                    failed: (self.failed + count_no(written)) as nat,
                    ..self
                },
                _ => self,
            }
        }
    }
}

/// What changes during a run.
struct Progress {
    step: GainStep,
    measured: Vec<Option<Measured>>,
    counts: GainCounts,
}

/// A run over the albums of a plan.
pub struct GainRun {
    sizes: Vec<usize>,
    progress: Progress,
}

impl View for GainRun {
    type V = RunView;

    closed spec fn view(&self) -> RunView {
        RunView {
            sizes: self.sizes@.map_values(|size: usize| size as nat),
            step: self.progress.step@,
            measured: self.progress.measured@,
            processed: self.progress.counts.processed as nat,
            failed: self.progress.counts.failed as nat,
            skipped_albums: self.progress.counts.skipped_albums as nat,
            skipped_files: self.progress.counts.skipped_files as nat,
        }
    }
}

impl GainRun {
    /// A run is valid at all times.
    #[verifier::type_invariant]
    closed spec fn is_sound(self) -> bool {
        self@.is_valid()
    }

    /// Begins a run over albums.
    pub(crate) fn begin(albums: &Vec<Album>) -> (run: GainRun)
        requires
            files_in(albums@) <= usize::MAX,
        ensures
            run@ == RunView::begun(albums@),
            run@.is_valid(),
            run@.total() == files_in(albums@),
    {
        let mut sizes: Vec<usize> = Vec::new();
        let mut a: usize = 0;
        while a < albums.len()
            invariant
                a <= albums@.len(),
                sizes@.len() == a,
                forall|b: int| 0 <= b < a ==> (#[trigger] sizes@[b]) == albums@[b].files@.len(),
            decreases albums@.len() - a,
        {
            sizes.push(albums[a].files.len());
            a += 1;
        }
        proof {
            lemma_sizes_add_up(albums@, albums@.len() as int);
            assert(albums@.take(albums@.len() as int) =~= albums@);
            assert(sizes@.map_values(|size: usize| size as nat) =~= album_sizes(albums@));
        }
        let step: GainStep = if sizes.len() > 0 {
            GainStep::CheckTags(0)
        } else {
            GainStep::Finished
        };
        let counts = GainCounts { processed: 0, failed: 0, skipped_albums: 0, skipped_files: 0 };
        GainRun { sizes, progress: Progress { step, measured: Vec::new(), counts } }
    }

    /// The step that is to be done next.
    pub fn step(&self) -> (step: &GainStep)
        ensures
            step@ == self@.step,
            self@.is_valid(),
    {
        proof {
            use_type_invariant(self);
        }
        &self.progress.step
    }

    /// What has become of the files so far.
    pub fn counts(&self) -> (counts: GainCounts)
        ensures
            counts.processed == self@.processed,
            counts.failed == self@.failed,
            counts.skipped_albums == self@.skipped_albums,
            counts.skipped_files == self@.skipped_files,
    {
        self.progress.counts
    }

    /// The step after an album is done.
    fn next_album(&self, album: usize) -> (step: GainStep)
        requires
            album < self@.sizes.len(),
        ensures
            step@ == self@.step_after(album as int),
    {
        if self.sizes.len() - album > 1 {
            GainStep::CheckTags(album + 1)
        } else {
            GainStep::Finished
        }
    }

    /// Goes on after a step, where the event answers it, and says whether it does.
    pub fn advance(&mut self, event: GainEvent) -> (answered: bool)
        ensures
            answered == old(self)@.is_answered_by(event@),
            final(self)@ == old(self)@.after(event@),
            final(self)@.is_valid(),
            answered ==> final(self)@.steps_left() < old(self)@.steps_left(),
    {
        proof {
            use_type_invariant(&*self);
        }
        let ghost before = self@;
        assert(self.sizes@.len() == self.sizes.len());
        let counts = self.progress.counts;
        let next: Progress = match (&self.progress.step, event) {
            (GainStep::CheckTags(album), GainEvent::TagsChecked(tagged)) => {
                let album: usize = *album;
                if tagged.len() != self.sizes[album] {
                    return false;
                }
                proof {
                    lemma_places_of_yes(tagged@);
                    lemma_files_before_grows(before.sizes, album + 1, before.sizes.len() as int);
                }
                if find_yes(&tagged).len() == tagged.len() {
                    Progress {
                        step: self.next_album(album),
                        measured: Vec::new(),
                        counts: GainCounts {
                            skipped_albums: counts.skipped_albums + 1,
                            skipped_files: counts.skipped_files + self.sizes[album],
                            ..counts
                        },
                    }
                } else {
                    Progress { step: GainStep::Analyze(album), measured: Vec::new(), counts }
                }
            },
            (GainStep::Analyze(album), GainEvent::Analyzed(measured)) => {
                let album: usize = *album;
                if measured.len() != self.sizes[album] {
                    return false;
                }
                proof {
                    lemma_places_of_yes(successes(measured@));
                    lemma_files_before_grows(before.sizes, album + 1, before.sizes.len() as int);
                }
                let tracks = find_measured(&measured);
                let failed: usize = counts.failed + (measured.len() - tracks.len());
                if tracks.len() == 0 {
                    Progress {
                        step: self.next_album(album),
                        measured: Vec::new(),
                        counts: GainCounts { failed, ..counts },
                    }
                } else {
                    Progress {
                        step: GainStep::JoinLoudness(album, tracks),
                        measured,
                        counts: GainCounts { failed, ..counts },
                    }
                }
            },
            (GainStep::JoinLoudness(album, _), GainEvent::Joined(loudness)) => {
                proof {
                    lemma_places_of_yes(successes(before.measured));
                }
                let values = album_values(&self.progress.measured, loudness);
                Progress {
                    step: GainStep::WriteTags(*album, values),
                    measured: Vec::new(),
                    counts,
                }
            },
            (GainStep::WriteTags(album, values), GainEvent::Written(written)) => {
                let album: usize = *album;
                if written.len() != values.len() {
                    return false;
                }
                proof {
                    lemma_places_of_yes(written@);
                    lemma_files_before_grows(before.sizes, album + 1, before.sizes.len() as int);
                }
                let done: usize = find_yes(&written).len();
                Progress {
                    step: self.next_album(album),
                    measured: Vec::new(),
                    counts: GainCounts {
                        processed: counts.processed + done,
                        failed: counts.failed + (written.len() - done),
                        ..counts
                    },
                }
            },
            _ => {
                return false;
            },
        };
        self.progress = next;
        true
    }
}

/// A valid run stays valid whatever happens, over the same albums, and no failure is forgotten.
pub proof fn lemma_run_stays_valid(run: RunView, event: EventView)
    requires
        run.is_valid(),
    ensures
        run.after(event).is_valid(),
        run.after(event).sizes == run.sizes,
        run.after(event).failed >= run.failed,
{
    let all = run.sizes.len() as int;
    match (run.step, event) {
        (StepView::CheckTags(album), EventView::TagsChecked(tagged)) => {
            lemma_files_before_grows(run.sizes, album + 1, all);
        },
        (StepView::Analyze(album), EventView::Analyzed(measured)) => {
            lemma_files_before_grows(run.sizes, album + 1, all);
            if run.is_answered_by(event) {
                lemma_places_of_yes(successes(measured));
            }
        },
        (StepView::JoinLoudness(album, _), EventView::Joined(_)) => {
            lemma_files_before_grows(run.sizes, album + 1, all);
            lemma_places_of_yes(successes(run.measured));
        },
        (StepView::WriteTags(album, values), EventView::Written(written)) => {
            lemma_files_before_grows(run.sizes, album + 1, all);
            if run.is_answered_by(event) {
                lemma_places_of_yes(written);
            }
        },
        _ => {},
    }
}

/// A run over albums that hold no more files than can be counted is valid at its beginning.
pub proof fn lemma_begun_run_is_valid(albums: Seq<Album>)
    requires
        files_in(albums) <= usize::MAX,
    ensures
        RunView::begun(albums).is_valid(),
        RunView::begun(albums).total() == files_in(albums),
{
    lemma_sizes_add_up(albums, albums.len() as int);
    assert(albums.take(albums.len() as int) =~= albums);
}

/// Where a run stands after some events.
pub open spec fn state_after(run: RunView, events: Seq<EventView>) -> RunView
    decreases events.len(),
{
    if events.len() == 0 {
        run
    } else {
        state_after(run, events.drop_last()).after(events.last())
    }
}

/// The tracks whose loudness is computed together are just those to which values are written, and
/// what is written follows from what measuring the files of their album gave and from that
/// loudness alone.
pub proof fn lemma_joined_tracks_are_written(run: RunView, loudness: Option<u64>)
    requires
        run.is_valid(),
        run.step is JoinLoudness,
    ensures
        ({
            let next = run.after(EventView::Joined(loudness)).step;
            match (run.step, next) {
                (
                    StepView::JoinLoudness(album, tracks),
                    StepView::WriteTags(same, values),
                ) => {
                    &&& same == album
                    &&& values == values_for(run.measured, loudness)
                    &&& values.map_values(|value: TrackValues| value.track) == tracks
                },
                _ => false,
            }
        }),
{
    if let StepView::JoinLoudness(_, tracks) = run.step {
        let values = values_for(run.measured, loudness);
        assert(values.map_values(|value: TrackValues| value.track) =~= tracks);
    }
}

/// At the end of a run each file has been processed, has failed, or is in a skipped album.
pub proof fn lemma_finished_run_accounts_for_every_file(run: RunView)
    requires
        run.is_valid(),
        run.step == StepView::Finished,
    ensures
        run.processed + run.failed + run.skipped_files == run.total(),
{
}

/// A valid run that is not finished has steps left, and a finished one has none.
pub proof fn lemma_run_ends(run: RunView)
    requires
        run.is_valid(),
    ensures
        run.steps_left() >= 0,
        run.steps_left() == 0 <==> run.step == StepView::Finished,
{
}

/// A run begins with the first album, where there is one, and with nothing counted.
pub proof fn lemma_run_begins_with_the_first_album(albums: Seq<Album>)
    ensures
        RunView::begun(albums).sizes.len() == albums.len(),
        forall|a: int|
            0 <= a < albums.len() ==> #[trigger] RunView::begun(albums).sizes[a]
                == albums[a].files@.len(),
        albums.len() > 0 ==> RunView::begun(albums).step == StepView::CheckTags(0),
        albums.len() == 0 ==> RunView::begun(albums).step == StepView::Finished,
        RunView::begun(albums).processed == 0,
        RunView::begun(albums).failed == 0,
        RunView::begun(albums).skipped_albums == 0,
        RunView::begun(albums).skipped_files == 0,
{
}

/// An event answers a step exactly where it is of its kind and says something of each file of the
/// album, or of each of the values; any other event changes nothing.
pub proof fn lemma_answers_are_complete(run: RunView, event: EventView)
    ensures
        run.is_answered_by(event) <==> ({
            ||| {
                &&& run.step is CheckTags
                &&& event is TagsChecked
                &&& event->TagsChecked_0.len() == run.sizes[run.step->CheckTags_0]
            }
            ||| {
                &&& run.step is Analyze
                &&& event is Analyzed
                &&& event->Analyzed_0.len() == run.sizes[run.step->Analyze_0]
            }
            ||| run.step is JoinLoudness && event is Joined
            ||| {
                &&& run.step is WriteTags
                &&& event is Written
                &&& event->Written_0.len() == run.step->WriteTags_1.len()
            }
        }),
        !run.is_answered_by(event) ==> run.after(event) == run,
{
}

/// The album after one that is done is the next in the plan, and after the last one the run is
/// finished.
pub proof fn lemma_albums_follow_each_other(run: RunView, album: int)
    ensures
        album + 1 < run.sizes.len() ==> run.step_after(album) == StepView::CheckTags(album + 1),
        album + 1 >= run.sizes.len() ==> run.step_after(album) == StepView::Finished,
{
}

/// An album is skipped exactly where all its files are measured already; then its files count as
/// skipped, and nothing is measured. As soon as one is not, all files of the album are measured.
pub proof fn lemma_only_measured_albums_are_skipped(
    run: RunView,
    album: int,
    tagged: Seq<bool>,
)
    requires
        run.step == StepView::CheckTags(album),
        tagged.len() == run.sizes[album],
    ensures
        ({
            let next = run.after(EventView::TagsChecked(tagged));
            &&& next.processed == run.processed
            &&& next.failed == run.failed
            &&& (exists|t: int| 0 <= t < tagged.len() && !(#[trigger] tagged[t])) ==> {
                &&& next.step == StepView::Analyze(album)
                &&& next.skipped_albums == run.skipped_albums
                &&& next.skipped_files == run.skipped_files
            }
            &&& (forall|t: int| 0 <= t < tagged.len() ==> #[trigger] tagged[t]) ==> {
                &&& next.skipped_albums == run.skipped_albums + 1
                &&& next.skipped_files == run.skipped_files + tagged.len()
                &&& album + 1 < run.sizes.len() ==> next.step == StepView::CheckTags(album + 1)
                &&& album + 1 >= run.sizes.len() ==> next.step == StepView::Finished
            }
        }),
{
}

/// Of an album of which some file could be measured, just the files for which that worked go on,
/// in their order; the others have failed, and so have all where none could be measured.
pub proof fn lemma_measured_files_go_on(
    run: RunView,
    album: int,
    measured: Seq<Option<Measured>>,
)
    requires
        run.step == StepView::Analyze(album),
        measured.len() == run.sizes[album],
        measured.len() <= usize::MAX,
    ensures
        ({
            let next = run.after(EventView::Analyzed(measured));
            &&& next.processed == run.processed
            &&& next.skipped_albums == run.skipped_albums
            &&& next.skipped_files == run.skipped_files
            &&& (exists|t: int| 0 <= t < measured.len() && (#[trigger] measured[t]) is Some) ==> {
                &&& next.step matches StepView::JoinLoudness(same, tracks)
                &&& same == album
                &&& next.measured == measured
                &&& next.failed + tracks.len() == run.failed + measured.len()
                &&& forall|t: usize|
                    t < measured.len() ==> (#[trigger] tracks.contains(t)
                        <==> measured[t as int] is Some)
                &&& forall|i: int, j: int|
                    #![trigger tracks[i], tracks[j]]
                    0 <= i < j < tracks.len() ==> tracks[i] < tracks[j] < measured.len()
            }
            &&& (forall|t: int| 0 <= t < measured.len() ==> (#[trigger] measured[t]) is None) ==> {
                &&& next.failed == run.failed + measured.len()
                &&& album + 1 < run.sizes.len() ==> next.step == StepView::CheckTags(album + 1)
                &&& album + 1 >= run.sizes.len() ==> next.step == StepView::Finished
            }
        }),
{
    let answers = successes(measured);
    let tracks = measured_tracks(measured);
    lemma_places_of_yes(answers);
    lemma_places_go_up(answers);
    if exists|t: int| 0 <= t < measured.len() && (#[trigger] measured[t]) is Some {
        let t = choose|t: int| 0 <= t < measured.len() && (#[trigger] measured[t]) is Some;
        assert(answers[t as usize as int]);
        assert(tracks.contains(t as usize));
        assert forall|t: usize| t < measured.len() implies (#[trigger] tracks.contains(t)
            <==> measured[t as int] is Some) by {
            assert(answers[t as int] == (measured[t as int] is Some));
        }
    }
    if forall|t: int| 0 <= t < measured.len() ==> (#[trigger] measured[t]) is None {
        if tracks.len() > 0 {
            assert(answers[tracks[0] as int]);
            assert(measured[tracks[0] as int] is Some);
        }
    }
}

/// Each value that could be written counts as one file processed, and each other as one failed;
/// then the album is done.
pub proof fn lemma_written_files_are_counted(
    run: RunView,
    album: int,
    values: Seq<TrackValues>,
    written: Seq<bool>,
)
    requires
        run.step == StepView::WriteTags(album, values),
        written.len() == values.len(),
    ensures
        ({
            let next = run.after(EventView::Written(written));
            &&& next.processed == run.processed + written.filter(|w: bool| w).len()
            &&& next.failed == run.failed + written.filter(|w: bool| !w).len()
            &&& next.skipped_albums == run.skipped_albums
            &&& next.skipped_files == run.skipped_files
            &&& album + 1 < run.sizes.len() ==> next.step == StepView::CheckTags(album + 1)
            &&& album + 1 >= run.sizes.len() ==> next.step == StepView::Finished
        }),
{
    lemma_answers_are_filtered(written);
}

/// The numbers of answers that are yes and that are no.
proof fn lemma_answers_are_filtered(answers: Seq<bool>)
    ensures
        count_yes(answers) == answers.filter(|a: bool| a).len(),
        count_no(answers) == answers.filter(|a: bool| !a).len(),
    decreases answers.len(),
{
    reveal(Seq::filter);
    if answers.len() > 0 {
        let before = answers.drop_last();
        lemma_answers_are_filtered(before);
        lemma_answers_are_counted(before, answers.last());
        assert(before.push(answers.last()) =~= answers);
    }
}

/// Steps and events say just what is stored in them.
pub proof fn lemma_steps_and_events_show_what_they_hold(step: GainStep, event: GainEvent)
    ensures
        match step {
            GainStep::CheckTags(album) => step@ == StepView::CheckTags(album as int),
            GainStep::Analyze(album) => step@ == StepView::Analyze(album as int),
            GainStep::JoinLoudness(album, tracks) => step@ == StepView::JoinLoudness(
                album as int,
                tracks@,
            ),
            GainStep::WriteTags(album, values) => step@ == StepView::WriteTags(
                album as int,
                values@,
            ),
            GainStep::Finished => step@ == StepView::Finished,
        },
        match event {
            GainEvent::TagsChecked(tagged) => event@ == EventView::TagsChecked(tagged@),
            GainEvent::Analyzed(measured) => event@ == EventView::Analyzed(measured@),
            GainEvent::Joined(loudness) => event@ == EventView::Joined(loudness),
            GainEvent::Written(written) => event@ == EventView::Written(written@),
        },
{
}

} // verus!

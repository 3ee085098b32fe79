//! What looking a file up and tagging it come to: which recordings become which candidates, what
//! is searched for, which candidates are offered and in what order, and how files are counted.

use crate::lofty_file::{lemma_new_texts_change_one_tag, primary_texts, texts_read_of};
use crate::lofty_tag::{format_of, holds_key, is_primary_format};
use crate::number::{
    decimal_text, decimal_value, lemma_decimal_round_trip, lemma_numeral_is_plain,
};
use crate::order::{
    comes_before, is_descending_order, lemma_order_is_unique, lemma_order_lists_each_once,
};
use crate::replaygain::{gains_written, texts_with_gains};
use crate::tag::{
    candidate_keys, candidate_written, candidates_of, existing_lowercase, existing_of,
    existing_read, found_candidates, is_lookup_history, is_ranking, lemma_query_names_what_is_known,
    lemma_text_after_writing, line_action, looked_up_in, lookup_after, lowercase_of_optional,
    match_points, outcome_of, prompt_action, run_after, search_queries, texts_with_candidate,
    CandidateView, ExistingMeta, ExistingView, FileOutcome, LookupEnd, LookupEvent, LookupStep,
    LookupView, MbSearchRecording, PromptAction, PromptEvent, TagCandidate, TagRunView,
    MOST_CANDIDATES, MUSICBRAINZ_WS, USER_AGENT,
};
use crate::text::{
    before_mark, is_blank, lemma_trimmed_of_padded, lowercase_of, occurs_in, text_of, trimmed,
};
use lofty::tag::{ItemKey, Tag, TagType};
use vstd::prelude::*;

verus! {

/// The contents of a candidate are those of its fields.
pub proof fn lemma_candidate_shows_its_fields(candidate: TagCandidate)
    ensures
        candidate@.title == text_of(candidate.title),
        candidate@.artist == text_of(candidate.artist),
        candidate@.album == text_of(candidate.album),
        candidate@.album_artist == text_of(candidate.album_artist),
        candidate@.year == candidate.year,
        candidate@.track == candidate.track,
        candidate@.genre == text_of(candidate.genre),
        candidate@.musicbrainz_recording_id == text_of(candidate.musicbrainz_recording_id),
        candidate@.score == candidate.score,
        candidate@.source == candidate.source@,
{
}

/// The contents of the tags of a file are those of its fields.
pub proof fn lemma_existing_tags_show_their_fields(existing: ExistingMeta)
    ensures
        existing@.title == text_of(existing.title),
        existing@.artist == text_of(existing.artist),
        existing@.album == text_of(existing.album),
{
}

/// A file has been looked up exactly where more than white space is read of it under the key of
/// the recording's id.
pub proof fn lemma_looked_up_files_have_an_id(texts: Map<ItemKey, Seq<char>>)
    ensures
        looked_up_in(Some(texts)) <==> texts.contains_key(ItemKey::MusicBrainzRecordingId)
            && !is_blank(texts[ItemKey::MusicBrainzRecordingId]),
        !looked_up_in(None),
{
}

/// A file has tags to search with exactly where it has a title or an artist, and they are what is
/// read of it.
pub proof fn lemma_existing_tags_are_read(texts: Map<ItemKey, Seq<char>>)
    ensures
        existing_read(Some(texts)) is None <==> !texts.contains_key(ItemKey::TrackTitle)
            && !texts.contains_key(ItemKey::TrackArtist),
        existing_read(Some(texts)) matches Some(existing) ==> {
            &&& existing.title == texts.get(ItemKey::TrackTitle)
            &&& existing.artist == texts.get(ItemKey::TrackArtist)
            &&& existing.album == texts.get(ItemKey::AlbumTitle)
        },
        existing_read(None) is None,
{
}

/// A candidate says what the recording says: its own title and id, its first artist, and the title,
/// the year and the first track number of its first release. Only where no releases are listed
/// does the year of its first release date count.
pub proof fn lemma_candidate_says_what_the_recording_says(rec: MbSearchRecording)
    ensures
        rec.candidate().title == text_of(rec.title),
        rec.candidate().album_artist is None,
        rec.candidate().genre is None,
        rec.candidate().musicbrainz_recording_id == Some(rec.id@),
        rec.candidate().score == rec.score,
        rec.candidate().source == "MusicBrainz"@,
        rec.candidate().artist == (match rec.artist_credit {
            Some(credits) => if credits@.len() > 0 {
                text_of(credits@[0].name)
            } else {
                None
            },
            None => None,
        }),
        match rec.releases {
            Some(releases) => if releases@.len() > 0 {
                let first = releases@[0];
                &&& rec.candidate().album == text_of(first.title)
                &&& first.date is None ==> rec.candidate().year is None
                &&& first.date matches Some(date) ==> rec.candidate().year == (match decimal_value(
                    before_mark(date@, '-'),
                    0xffff_ffff,
                ) {
                    Some(year) => Some(year as u32),
                    None => None,
                })
                &&& match first.medium {
                    Some(media) => if media@.len() > 0 {
                        match media@[0].track {
                            Some(tracks) => if tracks@.len() > 0 {
                                match tracks@[0].number {
                                    Some(number) => rec.candidate().track == (
                                    match decimal_value(number@, 0xffff) {
                                        Some(n) => Some(n as u16),
                                        None => None,
                                    }),
                                    None => rec.candidate().track is None,
                                }
                            } else {
                                rec.candidate().track is None
                            },
                            None => rec.candidate().track is None,
                        }
                    } else {
                        rec.candidate().track is None
                    },
                    None => rec.candidate().track is None,
                }
            } else {
                &&& rec.candidate().album is None
                &&& rec.candidate().year is None
                &&& rec.candidate().track is None
            },
            None => {
                &&& rec.candidate().album is None
                &&& rec.candidate().track is None
                &&& rec.first_release_date is None ==> rec.candidate().year is None
                &&& rec.first_release_date matches Some(date) ==> rec.candidate().year == (
                match decimal_value(before_mark(date@, '-'), 0xffff_ffff) {
                    Some(year) => Some(year as u32),
                    None => None,
                })
            },
        },
{
}

/// A date that begins with the numeral of a year is one of that year, whatever follows after a
/// dash.
pub proof fn lemma_year_is_read_before_the_dash(year: u32, rest: Seq<char>)
    ensures
        decimal_value(before_mark(decimal_text(year as nat), '-'), 0xffff_ffff) == Some(
            year as nat,
        ),
        decimal_value(
            before_mark(decimal_text(year as nat) + seq!['-'] + rest, '-'),
            0xffff_ffff,
        ) == Some(year as nat),
{
    let text = decimal_text(year as nat);
    lemma_numeral_is_plain(year as nat);
    lemma_decimal_round_trip(year as nat, 0xffff_ffff);
    lemma_before_mark_is_all(text, '-');
    lemma_before_mark_ends(text, '-', rest);
}

/// A text without the mark is all before it.
proof fn lemma_before_mark_is_all(text: Seq<char>, mark: char)
    requires
        forall|i: int| 0 <= i < text.len() ==> #[trigger] text[i] != mark,
    ensures
        before_mark(text, mark) == text,
    decreases text.len(),
{
    if text.len() > 0 {
        let rest = text.drop_first();
        assert forall|i: int| 0 <= i < rest.len() implies #[trigger] rest[i] != mark by {
            assert(rest[i] == text[i + 1]);
        }
        lemma_before_mark_is_all(rest, mark);
        assert(seq![text[0]] + rest =~= text);
    }
}

/// What stands before a mark is a text without it that the mark follows.
proof fn lemma_before_mark_ends(text: Seq<char>, mark: char, after: Seq<char>)
    requires
        forall|i: int| 0 <= i < text.len() ==> #[trigger] text[i] != mark,
    ensures
        before_mark(text + seq![mark] + after, mark) == text,
    decreases text.len(),
{
    let all = text + seq![mark] + after;
    if text.len() > 0 {
        let rest = text.drop_first();
        assert forall|i: int| 0 <= i < rest.len() implies #[trigger] rest[i] != mark by {
            assert(rest[i] == text[i + 1]);
        }
        lemma_before_mark_ends(rest, mark, after);
        assert(all.drop_first() =~= rest + seq![mark] + after);
        assert(all[0] == text[0]);
        assert(seq![text[0]] + rest =~= text);
    } else {
        assert(all[0] == mark);
        assert(before_mark(all, mark) =~= text);
    }
}

/// The points of a candidate are those for its artist, its title and its album, each on its own:
/// 100 for the artist that the file has, 50 for one that contains it or is contained in it, the
/// same for the title, and 10 for an album that names the artist of the file.
pub proof fn lemma_points_add_up(
    artist: Option<Seq<char>>,
    title: Option<Seq<char>>,
    album: Option<Seq<char>>,
    file_artist: Option<Seq<char>>,
    file_title: Option<Seq<char>>,
)
    ensures
        match_points(artist, title, album, file_artist, file_title) == match_points(
            artist,
            None,
            None,
            file_artist,
            None,
        ) + match_points(None, title, None, None, file_title) + match_points(
            None,
            None,
            album,
            file_artist,
            None,
        ),
        match (artist, file_artist) {
            (Some(a), Some(f)) => {
                let points = match_points(artist, None, None, file_artist, None);
                &&& points == 100 <==> a == f
                &&& points == 50 <==> a != f && (occurs_in(a, f) || occurs_in(f, a))
                &&& points == 0 <==> a != f && !occurs_in(a, f) && !occurs_in(f, a)
            },
            _ => match_points(artist, None, None, file_artist, None) == 0,
        },
        match (title, file_title) {
            (Some(t), Some(f)) => {
                let points = match_points(None, title, None, None, file_title);
                &&& points == 100 <==> t == f
                &&& points == 50 <==> t != f && (occurs_in(t, f) || occurs_in(f, t))
                &&& points == 0 <==> t != f && !occurs_in(t, f) && !occurs_in(f, t)
            },
            _ => match_points(None, title, None, None, file_title) == 0,
        },
        match (album, file_artist) {
            (Some(r), Some(f)) => {
                let points = match_points(None, None, album, file_artist, None);
                &&& points == 10 <==> occurs_in(r, f)
                &&& points == 0 <==> !occurs_in(r, f)
            },
            _ => match_points(None, None, album, file_artist, None) == 0,
        },
{
}

/// The lower case of a text that may be missing is missing with it.
pub proof fn lemma_lowercase_of_optional(text: Seq<char>)
    ensures
        lowercase_of_optional(Some(text)) == Some(lowercase_of(text)),
        lowercase_of_optional(None) is None,
{
}

/// The points of a candidate are counted on the lower case of all its texts and of those of the
/// file.
pub proof fn lemma_points_are_those_of_lower_case(
    candidate: CandidateView,
    artist: Option<Seq<char>>,
    title: Option<Seq<char>>,
)
    ensures
        candidate.points(artist, title) == match_points(
            lowercase_of_optional(candidate.artist),
            lowercase_of_optional(candidate.title),
            lowercase_of_optional(candidate.album),
            lowercase_of_optional(artist),
            lowercase_of_optional(title),
        ),
{
}

/// A candidate with the artist and the title of the file, letter case aside, has more points than
/// any whose artist or whose title is another.
pub proof fn lemma_full_match_has_most_points(
    full: CandidateView,
    other: CandidateView,
    artist: Seq<char>,
    title: Seq<char>,
)
    requires
        full.artist is Some,
        full.title is Some,
    ensures
        lowercase_of(full.artist.unwrap()) == lowercase_of(artist) && lowercase_of(
            full.title.unwrap(),
        ) == lowercase_of(title) && (other.artist is None || other.title is None || lowercase_of(
            other.artist.unwrap(),
        ) != lowercase_of(artist) || lowercase_of(other.title.unwrap()) != lowercase_of(title))
            ==> full.points(Some(artist), Some(title)) > other.points(Some(artist), Some(title)),
{
}

/// The queries for a file: the first asks for every tag that the file has, the last for its title
/// alone, and where the file has an artist there is one between them that asks for title and
/// artist. Without a title nothing is asked.
pub proof fn lemma_queries_widen(meta: ExistingView)
    ensures
        search_queries(None).len() == 0,
        meta.title is None ==> search_queries(Some(meta)).len() == 0,
        meta.title matches Some(title) ==> {
            let queries = search_queries(Some(meta));
            &&& match (meta.artist, meta.album) {
                (Some(a), Some(r)) => queries[0] == "recording:\""@ + title + "\" AND artist:\""@ + a
                    + "\" AND release:\""@ + r + "\""@,
                (Some(a), None) => queries[0] == "recording:\""@ + title + "\" AND artist:\""@ + a
                    + "\""@,
                (None, Some(r)) => queries[0] == "recording:\""@ + title + "\" AND release:\""@ + r
                    + "\""@,
                (None, None) => queries[0] == "recording:\""@ + title + "\""@,
            }
            &&& queries.last() == "recording:\""@ + title + "\""@
            &&& meta.artist is None ==> queries.len() == 2
            &&& meta.artist matches Some(a) ==> {
                &&& queries.len() == 3
                &&& queries[1] == "recording:\""@ + title + "\" AND artist:\""@ + a + "\""@
            }
        },
{
    if let Some(title) = meta.title {
        lemma_query_names_what_is_known(title, meta.artist, meta.album);
        lemma_query_names_what_is_known(title, meta.artist, None);
        lemma_query_names_what_is_known(title, None, None);
    }
}

/// The points of a candidate for a file: against the lower case of the file's artist and title.
pub open spec fn points_for(candidate: CandidateView, meta: ExistingView) -> nat {
    candidate.points(
        match meta.artist {
            Some(artist) => Some(lowercase_of(artist)),
            None => None,
        },
        match meta.title {
            Some(title) => Some(lowercase_of(title)),
            None => None,
        },
    )
}

/// Where a text's lower case is its own lower case, the points of a candidate for a file are those
/// against the file's own artist and title.
pub proof fn lemma_points_for_a_file(candidate: CandidateView, meta: ExistingView)
    ensures
        (meta.artist matches Some(a) ==> lowercase_of(lowercase_of(a)) == lowercase_of(a)) && (
        meta.title matches Some(t) ==> lowercase_of(lowercase_of(t)) == lowercase_of(t))
            ==> points_for(candidate, meta) == candidate.points(meta.artist, meta.title),
{
}

/// A ranking lists the best candidates for a file, ten at most: it goes down in points for the
/// file's own artist and title, candidates with the same points stay in their order, and of those
/// that are left out none has more points than the last, and none that has as many stood before
/// it. `order` gives the places of the ranked candidates.
pub proof fn lemma_ranking_goes_by_points(
    candidates: Seq<CandidateView>,
    meta: ExistingView,
    ranked: Seq<CandidateView>,
) -> (order: Seq<int>)
    requires
        is_ranking(candidates, Some(meta), ranked),
    ensures
        ranked.len() == (if candidates.len() < 10 {
            candidates.len() as int
        } else {
            10
        }),
        order.len() == candidates.len(),
        forall|i: int| 0 <= i < order.len() ==> 0 <= (#[trigger] order[i]) < candidates.len(),
        order.no_duplicates(),
        forall|i: int| 0 <= i < ranked.len() ==> #[trigger] ranked[i] == candidates[order[i]],
        forall|i: int, j: int|
            #![trigger order[i], order[j]]
            0 <= i < j < order.len() ==> {
                let before = points_for(candidates[order[i]], meta);
                let after = points_for(candidates[order[j]], meta);
                before > after || (before == after && order[i] < order[j])
            },
{
    let keys = candidate_keys(candidates, Some(meta));
    let count = if candidates.len() < 10 {
        candidates.len() as int
    } else {
        10
    };
    let places = choose|order: Seq<usize>|
        #[trigger] is_descending_order(keys, order) && ranked == order.take(count).map_values(
            |place: usize| candidates[place as int],
        );
    lemma_order_lists_each_once(keys, places);
    let order = places.map_values(|place: usize| place as int);
    let (artist, title) = existing_lowercase(Some(meta));
    assert forall|c: int| 0 <= c < candidates.len() implies #[trigger] keys[c] == points_for(
        candidates[c],
        meta,
    ) by {
        lemma_points_are_few(candidates[c], artist, title);
    }
    assert forall|i: int, j: int|
        #![trigger order[i], order[j]]
        0 <= i < j < order.len() implies {
        let before = points_for(candidates[order[i]], meta);
        let after = points_for(candidates[order[j]], meta);
        before > after || (before == after && order[i] < order[j])
    } by {
        assert(comes_before(keys, places[i], places[j]));
        assert(keys[places[i] as int] == points_for(candidates[order[i]], meta));
        assert(keys[places[j] as int] == points_for(candidates[order[j]], meta));
    }
    order
}

/// No candidate has more than 210 points.
proof fn lemma_points_are_few(
    candidate: CandidateView,
    artist: Option<Seq<char>>,
    title: Option<Seq<char>>,
)
    ensures
        candidate.points(artist, title) <= 210,
{
}

/// Of a file without tags all candidates have no points, so that the first ten are offered in
/// their order.
pub proof fn lemma_ranking_without_tags(
    candidates: Seq<CandidateView>,
    ranked: Seq<CandidateView>,
)
    requires
        is_ranking(candidates, None, ranked),
    ensures
        ranked == candidates.take(
            if candidates.len() < 10 {
                candidates.len() as int
            } else {
                10
            },
        ),
{
    let keys = candidate_keys(candidates, None);
    let count = if candidates.len() < 10 {
        candidates.len() as int
    } else {
        10
    };
    let places = choose|order: Seq<usize>|
        #[trigger] is_descending_order(keys, order) && ranked == order.take(count).map_values(
            |place: usize| candidates[place as int],
        );
    lemma_order_lists_each_once(keys, places);
    let same = Seq::new(candidates.len(), |i: int| i as usize);
    assert forall|c: int| 0 <= c < candidates.len() implies #[trigger] keys[c] == 0 by {}
    assert(is_descending_order(keys, same)) by {
        assert forall|i: int, j: int| 0 <= i < j < same.len() implies #[trigger] comes_before(
            keys,
            same[i],
            same[j],
        ) by {
            assert(same[i] as int == i);
            assert(same[j] as int == j);
            assert(keys[i] == 0);
            assert(keys[j] == 0);
        }
    }
    lemma_order_is_unique(keys, places, same);
    assert(ranked =~= candidates.take(count));
}

/// The candidates that a search found are those of its recordings, one for each, in their order.
pub proof fn lemma_each_recording_is_a_candidate(found: Seq<MbSearchRecording>)
    ensures
        found_candidates(found).len() == found.len(),
        forall|i: int|
            0 <= i < found.len() ==> #[trigger] found_candidates(found)[i] == found[i].candidate(),
{
}

/// As long as nothing is found, the queries for a file are sent one after the other, each once, and
/// when all have been sent the lookup ends.
pub proof fn lemma_queries_are_sent_in_order(
    existing: Option<ExistingView>,
    events: Seq<LookupEvent>,
    steps: Seq<LookupStep>,
)
    requires
        is_lookup_history(LookupView::begun(existing), events, steps),
        events.len() > 0,
        events[0] == LookupEvent::Checked(false),
        forall|i: int|
            0 < i < events.len() ==> (#[trigger] events[i] matches LookupEvent::Found(found)
                && found@.len() == 0),
        events.len() <= search_queries(existing).len() + 1,
    ensures
        forall|i: int|
            0 <= i < events.len() && i < search_queries(existing).len() ==> (
            #[trigger] steps[i] matches LookupStep::Search(query) && query@ == search_queries(
                existing,
            )[i]),
        events.len() == search_queries(existing).len() + 1 ==> steps.last() == LookupStep::End(
            LookupEnd::NothingFound,
        ),
{
    let queries = search_queries(existing);
    assert forall|i: int| 0 <= i < events.len() implies if i < queries.len() {
        #[trigger] steps[i] matches LookupStep::Search(query) && query@ == queries[i]
    } else {
        steps[i] == LookupStep::End(LookupEnd::NothingFound)
    } by {
        lemma_queries_sent_so_far(existing, events, steps, i);
        assert(lookup_after(
            LookupView::begun(existing),
            events.take(i),
            steps.take(i),
        ).goes_on_with(events[i], steps[i]));
    }
}

/// After `n` events none of which found anything, `n` queries have been sent.
proof fn lemma_queries_sent_so_far(
    existing: Option<ExistingView>,
    events: Seq<LookupEvent>,
    steps: Seq<LookupStep>,
    n: int,
)
    requires
        is_lookup_history(LookupView::begun(existing), events, steps),
        events.len() > 0,
        events[0] == LookupEvent::Checked(false),
        forall|i: int|
            0 < i < events.len() ==> (#[trigger] events[i] matches LookupEvent::Found(found)
                && found@.len() == 0),
        0 <= n <= search_queries(existing).len(),
        n <= events.len(),
    ensures
        lookup_after(LookupView::begun(existing), events.take(n), steps.take(n)).sent == n,
        lookup_after(LookupView::begun(existing), events.take(n), steps.take(n)).existing
            == existing,
    decreases n,
{
    if n > 0 {
        lemma_queries_sent_so_far(existing, events, steps, n - 1);
        assert(events.take(n).drop_last() =~= events.take(n - 1));
        assert(steps.take(n).drop_last() =~= steps.take(n - 1));
        assert(events.take(n).last() == events[n - 1]);
    }
}

/// What follows each event of a lookup, apart from what is searched for: a search that found
/// something leads to an offer of what it found, the choice of a place to the writing of the
/// candidate there, and all else to an end. The file counts as tagged where the writing worked, as
/// failed where it or a search did not, and else as left alone.
pub proof fn lemma_lookup_follows_events(lookup: LookupView, event: LookupEvent, step: LookupStep)
    requires
        lookup.goes_on_with(event, step),
    ensures
        match event {
            LookupEvent::Checked(known) => known ==> (step matches LookupStep::End(end)
                && outcome_of(end) == FileOutcome::AlreadyTagged),
            LookupEvent::Found(found) => found@.len() > 0 ==> (step matches LookupStep::Choose(
                candidates,
            ) && candidates@.len() > 0 && candidates@.len() <= 10 && candidates@.len()
                <= found@.len()),
            LookupEvent::SearchFailed => step matches LookupStep::End(end) && outcome_of(end)
                == FileOutcome::Failed,
            LookupEvent::Chosen(place) => if place < lookup.offered.len() {
                step matches LookupStep::Write(candidate) && candidate@
                    == lookup.offered[place as int]
            } else {
                step matches LookupStep::End(end) && outcome_of(end) == FileOutcome::LeftAlone
            },
            LookupEvent::NothingChosen => step matches LookupStep::End(end) && outcome_of(end)
                == FileOutcome::LeftAlone,
            LookupEvent::WriteTried(worked) => step matches LookupStep::End(end) && outcome_of(end)
                == (if worked {
                FileOutcome::Tagged
            } else {
                FileOutcome::Failed
            }),
        },
        step matches LookupStep::Search(_) ==> event is Checked || event is Found,
        lookup.after(event, step).existing == lookup.existing,
        !(step is Search) ==> lookup.after(event, step).sent == lookup.sent,
        outcome_of(LookupEnd::NothingFound) == FileOutcome::LeftAlone,
{
    if let LookupEvent::Found(found) = event {
        if found@.len() > 0 {
            let candidates = step->Choose_0;
            lemma_offer_is_small(
                found_candidates(found@),
                lookup.existing,
                candidates_of(candidates@),
            );
            assert(candidates_of(candidates@).len() == candidates@.len());
        }
    }
}

/// A ranking holds ten candidates, or all where there are fewer.
proof fn lemma_offer_is_small(
    candidates: Seq<CandidateView>,
    existing: Option<ExistingView>,
    ranked: Seq<CandidateView>,
)
    requires
        is_ranking(candidates, existing, ranked),
    ensures
        ranked.len() == (if candidates.len() < 10 {
            candidates.len() as int
        } else {
            10
        }),
{
    match existing {
        Some(meta) => {
            let _ = lemma_ranking_goes_by_points(candidates, meta, ranked);
        },
        None => {
            lemma_ranking_without_tags(candidates, ranked);
        },
    }
}

/// A lone candidate is taken without asking exactly where its score is a number from 0.8 on.
pub proof fn lemma_sure_scores_are_taken(candidates: Seq<TagCandidate>)
    ensures
        prompt_action(candidates, PromptEvent::Opened) == PromptAction::Take(0) <==> candidates.len()
            == 1 && 0x3fe9_9999_9999_999a <= candidates[0].score <= 0x7ff0_0000_0000_0000,
        prompt_action(candidates, PromptEvent::Opened) == PromptAction::Skip <==> candidates.len()
            == 0,
        prompt_action(candidates, PromptEvent::Opened) == PromptAction::Take(0) || prompt_action(
            candidates,
            PromptEvent::Opened,
        ) == PromptAction::Skip || prompt_action(candidates, PromptEvent::Opened)
            == PromptAction::Show,
        prompt_action(candidates, PromptEvent::Closed) == PromptAction::Skip,
{
}

/// The number of a candidate on a line, with white space around it or not, takes that candidate;
/// 0 takes none, and after a number without a candidate another one is asked for.
pub proof fn lemma_number_takes_its_candidate(
    before: Seq<char>,
    number: nat,
    after: Seq<char>,
    count: nat,
)
    requires
        is_blank(before),
        is_blank(after),
        number <= usize::MAX,
    ensures
        line_action(before + decimal_text(number) + after, count) == (if number == 0 {
            PromptAction::Skip
        } else if number <= count {
            PromptAction::Take((number - 1) as usize)
        } else {
            PromptAction::AskAgain
        }),
{
    let core = decimal_text(number);
    lemma_numeral_is_plain(number);
    lemma_decimal_round_trip(number, usize::MAX as nat);
    assert('0' <= core[0] <= '9');
    assert('0' <= core[core.len() - 1] <= '9');
    lemma_trimmed_of_padded(before, core, after);
}

/// A blank line is passed over, and a line that is neither blank nor a number is refused.
pub proof fn lemma_other_lines_ask_again(line: Seq<char>, count: nat)
    ensures
        trimmed(line).len() == 0 <==> line_action(line, count) == PromptAction::Ask,
        trimmed(line).len() > 0 && decimal_value(trimmed(line), usize::MAX as nat) is None
            ==> line_action(line, count) == PromptAction::AskAgain,
        line_action(line, count) matches PromptAction::Take(place) ==> decimal_value(
            trimmed(line),
            usize::MAX as nat,
        ) == Some((place + 1) as nat) && place < count,
{
}

/// Each thing that a candidate says is written under a key of its own, numbers as numerals, where
/// the tag's format has a place for it, and nothing else is changed.
pub proof fn lemma_each_thing_has_its_key(
    texts: Map<ItemKey, Seq<char>>,
    format: TagType,
    candidate: CandidateView,
)
    ensures
        ({
            let after = texts_with_candidate(texts, format, candidate);
            &&& after.get(ItemKey::TrackTitle) == (if candidate.title is Some && holds_key(
                format,
                ItemKey::TrackTitle,
            ) {
                candidate.title
            } else {
                texts.get(ItemKey::TrackTitle)
            })
            &&& after.get(ItemKey::TrackArtist) == (if candidate.artist is Some && holds_key(
                format,
                ItemKey::TrackArtist,
            ) {
                candidate.artist
            } else {
                texts.get(ItemKey::TrackArtist)
            })
            &&& after.get(ItemKey::AlbumTitle) == (if candidate.album is Some && holds_key(
                format,
                ItemKey::AlbumTitle,
            ) {
                candidate.album
            } else {
                texts.get(ItemKey::AlbumTitle)
            })
            &&& after.get(ItemKey::AlbumArtist) == (if candidate.album_artist is Some && holds_key(
                format,
                ItemKey::AlbumArtist,
            ) {
                candidate.album_artist
            } else {
                texts.get(ItemKey::AlbumArtist)
            })
            &&& after.get(ItemKey::RecordingDate) == (if candidate.year is Some && holds_key(
                format,
                ItemKey::RecordingDate,
            ) {
                Some(decimal_text(candidate.year.unwrap() as nat))
            } else {
                texts.get(ItemKey::RecordingDate)
            })
            &&& after.get(ItemKey::TrackNumber) == (if candidate.track is Some && holds_key(
                format,
                ItemKey::TrackNumber,
            ) {
                Some(decimal_text(candidate.track.unwrap() as nat))
            } else {
                texts.get(ItemKey::TrackNumber)
            })
            &&& after.get(ItemKey::MusicBrainzRecordingId) == (
            if candidate.musicbrainz_recording_id is Some && holds_key(
                format,
                ItemKey::MusicBrainzRecordingId,
            ) {
                candidate.musicbrainz_recording_id
            } else {
                texts.get(ItemKey::MusicBrainzRecordingId)
            })
            &&& forall|key: ItemKey|
                key != ItemKey::TrackTitle && key != ItemKey::TrackArtist && key
                    != ItemKey::AlbumTitle && key != ItemKey::AlbumArtist && key
                    != ItemKey::RecordingDate && key != ItemKey::TrackNumber && key
                    != ItemKey::MusicBrainzRecordingId ==> #[trigger] after.get(key) == texts.get(
                    key,
                )
        }),
{
    lemma_text_after_writing(texts, format, candidate, ItemKey::TrackTitle);
    lemma_text_after_writing(texts, format, candidate, ItemKey::TrackArtist);
    lemma_text_after_writing(texts, format, candidate, ItemKey::AlbumTitle);
    lemma_text_after_writing(texts, format, candidate, ItemKey::AlbumArtist);
    lemma_text_after_writing(texts, format, candidate, ItemKey::RecordingDate);
    lemma_text_after_writing(texts, format, candidate, ItemKey::TrackNumber);
    lemma_text_after_writing(texts, format, candidate, ItemKey::MusicBrainzRecordingId);
    let after = texts_with_candidate(texts, format, candidate);
    assert forall|key: ItemKey|
        key != ItemKey::TrackTitle && key != ItemKey::TrackArtist && key != ItemKey::AlbumTitle
            && key != ItemKey::AlbumArtist && key != ItemKey::RecordingDate && key
            != ItemKey::TrackNumber && key != ItemKey::MusicBrainzRecordingId implies (
    #[trigger] after.get(key)) == texts.get(key) by {
        lemma_text_after_writing(texts, format, candidate, key);
    }
}

/// Each file of a run is counted once, by what came of it: as tagged where it was, as failed where
/// it failed, and else as skipped.
pub proof fn lemma_outcomes_are_counted(run: TagRunView, outcomes: Seq<FileOutcome>)
    requires
        run.tagged == 0,
        run.skipped == 0,
        run.failed == 0,
        outcomes.len() <= run.order.len(),
    ensures
        run_after(run, outcomes).order == run.order,
        run_after(run, outcomes).tagged == outcomes.filter(
            |o: FileOutcome| o == FileOutcome::Tagged,
        ).len(),
        run_after(run, outcomes).failed == outcomes.filter(
            |o: FileOutcome| o == FileOutcome::Failed,
        ).len(),
        run_after(run, outcomes).skipped == outcomes.filter(
            |o: FileOutcome| o == FileOutcome::AlreadyTagged || o == FileOutcome::LeftAlone,
        ).len(),
        run_after(run, outcomes).tagged + run_after(run, outcomes).skipped + run_after(
            run,
            outcomes,
        ).failed == outcomes.len(),
    decreases outcomes.len(),
{
    reveal(Seq::filter);
    if outcomes.len() > 0 {
        lemma_outcomes_are_counted(run, outcomes.drop_last());
    }
}

/// Lists of candidates and tags that may be missing hold the contents of what is in them.
pub proof fn lemma_lists_show_their_contents(
    candidates: Seq<TagCandidate>,
    existing: ExistingMeta,
)
    ensures
        candidates_of(candidates).len() == candidates.len(),
        forall|i: int|
            0 <= i < candidates.len() ==> #[trigger] candidates_of(candidates)[i]
                == candidates[i]@,
        existing_of(Some(existing)) == Some(existing@),
        existing_of(None) is None,
{
}

/// What is read of a file to which a candidate was written is what its primary tag held before,
/// with all that the candidate says put under its key; all other tags stay as they were.
pub proof fn lemma_file_is_read_as_written(
    before: Seq<Tag>,
    format: TagType,
    after: Seq<Tag>,
    candidate: CandidateView,
)
    requires
        candidate_written(before, format, after, candidate),
    ensures
        texts_read_of(after, format) == Some(
            texts_with_candidate(primary_texts(before, format), format, candidate),
        ),
        after.len() == before.len() || after.len() == before.len() + 1,
        forall|j: int|
            0 <= j < before.len() && format_of(#[trigger] before[j]) != format ==> after[j]
                == before[j],
{
    lemma_new_texts_change_one_tag(
        before,
        format,
        after,
        texts_with_candidate(primary_texts(before, format), format, candidate),
    );
}

/// What is read of a file to which gains and peaks were written is what its primary tag held
/// before, with the four put under their keys; all other tags stay as they were.
pub proof fn lemma_gains_are_read_as_written(
    before: Seq<Tag>,
    format: TagType,
    after: Seq<Tag>,
    track_gain: Seq<char>,
    track_peak: Seq<char>,
    album_gain: Seq<char>,
    album_peak: Seq<char>,
)
    requires
        gains_written(before, format, after, track_gain, track_peak, album_gain, album_peak),
        is_primary_format(format),
    ensures
        texts_read_of(after, format) == Some(
            primary_texts(before, format).insert(
                ItemKey::ReplayGainTrackGain,
                track_gain + " dB"@,
            ).insert(ItemKey::ReplayGainTrackPeak, track_peak).insert(
                ItemKey::ReplayGainAlbumGain,
                album_gain + " dB"@,
            ).insert(ItemKey::ReplayGainAlbumPeak, album_peak),
        ),
        after.len() == before.len() || after.len() == before.len() + 1,
        forall|j: int|
            0 <= j < before.len() && format_of(#[trigger] before[j]) != format ==> after[j]
                == before[j],
{
    lemma_new_texts_change_one_tag(
        before,
        format,
        after,
        texts_with_gains(
            primary_texts(before, format),
            format,
            track_gain,
            track_peak,
            album_gain,
            album_peak,
        ),
    );
}

/// Requests go to MusicBrainz and name this program.
pub proof fn lemma_requests_go_to_musicbrainz()
    ensures
        MUSICBRAINZ_WS@ == "https://musicbrainz.org/ws/2"@,
        USER_AGENT@ == "ufrume/1.0 (https://github.com/0PandaDEV/ufrume)"@,
        MOST_CANDIDATES == 10,
{
}

/// A ranking goes down in points against the artist and the title of the file itself, wherever the
/// lower case of these is its own lower case.
pub proof fn lemma_ranking_goes_by_the_files_tags(
    candidates: Seq<CandidateView>,
    meta: ExistingView,
    ranked: Seq<CandidateView>,
)
    requires
        is_ranking(candidates, Some(meta), ranked),
    ensures
        (meta.artist matches Some(a) ==> lowercase_of(lowercase_of(a)) == lowercase_of(a)) && (
        meta.title matches Some(t) ==> lowercase_of(lowercase_of(t)) == lowercase_of(t))
            ==> forall|i: int, j: int|
            #![trigger ranked[i], ranked[j]]
            0 <= i < j < ranked.len() ==> ranked[i].points(meta.artist, meta.title)
                >= ranked[j].points(meta.artist, meta.title),
{
    let order = lemma_ranking_goes_by_points(candidates, meta, ranked);
    assert forall|i: int, j: int|
        #![trigger ranked[i], ranked[j]]
        0 <= i < j < ranked.len() implies points_for(ranked[i], meta) >= points_for(
        ranked[j],
        meta,
    ) by {
        assert(ranked[i] == candidates[order[i]]);
        assert(ranked[j] == candidates[order[j]]);
    }
    assert forall|i: int| 0 <= i < ranked.len() implies (meta.artist matches Some(a)
        ==> lowercase_of(lowercase_of(a)) == lowercase_of(a)) && (meta.title matches Some(t)
        ==> lowercase_of(lowercase_of(t)) == lowercase_of(t)) ==> points_for(
        #[trigger] ranked[i],
        meta,
    ) == ranked[i].points(meta.artist, meta.title) by {
        lemma_points_for_a_file(ranked[i], meta);
    }
}

/// Of a file with an artist and a title, a candidate that has both, letter case aside, stands
/// before all that do not have both, wherever the lower case of these is its own lower case.
pub proof fn lemma_full_match_is_ranked_first(
    candidates: Seq<CandidateView>,
    meta: ExistingView,
    ranked: Seq<CandidateView>,
    i: int,
    j: int,
)
    requires
        is_ranking(candidates, Some(meta), ranked),
        meta.artist is Some,
        meta.title is Some,
        0 <= i < j < ranked.len(),
        ranked[j].artist is Some,
        ranked[j].title is Some,
    ensures
        ({
            let artist = meta.artist.unwrap();
            let title = meta.title.unwrap();
            lowercase_of(lowercase_of(artist)) == lowercase_of(artist) && lowercase_of(
                lowercase_of(title),
            ) == lowercase_of(title) && lowercase_of(ranked[j].artist.unwrap()) == lowercase_of(
                artist,
            ) && lowercase_of(ranked[j].title.unwrap()) == lowercase_of(title) ==> {
                &&& ranked[i].artist matches Some(a) && lowercase_of(a) == lowercase_of(artist)
                &&& ranked[i].title matches Some(t) && lowercase_of(t) == lowercase_of(title)
            }
        }),
{
    lemma_ranking_goes_by_the_files_tags(candidates, meta, ranked);
    lemma_full_match_has_most_points(
        ranked[j],
        ranked[i],
        meta.artist.unwrap(),
        meta.title.unwrap(),
    );
}

} // verus!

use lofty::tag::{ItemKey, Tag, TagType};
use lofty::file::{FileType, TaggedFile, TaggedFileExt};
use lofty::properties::FileProperties;
use ufrume::lofty_file::{is_built_in, readable_tag, usable_tag, writable_tag, FileTag};
use ufrume::scan::{extract_file_metadata, extract_metadata};
use ufrume::tag::{
    candidate_labels, candidate_match_score, current_tags_line, file_has_musicbrainz_tags,
    has_musicbrainz_tags,
    lowercase_match_score, mb_recording_to_candidate, process_outcome, rank_candidates,
    read_existing_metadata, read_file_metadata, search_musicbrainz, search_query, search_request, select_candidate,
    tag_music_files, tag_summary, write_metadata_file, write_metadata_tags, Emphasis, ExistingMeta, FileOutcome, Lookup,
    LookupEnd, LookupEvent, LookupStep, MbSearchArtistCredit, MbSearchMedium, MbSearchRecording,
    MbSearchRelease, MbSearchResponse, MbSearchTrack, PromptAction, PromptEvent, SearchReply,
    TagCandidate, TagCounts, LARGEST_SCORE, SURE_SCORE,
};

fn owned(text: &str) -> Option<String> {
    Some(text.to_string())
}

fn candidate(artist: Option<&str>, title: Option<&str>, album: Option<&str>) -> TagCandidate {
    TagCandidate {
        title: title.map(|t| t.to_string()),
        artist: artist.map(|a| a.to_string()),
        album: album.map(|a| a.to_string()),
        album_artist: None,
        year: None,
        track: None,
        genre: None,
        musicbrainz_recording_id: None,
        score: 0,
        source: String::new(),
    }
}

fn recording(id: &str, title: &str) -> MbSearchRecording {
    MbSearchRecording {
        id: id.to_string(),
        title: owned(title),
        score: 100.0f64.to_bits(),
        first_release_date: None,
        artist_credit: None,
        releases: None,
    }
}

fn meta(title: Option<&str>, artist: Option<&str>, album: Option<&str>) -> ExistingMeta {
    ExistingMeta {
        title: title.map(|t| t.to_string()),
        artist: artist.map(|a| a.to_string()),
        album: album.map(|a| a.to_string()),
    }
}

#[test]
fn a_recording_id_marks_a_file_as_looked_up() {
    let mut tag = Tag::new(TagType::VorbisComments);
    assert!(!has_musicbrainz_tags(Some(&tag)));
    tag.insert_text(ItemKey::MusicBrainzRecordingId, "  ".to_string());
    assert!(!has_musicbrainz_tags(Some(&tag)));
    tag.insert_text(ItemKey::MusicBrainzRecordingId, " id ".to_string());
    assert!(has_musicbrainz_tags(Some(&tag)));
    let empty = Tag::new(TagType::Id3v2);
    assert!(!has_musicbrainz_tags(usable_tag(Some(&empty), Some(&tag))));
    assert!(!has_musicbrainz_tags(None));
}

#[test]
fn existing_tags_need_a_title_or_an_artist() {
    let mut tag = Tag::new(TagType::VorbisComments);
    tag.insert_text(ItemKey::AlbumTitle, "Album".to_string());
    assert!(read_existing_metadata(Some(&tag)).is_none());
    tag.insert_text(ItemKey::TrackArtist, "Artist".to_string());
    let existing = read_existing_metadata(Some(&tag)).unwrap();
    assert_eq!(existing.title, None);
    assert_eq!(existing.artist.as_deref(), Some("Artist"));
    assert_eq!(existing.album.as_deref(), Some("Album"));
    assert!(read_existing_metadata(None).is_none());
}

#[test]
fn a_search_is_sent_to_musicbrainz() {
    let request = search_request("recording:\"x\"");
    assert_eq!(request.url, "https://musicbrainz.org/ws/2/recording");
    let expected = [("query", "recording:\"x\""), ("fmt", "json"), ("limit", "10")];
    assert_eq!(request.parameters.len(), 3);
    for i in 0..3 {
        assert_eq!(request.parameters[i].0, expected[i].0);
        assert_eq!(request.parameters[i].1, expected[i].1);
    }
}

#[test]
fn a_refusal_names_no_recordings() {
    assert!(search_musicbrainz(SearchReply::Refused).is_empty());
    let nothing = SearchReply::Answered(MbSearchResponse { recordings: None });
    assert!(search_musicbrainz(nothing).is_empty());
    let one = SearchReply::Answered(MbSearchResponse {
        recordings: Some(vec![recording("a", "b")]),
    });
    assert_eq!(search_musicbrainz(one).len(), 1);
}

#[test]
fn a_recording_becomes_a_candidate() {
    let mut rec = recording("mbid", "Song");
    rec.artist_credit = Some(vec![
        MbSearchArtistCredit { name: owned("First") },
        MbSearchArtistCredit { name: owned("Second") },
    ]);
    rec.first_release_date = owned("1990-01-01");
    rec.releases = Some(vec![
        MbSearchRelease {
            title: owned("Album"),
            date: owned("1997-05-21"),
            medium: Some(vec![MbSearchMedium {
                track: Some(vec![MbSearchTrack { number: owned("12") }]),
            }]),
        },
        MbSearchRelease { title: owned("Other"), date: None, medium: None },
    ]);
    let found = mb_recording_to_candidate(&rec);
    assert_eq!(found.title.as_deref(), Some("Song"));
    assert_eq!(found.artist.as_deref(), Some("First"));
    assert_eq!(found.album.as_deref(), Some("Album"));
    assert_eq!(found.album_artist, None);
    assert_eq!(found.year, Some(1997));
    assert_eq!(found.track, Some(12));
    assert_eq!(found.genre, None);
    assert_eq!(found.musicbrainz_recording_id.as_deref(), Some("mbid"));
    assert_eq!(found.score, 100.0f64.to_bits());
    assert_eq!(found.source, "MusicBrainz");
}

#[test]
fn the_first_release_date_counts_only_without_releases() {
    let mut rec = recording("id", "t");
    rec.first_release_date = owned("1990");
    assert_eq!(mb_recording_to_candidate(&rec).year, Some(1990));
    rec.releases = Some(Vec::new());
    let found = mb_recording_to_candidate(&rec);
    assert_eq!(found.year, None);
    assert_eq!(found.album, None);
    rec.releases = Some(vec![MbSearchRelease {
        title: None,
        date: owned("May 1990"),
        medium: Some(vec![MbSearchMedium {
            track: Some(vec![MbSearchTrack { number: owned("A1") }]),
        }]),
    }]);
    let found = mb_recording_to_candidate(&rec);
    assert_eq!(found.year, None);
    assert_eq!(found.track, None);
}

#[test]
fn match_scores_count_artist_title_and_album() {
    let exact = candidate(Some("ABBA"), Some("Waterloo"), Some("Best of Abba"));
    assert_eq!(candidate_match_score(&exact, Some("abba"), Some("WATERLOO")), 210);
    assert_eq!(candidate_match_score(&exact, Some("abba"), None), 110);
    assert_eq!(candidate_match_score(&exact, None, None), 0);
    let close = candidate(Some("ABBA Tribute"), Some("Water"), None);
    assert_eq!(candidate_match_score(&close, Some("abba"), Some("Waterloo")), 100);
    let far = candidate(Some("Queen"), Some("Innuendo"), Some("Innuendo"));
    assert_eq!(candidate_match_score(&far, Some("abba"), Some("Waterloo")), 0);
    assert_eq!(candidate_match_score(&far, Some(""), None), 60);
    assert_eq!(candidate_match_score(&candidate(Some("ÄRZTE"), None, None), Some("ärzte"), None), 100);
    assert_eq!(lowercase_match_score(Some("abc"), Some("x"), Some("zabz"), Some("ab"), Some("x")), 160);
    assert_eq!(lowercase_match_score(Some("ABC"), None, None, Some("abc"), None), 0);
}

#[test]
fn queries_name_what_is_known() {
    assert_eq!(search_query("T", Some("A"), Some("R")), "recording:\"T\" AND artist:\"A\" AND release:\"R\"");
    assert_eq!(search_query("T", Some("A"), None), "recording:\"T\" AND artist:\"A\"");
    assert_eq!(search_query("T", None, Some("R")), "recording:\"T\" AND release:\"R\"");
    assert_eq!(search_query("T", None, None), "recording:\"T\"");
}

fn searched(step: LookupStep) -> String {
    match step {
        LookupStep::Search(query) => query,
        _ => panic!("a search was expected"),
    }
}

fn ended(step: LookupStep) -> LookupEnd {
    match step {
        LookupStep::End(end) => end,
        _ => panic!("an end was expected"),
    }
}

fn nothing() -> LookupEvent {
    LookupEvent::Found(Vec::new())
}

#[test]
fn a_lookup_widens_its_search() {
    let mut lookup = Lookup::begin(Some(meta(Some("T"), Some("A"), Some("R"))));
    assert_eq!(lookup.existing().as_ref().unwrap().title.as_deref(), Some("T"));
    assert_eq!(
        searched(lookup.next(LookupEvent::Checked(false))),
        "recording:\"T\" AND artist:\"A\" AND release:\"R\""
    );
    assert_eq!(searched(lookup.next(nothing())), "recording:\"T\" AND artist:\"A\"");
    assert_eq!(searched(lookup.next(nothing())), "recording:\"T\"");
    assert_eq!(ended(lookup.next(nothing())), LookupEnd::NothingFound);
}

#[test]
fn a_lookup_without_an_artist_repeats_the_title() {
    let mut lookup = Lookup::begin(Some(meta(Some("T"), None, None)));
    assert_eq!(searched(lookup.next(LookupEvent::Checked(false))), "recording:\"T\"");
    assert_eq!(searched(lookup.next(nothing())), "recording:\"T\"");
    assert_eq!(ended(lookup.next(nothing())), LookupEnd::NothingFound);
}

#[test]
fn a_lookup_without_a_title_searches_nothing() {
    let mut untitled = Lookup::begin(Some(meta(None, Some("A"), Some("R"))));
    assert_eq!(ended(untitled.next(LookupEvent::Checked(false))), LookupEnd::NothingFound);
    let mut untagged = Lookup::begin(None);
    assert_eq!(ended(untagged.next(LookupEvent::Checked(false))), LookupEnd::NothingFound);
}

#[test]
fn the_first_search_that_finds_something_ends_the_searching() {
    let mut lookup = Lookup::begin(Some(meta(Some("Waterloo"), None, None)));
    searched(lookup.next(LookupEvent::Checked(false)));
    let found = vec![recording("1", "Water"), recording("2", "WATERLOO"), recording("3", "Fire")];
    let candidates = match lookup.next(LookupEvent::Found(found)) {
        LookupStep::Choose(candidates) => candidates,
        _ => panic!("candidates were expected"),
    };
    let ids: Vec<String> = candidates
        .iter()
        .map(|c| c.musicbrainz_recording_id.clone().unwrap())
        .collect();
    assert_eq!(ids, vec!["2", "1", "3"]);
    match lookup.next(LookupEvent::Chosen(1)) {
        LookupStep::Write(chosen) => {
            assert_eq!(chosen.musicbrainz_recording_id.as_deref(), Some("1"));
        }
        _ => panic!("the candidate was to be written"),
    }
    assert_eq!(ended(lookup.next(LookupEvent::WriteTried(true))), LookupEnd::Written);
    assert_eq!(ended(lookup.next(LookupEvent::Chosen(3))), LookupEnd::NothingChosen);
}

#[test]
fn nothing_is_written_that_was_not_offered() {
    let mut lookup = Lookup::begin(Some(meta(Some("T"), None, None)));
    assert_eq!(ended(lookup.next(LookupEvent::Chosen(0))), LookupEnd::NothingChosen);
    searched(lookup.next(LookupEvent::Checked(false)));
    assert_eq!(ended(lookup.next(LookupEvent::Chosen(0))), LookupEnd::NothingChosen);
}

#[test]
fn the_first_number_among_the_lines_decides() {
    let candidates = vec![candidate(None, None, None), candidate(None, None, None)];
    let lines = ["\n", "x\n", "3\n", " 2\n", "1\n", "0\n"];
    let mut taken: Option<usize> = None;
    for line in lines {
        if let PromptAction::Take(place) =
            select_candidate(&candidates, &PromptEvent::Line(line.to_string()))
        {
            taken = Some(place);
            break;
        }
    }
    assert_eq!(taken, Some(1));
}

#[test]
fn a_lookup_ends_at_once_where_it_cannot_go_on() {
    let mut known = Lookup::begin(Some(meta(Some("T"), None, None)));
    assert_eq!(ended(known.next(LookupEvent::Checked(true))), LookupEnd::AlreadyTagged);
    let mut lookup = Lookup::begin(Some(meta(Some("T"), None, None)));
    searched(lookup.next(LookupEvent::Checked(false)));
    assert_eq!(ended(lookup.next(LookupEvent::SearchFailed)), LookupEnd::SearchFailed);
    assert_eq!(ended(lookup.next(LookupEvent::NothingChosen)), LookupEnd::NothingChosen);
    assert_eq!(ended(lookup.next(LookupEvent::WriteTried(false))), LookupEnd::WriteFailed);
}

#[test]
fn the_end_of_a_lookup_tells_what_came_of_the_file() {
    let expected = [
        (LookupEnd::AlreadyTagged, FileOutcome::AlreadyTagged),
        (LookupEnd::SearchFailed, FileOutcome::Failed),
        (LookupEnd::WriteFailed, FileOutcome::Failed),
        (LookupEnd::NothingFound, FileOutcome::LeftAlone),
        (LookupEnd::NothingChosen, FileOutcome::LeftAlone),
        (LookupEnd::Written, FileOutcome::Tagged),
    ];
    for (end, outcome) in expected {
        assert_eq!(process_outcome(&end), outcome);
    }
}

#[test]
fn scores_do_not_depend_on_letter_case() {
    let texts = ["ABBA", "Sigur Rós", "ΟΔΟΣ", "İstanbul", "STRAẞE", ""];
    for a in texts {
        for b in texts {
            let plain = candidate(Some(a), Some(b), Some(a));
            let (low_a, low_b) = (a.to_lowercase(), b.to_lowercase());
            let low = candidate(Some(&low_a), Some(&low_b), Some(&low_a));
            let score = candidate_match_score(&plain, Some(b), Some(a));
            assert_eq!(candidate_match_score(&plain, Some(&low_b), Some(&low_a)), score);
            assert_eq!(candidate_match_score(&low, Some(b), Some(a)), score);
        }
    }
}

#[test]
fn ten_candidates_are_offered_at_most() {
    let mut candidates: Vec<TagCandidate> = Vec::new();
    for i in 0..12u16 {
        let mut c = candidate(None, Some(if i == 11 { "hit" } else { "miss" }), None);
        c.track = Some(i);
        candidates.push(c);
    }
    let ranked = rank_candidates(&candidates, &Some(meta(Some("HIT"), None, None)));
    let tracks: Vec<Option<u16>> = ranked.iter().map(|c| c.track).collect();
    let mut expected: Vec<Option<u16>> = vec![Some(11)];
    expected.extend((0..9u16).map(Some));
    assert_eq!(tracks, expected);
}

#[test]
fn a_lone_candidate_with_a_sure_score_is_taken() {
    let opened = PromptEvent::Opened;
    let scores = [
        0.0, 0.5, 0.7999999, 0.8, 0.80001, 1.0, 100.0, -1.0, -0.8, f64::INFINITY, f64::NEG_INFINITY, f64::NAN,
    ];
    for score in scores {
        let mut lone = candidate(None, None, None);
        lone.score = score.to_bits();
        let action = select_candidate(&vec![lone.clone()], &opened);
        if score >= 0.8 {
            assert!(matches!(action, PromptAction::Take(0)));
        } else {
            assert!(matches!(action, PromptAction::Show));
        }
        assert!(matches!(select_candidate(&vec![lone.clone(), lone], &opened), PromptAction::Show));
    }
    assert_eq!(SURE_SCORE, 0.8f64.to_bits());
    assert_eq!(LARGEST_SCORE, f64::INFINITY.to_bits());
    assert!(matches!(select_candidate(&Vec::new(), &opened), PromptAction::Skip));
}

#[test]
fn lines_at_the_prompt_choose_skip_or_ask_again() {
    let candidates = vec![candidate(None, None, None), candidate(None, None, None)];
    let line = |text: &str| select_candidate(&candidates, &PromptEvent::Line(text.to_string()));
    assert!(matches!(line("1\n"), PromptAction::Take(0)));
    assert!(matches!(line(" +2 \r\n"), PromptAction::Take(1)));
    assert!(matches!(line("0\n"), PromptAction::Skip));
    assert!(matches!(line("3\n"), PromptAction::AskAgain));
    assert!(matches!(line("one\n"), PromptAction::AskAgain));
    assert!(matches!(line("-1\n"), PromptAction::AskAgain));
    assert!(matches!(line("99999999999999999999999\n"), PromptAction::AskAgain));
    assert!(matches!(line(" \n"), PromptAction::Ask));
    assert!(matches!(select_candidate(&candidates, &PromptEvent::Closed), PromptAction::Skip));
}

#[test]
fn candidates_and_tags_are_shown_in_words() {
    let mut c = candidate(Some("A"), None, None);
    c.year = Some(1997);
    let labels = candidate_labels(&c);
    assert_eq!(labels.artist, "A");
    assert_eq!(labels.title, "Unknown");
    assert_eq!(labels.album, "?");
    assert_eq!(labels.year, "1997");
    assert_eq!(labels.track, "?");
    assert_eq!(
        current_tags_line(&meta(Some("T"), Some("A"), Some("R"))),
        "artist=A, title=T, album=R"
    );
    assert_eq!(current_tags_line(&meta(Some("T"), None, Some("R"))), "title=T, album=R");
    assert_eq!(current_tags_line(&meta(None, Some("A"), None)), "artist=A");
    assert_eq!(current_tags_line(&meta(None, None, None)), "");
}

#[test]
fn a_scan_reads_back_what_was_written() {
    let formats = [TagType::Id3v2, TagType::VorbisComments, TagType::Mp4Ilst, TagType::Ape];
    for format in formats {
        let mut tag = Tag::new(format);
        tag.insert_text(ItemKey::Genre, "Pop".to_string());
        let mut c = candidate(Some("Artist"), Some("Title"), Some("Album"));
        c.album_artist = owned("Band & Guest");
        c.year = Some(1997);
        c.track = Some(300);
        c.musicbrainz_recording_id = owned("mbid");
        write_metadata_tags(&mut tag, &c);
        let metadata = extract_metadata(Some(&tag));
        assert_eq!(metadata.title.as_deref(), Some("Title"));
        assert_eq!(metadata.artist.as_deref(), Some("Artist"));
        assert_eq!(metadata.album.as_deref(), Some("Album"));
        assert_eq!(metadata.album_artist.as_deref(), Some("Band"));
        assert_eq!(metadata.year, Some(1997));
        assert_eq!(metadata.track, Some(300));
        assert_eq!(metadata.genre.as_deref(), Some("Pop"));
        assert!(has_musicbrainz_tags(Some(&tag)));
    }
}

#[test]
fn writing_keeps_what_the_candidate_does_not_say() {
    let mut tag = Tag::new(TagType::VorbisComments);
    tag.insert_text(ItemKey::TrackTitle, "Old".to_string());
    tag.insert_text(ItemKey::AlbumTitle, "Kept".to_string());
    write_metadata_tags(&mut tag, &candidate(None, Some("New"), None));
    let metadata = extract_metadata(Some(&tag));
    assert_eq!(metadata.title.as_deref(), Some("New"));
    assert_eq!(metadata.album.as_deref(), Some("Kept"));
}

#[test]
fn a_format_without_a_place_for_a_key_keeps_nothing() {
    let mut tag = Tag::new(TagType::Id3v1);
    let mut c = candidate(None, Some("Title"), None);
    c.musicbrainz_recording_id = owned("mbid");
    write_metadata_tags(&mut tag, &c);
    assert_eq!(extract_metadata(Some(&tag)).title.as_deref(), Some("Title"));
    assert!(!has_musicbrainz_tags(Some(&tag)));
}

fn tagged_file(ty: FileType, tags: Vec<Tag>) -> TaggedFile {
    TaggedFile::new(ty, FileProperties::default(), tags)
}

#[test]
fn the_primary_tag_is_read_before_the_first() {
    let mut ape = Tag::new(TagType::Ape);
    ape.insert_text(ItemKey::TrackTitle, "ape".to_string());
    let mut id3 = Tag::new(TagType::Id3v2);
    id3.insert_text(ItemKey::TrackTitle, "id3".to_string());
    let title = |file: &TaggedFile| match readable_tag(file) {
        FileTag::Found(tag) => tag.get_string(ItemKey::TrackTitle).map(str::to_string),
        FileTag::Missing => None,
        FileTag::Custom => panic!("the type is not custom"),
    };
    let both = tagged_file(FileType::Mpeg, vec![ape.clone(), id3.clone()]);
    assert_eq!(title(&both).as_deref(), Some("id3"));
    let fallback = tagged_file(FileType::Mpeg, vec![ape.clone()]);
    assert_eq!(title(&fallback).as_deref(), Some("ape"));
    let wavpack = tagged_file(FileType::WavPack, vec![id3, ape]);
    assert_eq!(title(&wavpack).as_deref(), Some("ape"));
    assert_eq!(title(&tagged_file(FileType::Flac, Vec::new())), None);
}

#[test]
fn custom_types_are_left_to_their_resolvers() {
    let mut file = tagged_file(FileType::Custom("other"), vec![Tag::new(TagType::Ape)]);
    assert!(!is_built_in(&file));
    assert!(matches!(readable_tag(&file), FileTag::Custom));
    assert!(writable_tag(&mut file).is_none());
    assert_eq!(file.tags().len(), 1);
}

#[test]
fn a_missing_primary_tag_is_made() {
    let types = [
        (FileType::Aac, TagType::Id3v2),
        (FileType::Aiff, TagType::Id3v2),
        (FileType::Mpeg, TagType::Id3v2),
        (FileType::Wav, TagType::Id3v2),
        (FileType::Ape, TagType::Ape),
        (FileType::Mpc, TagType::Ape),
        (FileType::WavPack, TagType::Ape),
        (FileType::Flac, TagType::VorbisComments),
        (FileType::Opus, TagType::VorbisComments),
        (FileType::Vorbis, TagType::VorbisComments),
        (FileType::Speex, TagType::VorbisComments),
        (FileType::Mp4, TagType::Mp4Ilst),
    ];
    for (ty, format) in types {
        let mut file = tagged_file(ty, vec![Tag::new(TagType::Id3v1)]);
        assert!(is_built_in(&file));
        {
            let tag = writable_tag(&mut file).unwrap();
            assert!(tag.tag_type() == format);
            assert_eq!(tag.item_count(), 0);
            let mut c = candidate(None, Some("Title"), None);
            c.musicbrainz_recording_id = owned("mbid");
            write_metadata_tags(tag, &c);
        }
        assert_eq!(file.tags().len(), 2);
        match readable_tag(&file) {
            FileTag::Found(tag) => assert!(has_musicbrainz_tags(Some(tag))),
            _ => panic!("the written tag was not found"),
        }
    }
}

#[test]
fn a_primary_tag_is_changed_in_its_place() {
    let mut old = Tag::new(TagType::VorbisComments);
    old.insert_text(ItemKey::AlbumTitle, "Album".to_string());
    let tags = vec![Tag::new(TagType::Id3v2), old, Tag::new(TagType::Ape)];
    let mut file = tagged_file(FileType::Flac, tags);
    if let Some(tag) = writable_tag(&mut file) {
        write_metadata_tags(tag, &candidate(Some("Artist"), None, None));
    }
    assert_eq!(file.tags().len(), 3);
    let metadata = extract_metadata(Some(&file.tags()[1]));
    assert_eq!(metadata.artist.as_deref(), Some("Artist"));
    assert_eq!(metadata.album.as_deref(), Some("Album"));
}

#[test]
fn every_file_is_counted_once() {
    let mut run = tag_music_files(&vec![Some(3), None, Some(8), Some(3), Some(-1)]);
    let outcomes = [
        FileOutcome::Tagged,
        FileOutcome::AlreadyTagged,
        FileOutcome::LeftAlone,
        FileOutcome::Failed,
        FileOutcome::Tagged,
    ];
    let mut handled: Vec<usize> = Vec::new();
    for outcome in outcomes {
        handled.push(run.current().unwrap());
        run.record(&outcome);
    }
    assert_eq!(handled, vec![2, 0, 3, 1, 4]);
    assert_eq!(run.current(), None);
    let counts = run.counts();
    assert_eq!(counts, TagCounts { tagged: 2, skipped: 2, failed: 1 });
    run.record(&FileOutcome::Tagged);
    assert_eq!(run.counts(), counts);
}

#[test]
fn a_run_that_tagged_files_is_summed_up() {
    let parts = tag_summary(&TagCounts { tagged: 12, skipped: 3, failed: 0 });
    let line: String = parts.iter().map(|part| part.text.clone()).collect();
    assert_eq!(line, "  12 files tagged, 3 skipped, 0 failed");
    let marked: Vec<(String, Emphasis)> = parts
        .into_iter()
        .filter(|part| part.emphasis != Emphasis::Plain)
        .map(|part| (part.text, part.emphasis))
        .collect();
    assert_eq!(
        marked,
        vec![
            ("12".to_string(), Emphasis::Good),
            ("3".to_string(), Emphasis::Faint),
            ("0".to_string(), Emphasis::Bad),
        ]
    );
}

#[test]
fn files_are_asked_and_written_through_their_tags() {
    let mut ape = Tag::new(TagType::Ape);
    ape.insert_text(ItemKey::TrackTitle, "First".to_string());
    let mut file = tagged_file(FileType::Mpeg, vec![ape]);
    assert_eq!(file_has_musicbrainz_tags(&file), Some(false));
    assert_eq!(
        read_file_metadata(&file).unwrap().unwrap().title.as_deref(),
        Some("First")
    );
    assert_eq!(extract_file_metadata(&file).unwrap().title.as_deref(), Some("First"));
    let mut c = candidate(None, Some("Title"), None);
    c.musicbrainz_recording_id = owned("mbid");
    assert!(write_metadata_file(&mut file, &c));
    assert_eq!(file.tags().len(), 2);
    assert_eq!(file_has_musicbrainz_tags(&file), Some(true));
    assert_eq!(extract_file_metadata(&file).unwrap().title.as_deref(), Some("Title"));
    let empty = tagged_file(FileType::Flac, Vec::new());
    assert_eq!(file_has_musicbrainz_tags(&empty), Some(false));
    assert!(read_file_metadata(&empty).unwrap().is_none());
    assert_eq!(extract_file_metadata(&empty).unwrap().title, None);
    let mut custom = tagged_file(FileType::Custom("other"), Vec::new());
    assert_eq!(file_has_musicbrainz_tags(&custom), None);
    assert!(read_file_metadata(&custom).is_none());
    assert!(extract_file_metadata(&custom).is_none());
    assert!(!write_metadata_file(&mut custom, &c));
    assert_eq!(custom.tags().len(), 0);
}

#[test]
fn primary_formats_have_a_place_for_all_written_keys() {
    let formats = [TagType::Id3v2, TagType::Ape, TagType::VorbisComments, TagType::Mp4Ilst];
    let keys = [
        ItemKey::TrackTitle,
        ItemKey::TrackArtist,
        ItemKey::AlbumTitle,
        ItemKey::AlbumArtist,
        ItemKey::RecordingDate,
        ItemKey::TrackNumber,
        ItemKey::MusicBrainzRecordingId,
        ItemKey::ReplayGainTrackGain,
        ItemKey::ReplayGainTrackPeak,
        ItemKey::ReplayGainAlbumGain,
        ItemKey::ReplayGainAlbumPeak,
    ];
    for format in formats {
        for key in keys {
            let mut tag = Tag::new(format);
            assert!(tag.insert_text(key, "text".to_string()));
            assert_eq!(tag.get_string(key), Some("text"));
        }
    }
}

use lofty::tag::{ItemKey, Tag, TagType};
use ufrume::lofty_file::usable_tag;
use ufrume::logging::log_startup;
use ufrume::scan::{
    collect_music_paths, extract_first_artist, extract_metadata, is_music_extension,
    is_music_file, resolve_target, scan_announcement, scan_for_music, scan_preview, scan_summary,
    AudioMetadata, FoundEntry, Target, MUSIC_EXTENSIONS,
};

fn titled(title: Option<&str>, artist: Option<&str>) -> AudioMetadata {
    AudioMetadata {
        title: title.map(|t| t.to_string()),
        artist: artist.map(|a| a.to_string()),
        album: None,
        album_artist: None,
        year: None,
        genre: None,
        track: None,
        disc: None,
    }
}

fn entry(is_file: bool, extension: Option<&str>, modified: Option<i128>) -> FoundEntry {
    FoundEntry { is_file, extension: extension.map(|e| e.to_string()), modified }
}

#[test]
fn music_is_told_by_its_extension() {
    for extension in MUSIC_EXTENSIONS {
        assert!(is_music_file(Some(extension)));
        assert!(is_music_file(Some(extension.to_uppercase().as_str())));
    }
    assert!(is_music_file(Some("FlAc")));
    assert!(!is_music_file(Some("txt")));
    assert!(!is_music_file(Some("")));
    assert!(!is_music_file(Some("mp3 ")));
    assert!(!is_music_file(None));
    assert!(is_music_extension("opus"));
    assert!(!is_music_extension("OPUS"));
}

#[test]
fn collected_files_are_music_and_newest_first() {
    let entries = vec![
        entry(true, Some("mp3"), Some(5)),
        entry(false, Some("mp3"), Some(9)),
        entry(true, Some("jpg"), Some(9)),
        entry(true, Some("FLAC"), Some(7)),
        entry(true, Some("ogg"), None),
        entry(true, Some("wav"), Some(5)),
        entry(true, None, Some(8)),
        entry(true, Some("ape"), Some(-3)),
    ];
    assert_eq!(collect_music_paths(&entries), vec![3, 0, 5, 4, 7]);
    assert_eq!(collect_music_paths(&Vec::new()), Vec::<usize>::new());
}

#[test]
fn first_artist_ends_at_the_earliest_delimiter() {
    assert_eq!(extract_first_artist("Daft Punk"), "Daft Punk");
    assert_eq!(extract_first_artist("  Daft Punk "), "Daft Punk");
    assert_eq!(extract_first_artist("A, B & C"), "A");
    assert_eq!(extract_first_artist("A & B, C"), "A");
    assert_eq!(extract_first_artist("Jay-Z feat. Alicia Keys"), "Jay-Z");
    assert_eq!(extract_first_artist("Simon and Garfunkel"), "Simon");
    assert_eq!(extract_first_artist("X ft. Y"), "X");
    assert_eq!(extract_first_artist("P x Q"), "P");
    assert_eq!(extract_first_artist("P X Q"), "P");
    assert_eq!(extract_first_artist("P vs. Q"), "P");
    assert_eq!(extract_first_artist("P with Q"), "P");
    assert_eq!(extract_first_artist("P + Q / R"), "P");
    assert_eq!(extract_first_artist("AC/DC"), "AC/DC");
    assert_eq!(extract_first_artist("Andy"), "Andy");
    assert_eq!(extract_first_artist("Sigur Rós & Ólafur"), "Sigur Rós");
    assert_eq!(extract_first_artist(", B"), "");
    assert_eq!(extract_first_artist(""), "");
}

#[test]
fn first_artist_of_first_artist_is_itself() {
    let credits = ["A, B", "  A feat. B ", "A", " & B", "A with B and C"];
    for credit in credits {
        let once = extract_first_artist(credit);
        assert_eq!(extract_first_artist(once.as_str()), once);
    }
}

#[test]
fn metadata_comes_from_the_primary_tag() {
    let mut primary = Tag::new(TagType::Id3v2);
    primary.insert_text(ItemKey::TrackTitle, "Title".to_string());
    primary.insert_text(ItemKey::TrackArtist, "Artist & Other".to_string());
    primary.insert_text(ItemKey::AlbumTitle, "Album".to_string());
    primary.insert_text(ItemKey::AlbumArtist, "Band feat. Guest".to_string());
    primary.insert_text(ItemKey::RecordingDate, "1997-05-21".to_string());
    primary.insert_text(ItemKey::Genre, "Rock".to_string());
    primary.insert_text(ItemKey::TrackNumber, "7".to_string());
    primary.insert_text(ItemKey::DiscNumber, "2".to_string());
    let first = Tag::new(TagType::Ape);
    let metadata = extract_metadata(usable_tag(Some(&primary), Some(&first)));
    assert_eq!(metadata.title.as_deref(), Some("Title"));
    assert_eq!(metadata.artist.as_deref(), Some("Artist & Other"));
    assert_eq!(metadata.album.as_deref(), Some("Album"));
    assert_eq!(metadata.album_artist.as_deref(), Some("Band"));
    assert_eq!(metadata.year, Some(1997));
    assert_eq!(metadata.genre.as_deref(), Some("Rock"));
    assert_eq!(metadata.track, Some(7));
    assert_eq!(metadata.disc, Some(2));
}

#[test]
fn metadata_falls_back_to_the_first_tag() {
    let mut first = Tag::new(TagType::VorbisComments);
    first.insert_text(ItemKey::TrackTitle, "Only".to_string());
    let metadata = extract_metadata(usable_tag(None, Some(&first)));
    assert_eq!(metadata.title.as_deref(), Some("Only"));
    assert_eq!(metadata.artist, None);
    assert_eq!(metadata.year, None);
    let none = extract_metadata(None);
    assert_eq!(none.title, None);
    assert_eq!(none.track, None);
    assert_eq!(none.disc, None);
}

#[test]
fn numbers_that_do_not_parse_are_left_out() {
    let mut tag = Tag::new(TagType::VorbisComments);
    tag.insert_text(ItemKey::TrackNumber, "65543".to_string());
    tag.insert_text(ItemKey::DiscNumber, "65543".to_string());
    tag.insert_text(ItemKey::RecordingDate, "soon".to_string());
    let metadata = extract_metadata(Some(&tag));
    assert_eq!(metadata.track, Some(7));
    assert_eq!(metadata.disc, None);
    assert_eq!(metadata.year, None);
    tag.insert_text(ItemKey::TrackNumber, "4294967296".to_string());
    tag.insert_text(ItemKey::DiscNumber, "+3".to_string());
    tag.insert_text(ItemKey::RecordingDate, "2024".to_string());
    let metadata = extract_metadata(Some(&tag));
    assert_eq!(metadata.track, None);
    assert_eq!(metadata.disc, Some(3));
    assert_eq!(metadata.year, Some(2024));
}

#[test]
fn the_year_stands_in_for_the_recording_date() {
    let mut tag = Tag::new(TagType::Mp4Ilst);
    tag.insert_unchecked(lofty::tag::TagItem::new(
        ItemKey::Year,
        lofty::tag::ItemValue::Text("1984".to_string()),
    ));
    assert_eq!(extract_metadata(Some(&tag)).year, Some(1984));
    tag.insert_unchecked(lofty::tag::TagItem::new(
        ItemKey::RecordingDate,
        lofty::tag::ItemValue::Text("1985".to_string()),
    ));
    assert_eq!(extract_metadata(Some(&tag)).year, Some(1985));
}

#[test]
fn a_scan_keeps_files_in_order_and_counts_failures() {
    let outcome = scan_for_music(vec![
        Some(titled(Some("a"), None)),
        None,
        Some(titled(Some("b"), None)),
        None,
    ]);
    assert_eq!(outcome.failed, 2);
    assert_eq!(outcome.files.len(), 2);
    assert_eq!(outcome.files[0].0, 0);
    assert_eq!(outcome.files[1].0, 2);
    assert_eq!(outcome.files[1].1.title.as_deref(), Some("b"));
    assert_eq!(scan_summary(&outcome, "0.50"), "  2 files processed, 2 failed in 0.50s");
    let clean = scan_for_music(vec![Some(titled(None, None))]);
    assert_eq!(scan_summary(&clean, "1.00"), "  1 files processed in 1.00s");
    assert_eq!(scan_announcement(12, 8), "  Processing 12 files using 8 threads");
}

#[test]
fn a_preview_shows_five_files() {
    let mut files: Vec<(usize, AudioMetadata)> = Vec::new();
    for i in 0..7 {
        files.push((i, titled(None, Some("A"))));
    }
    files[1].1.title = Some("T".to_string());
    files[1].1.artist = None;
    let preview = scan_preview(&files);
    assert_eq!(preview.entries.len(), 5);
    assert_eq!(preview.entries[0].artist, "A");
    assert_eq!(preview.entries[0].title, "Unknown Title");
    assert_eq!(preview.entries[1].artist, "Unknown Artist");
    assert_eq!(preview.entries[1].title, "T");
    assert_eq!(preview.entries[4].place, 4);
    assert_eq!(preview.more.as_deref(), Some("  ... and 2 more files"));
    files.truncate(5);
    assert_eq!(scan_preview(&files).more, None);
}

#[test]
fn targets_are_directories_and_music_files() {
    assert_eq!(resolve_target(true, Some("MP3"), "x.MP3"), Ok(Target::File));
    assert_eq!(resolve_target(false, None, "music"), Ok(Target::Directory));
    assert_eq!(
        resolve_target(true, Some("txt"), "/a/x.txt"),
        Err("/a/x.txt is not a supported audio file".to_string())
    );
}

#[test]
fn the_log_names_version_and_place() {
    assert_eq!(
        log_startup("1.0.0", "/var/log/ufrume.log"),
        vec!["ufrume v1.0.0 starting".to_string(), "logging to /var/log/ufrume.log".to_string()]
    );
}

use lofty::file::{FileType, TaggedFile};
use lofty::properties::FileProperties;
use lofty::tag::{ItemKey, Tag, TagType};
use ufrume::album::{plan_albums, AlbumFile};
use ufrume::command::{
    configure_threads, organize_step, replaygain_step, shows_preview, Failure, OrganizePhase,
    ReplayGainPhase, ThreadPlan,
};
use ufrume::gain_run::{GainCounts, GainEvent, GainStep};
use ufrume::replaygain::{
    album_values, apply_replaygain, decode_action, file_has_replaygain_tags, gain_from_loudness,
    has_replaygain_tags, largest_peak, packet_action, run_announcement, run_summary, select_stream,
    write_replaygain_file, write_replaygain_tags, DecodeAction, DecodeEvent, Measured, PacketAction, PacketEvent,
    SelectedStream, StreamCodec, StreamError, StreamInfo, TrackValues,
};

fn file(parent: Option<&str>, modified: Option<i128>) -> AlbumFile {
    AlbumFile { parent: parent.map(|p| p.as_bytes().to_vec()), modified }
}

#[test]
fn albums_are_directories_newest_first() {
    let files = vec![
        file(Some("a"), Some(1)),
        file(Some("b"), Some(5)),
        file(Some("a"), Some(3)),
        file(Some("c"), Some(3)),
        file(None, None),
        file(Some("b"), Some(9)),
        file(Some("a"), Some(3)),
        file(Some("."), Some(-1)),
    ];
    let albums = plan_albums(&files);
    let shown: Vec<(String, Vec<usize>)> = albums
        .iter()
        .map(|a| (String::from_utf8(a.dir.clone()).unwrap(), a.files.clone()))
        .collect();
    assert_eq!(
        shown,
        vec![
            ("b".to_string(), vec![5, 1]),
            ("a".to_string(), vec![2, 6, 0]),
            ("c".to_string(), vec![3]),
            (".".to_string(), vec![4, 7]),
        ]
    );
    assert!(plan_albums(&Vec::new()).is_empty());
}

#[test]
fn a_plan_holds_every_file_once() {
    let mut files: Vec<AlbumFile> = Vec::new();
    for i in 0..60i128 {
        let dir = format!("d{}", (i * 7) % 9);
        files.push(file(Some(dir.as_str()), Some((i * 31) % 17)));
    }
    let mut seen: Vec<usize> = Vec::new();
    for a in plan_albums(&files) {
        seen.extend(a.files);
    }
    seen.sort();
    assert_eq!(seen, (0..60).collect::<Vec<usize>>());
}

#[test]
fn written_gains_mark_a_file_as_measured() {
    let formats = [TagType::Id3v2, TagType::VorbisComments, TagType::Mp4Ilst, TagType::Ape];
    for format in formats {
        let mut tag = Tag::new(format);
        assert!(!has_replaygain_tags(Some(&tag)));
        write_replaygain_tags(&mut tag, "-6.20", "0.987654", "-5.00", "1.000000");
        assert!(has_replaygain_tags(Some(&tag)));
        assert_eq!(tag.get_string(ItemKey::ReplayGainTrackGain), Some("-6.20 dB"));
        assert_eq!(tag.get_string(ItemKey::ReplayGainTrackPeak), Some("0.987654"));
        assert_eq!(tag.get_string(ItemKey::ReplayGainAlbumGain), Some("-5.00 dB"));
        assert_eq!(tag.get_string(ItemKey::ReplayGainAlbumPeak), Some("1.000000"));
    }
    assert!(!has_replaygain_tags(None));
}

#[test]
fn all_four_values_are_needed() {
    let keys = [
        ItemKey::ReplayGainTrackGain,
        ItemKey::ReplayGainTrackPeak,
        ItemKey::ReplayGainAlbumGain,
        ItemKey::ReplayGainAlbumPeak,
    ];
    for missing in keys {
        let mut tag = Tag::new(TagType::VorbisComments);
        write_replaygain_tags(&mut tag, "1", "2", "3", "4");
        tag.insert_text(missing, " \t".to_string());
        assert!(!has_replaygain_tags(Some(&tag)));
        tag.remove_key(missing);
        assert!(!has_replaygain_tags(Some(&tag)));
    }
}

#[test]
fn only_finite_loudness_gives_a_gain() {
    let finite = [0.0f64, -18.0, -70.5, 3.0, f64::MAX, f64::MIN_POSITIVE];
    for loudness in finite {
        assert_eq!(gain_from_loudness(loudness.to_bits()), Some(-18));
        assert_eq!(gain_from_loudness((-loudness).to_bits()), Some(-18));
    }
    let other = [f64::INFINITY, f64::NEG_INFINITY, f64::NAN, -f64::NAN];
    for loudness in other {
        assert_eq!(gain_from_loudness(loudness.to_bits()), None);
    }
}

#[test]
fn the_largest_peak_is_that_of_the_numbers() {
    let lists: [&[f64]; 6] = [
        &[],
        &[0.25, 1.5, 0.75],
        &[-3.0, -0.5],
        &[f64::NAN, 0.125],
        &[0.9, f64::INFINITY, 2.0],
        &[1e-310, 0.0],
    ];
    for peaks in lists {
        let bits: Vec<u64> = peaks.iter().map(|p| p.to_bits()).collect();
        let expected = peaks.iter().copied().fold(0.0f64, f64::max);
        assert_eq!(f64::from_bits(largest_peak(&bits)), expected);
    }
}

#[test]
fn the_first_decodable_stream_is_measured() {
    let streams = vec![
        StreamInfo { id: 1, codec: StreamCodec::Other },
        StreamInfo {
            id: 2,
            codec: StreamCodec::Audio { is_null: true, channels: Some(1), sample_rate: Some(8000) },
        },
        StreamInfo {
            id: 3,
            codec: StreamCodec::Audio { is_null: false, channels: Some(2), sample_rate: Some(44100) },
        },
        StreamInfo {
            id: 4,
            codec: StreamCodec::Audio { is_null: false, channels: Some(6), sample_rate: Some(48000) },
        },
    ];
    assert_eq!(
        select_stream(&streams),
        Ok(SelectedStream { place: 2, id: 3, channels: 2, sample_rate: 44100 })
    );
}

#[test]
fn streams_that_cannot_be_measured_are_refused() {
    let none = select_stream(&Vec::new());
    assert_eq!(none, Err(StreamError::NoDecodableAudio));
    assert_eq!(none.unwrap_err().message(), "no decodable audio track found");
    let no_channels = vec![StreamInfo {
        id: 1,
        codec: StreamCodec::Audio { is_null: false, channels: None, sample_rate: None },
    }];
    assert_eq!(select_stream(&no_channels), Err(StreamError::UnknownChannels));
    assert_eq!(StreamError::UnknownChannels.message(), "unknown channel layout");
    let no_rate = vec![StreamInfo {
        id: 1,
        codec: StreamCodec::Audio { is_null: false, channels: Some(2), sample_rate: None },
    }];
    assert_eq!(select_stream(&no_rate), Err(StreamError::UnknownSampleRate));
    assert_eq!(StreamError::UnknownSampleRate.message(), "unknown sample rate");
}

#[test]
fn packets_are_decoded_ignored_or_end_the_track() {
    assert_eq!(packet_action(3, PacketEvent::Packet(3)), PacketAction::Decode);
    assert_eq!(packet_action(3, PacketEvent::Packet(4)), PacketAction::Ignore);
    assert_eq!(packet_action(3, PacketEvent::End), PacketAction::Finish);
    assert_eq!(packet_action(3, PacketEvent::CutOff), PacketAction::Finish);
    assert_eq!(packet_action(3, PacketEvent::ResetRequired), PacketAction::Finish);
    assert_eq!(packet_action(3, PacketEvent::Error), PacketAction::Fail);
    assert_eq!(decode_action(DecodeEvent::Decoded), DecodeAction::Measure);
    assert_eq!(decode_action(DecodeEvent::Unreadable), DecodeAction::Ignore);
    assert_eq!(decode_action(DecodeEvent::Malformed), DecodeAction::Ignore);
    assert_eq!(decode_action(DecodeEvent::Error), DecodeAction::Fail);
}

fn measured(loudness: f64, peak: f64) -> Measured {
    Measured { loudness: loudness.to_bits(), peak: peak.to_bits() }
}

#[test]
fn measured_tracks_share_the_values_of_their_album() {
    let tracks = vec![Some(measured(-9.5, 0.5)), None, Some(measured(-12.0, 0.75))];
    let album = (-10.25f64).to_bits();
    let expected = vec![
        TrackValues {
            track: 0,
            loudness: (-9.5f64).to_bits(),
            peak: 0.5f64.to_bits(),
            album_loudness: album,
            album_peak: 0.75f64.to_bits(),
        },
        TrackValues {
            track: 2,
            loudness: (-12.0f64).to_bits(),
            peak: 0.75f64.to_bits(),
            album_loudness: album,
            album_peak: 0.75f64.to_bits(),
        },
    ];
    assert_eq!(album_values(&tracks, Some(album)), expected);
    let silent = album_values(&vec![Some(measured(f64::NEG_INFINITY, f64::NAN))], None);
    assert_eq!(silent[0].album_loudness, f64::NEG_INFINITY.to_bits());
    assert_eq!(silent[0].album_peak, 0);
    assert_eq!(gain_from_loudness(silent[0].album_loudness), None);
    assert!(album_values(&vec![None, None], Some(album)).is_empty());
}

#[test]
fn a_run_accounts_for_every_file() {
    let files = vec![
        file(Some("a"), Some(9)),
        file(Some("a"), Some(8)),
        file(Some("b"), Some(7)),
        file(Some("b"), Some(6)),
        file(Some("b"), Some(5)),
        file(Some("c"), Some(4)),
    ];
    let (albums, mut run) = apply_replaygain(&files);
    assert_eq!(albums.len(), 3);
    assert!(matches!(run.step(), GainStep::CheckTags(0)));
    assert!(!run.advance(GainEvent::TagsChecked(vec![true])));
    assert!(!run.advance(GainEvent::Joined(None)));
    assert!(matches!(run.step(), GainStep::CheckTags(0)));
    assert!(run.advance(GainEvent::TagsChecked(vec![true, true])));
    assert!(matches!(run.step(), GainStep::CheckTags(1)));
    assert_eq!((run.counts().skipped_albums, run.counts().skipped_files), (1, 2));
    assert!(run.advance(GainEvent::TagsChecked(vec![true, false, true])));
    assert!(matches!(run.step(), GainStep::Analyze(1)));
    let found = vec![Some(measured(-9.5, 0.5)), None, Some(measured(-12.0, 0.75))];
    assert!(run.advance(GainEvent::Analyzed(found.clone())));
    match run.step() {
        GainStep::JoinLoudness(1, tracks) => assert_eq!(*tracks, vec![0, 2]),
        _ => panic!("the loudness was to be joined"),
    }
    assert_eq!(run.counts().failed, 1);
    let joined = Some((-10.25f64).to_bits());
    assert!(run.advance(GainEvent::Joined(joined)));
    match run.step() {
        GainStep::WriteTags(1, values) => assert_eq!(*values, album_values(&found, joined)),
        _ => panic!("tags were to be written"),
    }
    assert!(!run.advance(GainEvent::Written(vec![true])));
    assert!(run.advance(GainEvent::Written(vec![false, true])));
    assert_eq!((run.counts().processed, run.counts().failed), (1, 2));
    assert!(run.advance(GainEvent::TagsChecked(vec![false])));
    assert!(run.advance(GainEvent::Analyzed(vec![None])));
    assert!(matches!(run.step(), GainStep::Finished));
    let counts = run.counts();
    assert_eq!(counts.processed + counts.failed + counts.skipped_files, 6);
    assert_eq!(
        run_summary(&counts, "2.50"),
        vec![
            "  1 files tagged in 2.50s".to_string(),
            "  1 album(s) skipped (already tagged)".to_string(),
            "  3 files failed".to_string(),
        ]
    );
}

#[test]
fn a_second_run_skips_every_album() {
    let types = [FileType::Mpeg, FileType::Flac, FileType::Mp4, FileType::WavPack];
    let mut tagged: Vec<TaggedFile> = types
        .iter()
        .map(|ty| TaggedFile::new(*ty, FileProperties::default(), Vec::new()))
        .collect();
    let dirs = ["a", "b", "a", "c"];
    for round in 0..2 {
        let files: Vec<AlbumFile> = dirs.iter().map(|d| file(Some(*d), Some(round))).collect();
        let (albums, mut run) = apply_replaygain(&files);
        let mut steps = 0;
        loop {
            let event = match run.step() {
                GainStep::CheckTags(a) => GainEvent::TagsChecked(
                    albums[*a]
                        .files
                        .iter()
                        .map(|f| file_has_replaygain_tags(&tagged[*f]).unwrap())
                        .collect(),
                ),
                GainStep::Analyze(a) => GainEvent::Analyzed(
                    albums[*a].files.iter().map(|_| Some(measured(-9.5, 0.5))).collect(),
                ),
                GainStep::JoinLoudness(_, _) => GainEvent::Joined(Some((-9.5f64).to_bits())),
                GainStep::WriteTags(a, values) => GainEvent::Written(
                    values
                        .iter()
                        .map(|v| {
                            let f = albums[*a].files[v.track];
                            write_replaygain_file(&mut tagged[f], "-8.50", "0.5", "-8.50", "0.5")
                        })
                        .collect(),
                ),
                GainStep::Finished => break,
            };
            assert!(run.advance(event));
            steps += 1;
        }
        let counts = run.counts();
        assert_eq!(counts.failed, 0);
        if round == 0 {
            assert_eq!((counts.processed, counts.skipped_albums), (4, 0));
        } else {
            assert_eq!((counts.processed, counts.skipped_albums, counts.skipped_files), (0, 3, 4));
            assert_eq!(steps, 3);
        }
    }
    let mut custom =
        TaggedFile::new(FileType::Custom("other"), FileProperties::default(), Vec::new());
    assert_eq!(file_has_replaygain_tags(&custom), None);
    assert!(!write_replaygain_file(&mut custom, "1", "2", "3", "4"));
}

#[test]
fn a_run_without_albums_is_finished() {
    let (_, run) = apply_replaygain(&Vec::new());
    assert!(matches!(run.step(), GainStep::Finished));
    assert_eq!(
        run.counts(),
        GainCounts { processed: 0, failed: 0, skipped_albums: 0, skipped_files: 0 }
    );
    assert_eq!(run_summary(&run.counts(), "0.00"), vec!["  0 files tagged in 0.00s".to_string()]);
    assert_eq!(
        run_announcement(12, 3, 8),
        "  Processing 12 files across 3 album(s) using 8 threads"
    );
}

#[test]
fn the_preview_is_shown_where_asked_for_and_files_were_found() {
    assert!(shows_preview(true, 1));
    assert!(!shows_preview(true, 0));
    assert!(!shows_preview(false, 1));
    assert!(!shows_preview(false, 0));
}

#[test]
fn threads_are_counted_from_one() {
    assert!(matches!(configure_threads(None), ThreadPlan::Default));
    assert!(matches!(configure_threads(Some(4)), ThreadPlan::Use(4)));
    match configure_threads(Some(0)) {
        ThreadPlan::Invalid(message) => assert_eq!(message, "Thread count must be greater than 0"),
        _ => panic!("zero threads were accepted"),
    }
}

#[test]
fn organizing_goes_step_by_step() {
    let ok: Result<usize, String> = Ok(0);
    let mut phase = OrganizePhase::ResolveDir;
    let expected = [OrganizePhase::CheckDir, OrganizePhase::LoadConfig, OrganizePhase::Scan];
    for next in expected {
        let (after, message) = organize_step(phase, &ok);
        assert_eq!(after, next);
        assert_eq!(message, None);
        phase = after;
    }
    assert_eq!(organize_step(phase, &Ok(0)).0, OrganizePhase::NothingFound);
    let (after, _) = organize_step(phase, &Ok(3));
    assert_eq!(after, OrganizePhase::Organize);
    assert_eq!(organize_step(after, &ok).0, OrganizePhase::Done);
    assert_eq!(organize_step(OrganizePhase::Done, &ok).0, OrganizePhase::Done);
    assert_eq!(organize_step(OrganizePhase::NothingFound, &ok).0, OrganizePhase::NothingFound);
}

#[test]
fn organizing_fails_with_a_message() {
    let failed: Result<usize, String> = Err("x".to_string());
    let expected = [
        (
            OrganizePhase::ResolveDir,
            "Failed to determine the current directory: x",
            "Failed to determine the current directory: x",
        ),
        (OrganizePhase::CheckDir, "Not a directory: x", "organize target is not a directory: x"),
        (OrganizePhase::LoadConfig, "Failed to load config: x", "failed to load config: x"),
        (OrganizePhase::Scan, "Failed to scan music files: x", "failed to scan music files: x"),
        (
            OrganizePhase::Organize,
            "Failed to organize music files: x",
            "failed to organize music files: x",
        ),
    ];
    for (phase, shown, logged) in expected {
        let (after, failure) = organize_step(phase, &failed);
        assert_eq!(after, OrganizePhase::Failed);
        assert_eq!(
            failure,
            Some(Failure { shown: shown.to_string(), logged: logged.to_string() })
        );
    }
    assert_eq!(organize_step(OrganizePhase::Failed, &failed), (OrganizePhase::Failed, None));
}

#[test]
fn replaygain_goes_step_by_step() {
    let ok: Result<usize, String> = Ok(0);
    let failed: Result<usize, String> = Err("x".to_string());
    assert_eq!(replaygain_step(ReplayGainPhase::ResolvePath, &ok).0, ReplayGainPhase::CheckPath);
    assert_eq!(replaygain_step(ReplayGainPhase::CheckPath, &ok).0, ReplayGainPhase::Apply);
    assert_eq!(replaygain_step(ReplayGainPhase::Apply, &ok).0, ReplayGainPhase::Done);
    let expected = [
        (
            ReplayGainPhase::ResolvePath,
            "Failed to determine the current directory: x",
            "Failed to determine the current directory: x",
        ),
        (
            ReplayGainPhase::CheckPath,
            "Path does not exist: x",
            "replaygain target does not exist: x",
        ),
        (
            ReplayGainPhase::Apply,
            "Failed to compute ReplayGain: x",
            "failed to compute ReplayGain: x",
        ),
    ];
    for (phase, shown, logged) in expected {
        let (after, failure) = replaygain_step(phase, &failed);
        assert_eq!(after, ReplayGainPhase::Failed);
        assert_eq!(
            failure,
            Some(Failure { shown: shown.to_string(), logged: logged.to_string() })
        );
    }
}

#[test]
fn a_run_begins_with_the_newest_album() {
    let files = vec![file(Some("a"), Some(1)), file(Some("b"), Some(2)), file(Some("a"), None)];
    let (albums, run) = apply_replaygain(&files);
    assert_eq!(albums[0].dir, b"b".to_vec());
    assert_eq!(albums[0].files, vec![1]);
    assert_eq!(albums[1].files, vec![0, 2]);
    assert!(matches!(run.step(), GainStep::CheckTags(0)));
}

//! ReplayGain: which files are measured, how a decoder is driven, and what is written.

use crate::album::{is_album_plan, plan_albums, Album, AlbumFile};
use crate::gain_run::{GainCounts, GainRun, RunView};
use crate::lofty_file::{
    has_new_texts, lemma_new_texts_are_read, primary_format, primary_texts, readable_tag, tags_in,
    texts_read_of, type_of, writable_tag, FileTag,
};
use crate::lofty_tag::{
    format_of, has_text, has_text_under, holds_key, is_primary_format, tag_texts, texts_in,
    with_text,
};
use crate::number::{decimal_text, write_decimal};
use crate::text::{is_blank, texts_of};
use lofty::file::TaggedFile;
use lofty::tag::{ItemKey, Tag, TagType};
use vstd::prelude::*;

verus! {

/// The bit pattern of infinity, the largest IEEE 754 number with 64 bits. Those of the numbers
/// from zero on are below it, in the order of the numbers; those of the negative numbers and of
/// what is no number are above.
pub const INFINITY_BITS: u64 = 0x7ff0_0000_0000_0000;

/// The bit pattern of negative infinity, the loudness of silence.
pub const NEGATIVE_INFINITY_BITS: u64 = 0xfff0_0000_0000_0000;

/// The loudness, in LUFS, to which gains lead.
pub const REFERENCE_LOUDNESS: i32 = -18;

/// The bit pattern of a number without the sign.
pub open spec fn magnitude_bits(bits: u64) -> nat {
    bits as nat % 0x8000_0000_0000_0000
}

/// The loudness from which that of a track or an album is subtracted to give its gain. There is
/// none where the measured loudness is infinite or no number: silence gets no gain.
pub open spec fn gain_reference(loudness: u64) -> Option<i32> {
    if magnitude_bits(loudness) < INFINITY_BITS {
        Some(REFERENCE_LOUDNESS)
    } else {
        None
    }
}

/// The loudness from which that of a track or an album, given as the bit pattern of an IEEE 754
/// number with 64 bits, is subtracted to give its gain, where it gets one.
pub fn gain_from_loudness(loudness: u64) -> (reference: Option<i32>)
    ensures
        reference == gain_reference(loudness),
        reference == (if (loudness / 0x10_0000_0000_0000) % 0x800 == 0x7ff {
            None
        } else {
            Some(-18i32)
        }),
{
    proof {
        lemma_gain_needs_a_finite_number(loudness);
    }
    if loudness % 0x8000_0000_0000_0000 < INFINITY_BITS {
        Some(REFERENCE_LOUDNESS)
    } else {
        None
    }
}

/// The gains and peaks that the texts of a tag must all give for a file to count as measured.
pub open spec fn is_measured(texts: Map<ItemKey, Seq<char>>) -> bool {
    &&& has_text_under(texts, ItemKey::ReplayGainTrackGain)
    &&& has_text_under(texts, ItemKey::ReplayGainTrackPeak)
    &&& has_text_under(texts, ItemKey::ReplayGainAlbumGain)
    &&& has_text_under(texts, ItemKey::ReplayGainAlbumPeak)
}

/// What is read of a file gives the gain and the peak of both the track and the album.
pub open spec fn measured_in(texts: Option<Map<ItemKey, Seq<char>>>) -> bool {
    match texts {
        Some(texts) => is_measured(texts),
        None => false,
    }
}

/// Whether the tag of a file gives the gain and the peak of both the track and the album.
pub fn has_replaygain_tags(tag: Option<&Tag>) -> (has: bool)
    ensures
        has == measured_in(texts_in(tag)),
        tag is None ==> has == false,
        tag matches Some(tag) ==> {
            let texts = tag_texts(*tag);
            has == (has_text_under(texts, ItemKey::ReplayGainTrackGain) && has_text_under(
                texts,
                ItemKey::ReplayGainTrackPeak,
            ) && has_text_under(texts, ItemKey::ReplayGainAlbumGain) && has_text_under(
                texts,
                ItemKey::ReplayGainAlbumPeak,
            ))
        },
{
    match tag {
        Some(tag) => {
            let has_track_gain = has_text(tag, ItemKey::ReplayGainTrackGain);
            let has_track_peak = has_text(tag, ItemKey::ReplayGainTrackPeak);
            let has_album_gain = has_text(tag, ItemKey::ReplayGainAlbumGain);
            let has_album_peak = has_text(tag, ItemKey::ReplayGainAlbumPeak);
            has_track_gain && has_track_peak && has_album_gain && has_album_peak
        },
        None => false,
    }
}

/// Whether a file gives the gain and the peak of both the track and the album. Of files of custom
/// types nothing is said.
pub fn file_has_replaygain_tags(file: &TaggedFile) -> (has: Option<bool>)
    ensures
        has == (match primary_format(type_of(*file)) {
            Some(format) => Some(measured_in(texts_read_of(tags_in(*file), format))),
            None => None,
        }),
{
    match readable_tag(file) {
        FileTag::Found(tag) => Some(has_replaygain_tags(Some(tag))),
        FileTag::Missing => Some(has_replaygain_tags(None)),
        FileTag::Custom => None,
    }
}

/// The texts of a tag after gains and peaks have been written to it, the gains in decibels.
pub open spec fn texts_with_gains(
    texts: Map<ItemKey, Seq<char>>,
    format: TagType,
    track_gain: Seq<char>,
    track_peak: Seq<char>,
    album_gain: Seq<char>,
    album_peak: Seq<char>,
) -> Map<ItemKey, Seq<char>> {
    let texts = with_text(texts, format, ItemKey::ReplayGainTrackGain, track_gain + " dB"@);
    let texts = with_text(texts, format, ItemKey::ReplayGainTrackPeak, track_peak);
    let texts = with_text(texts, format, ItemKey::ReplayGainAlbumGain, album_gain + " dB"@);
    with_text(texts, format, ItemKey::ReplayGainAlbumPeak, album_peak)
}

/// A gain with its unit.
fn in_decibels(gain: &str) -> (text: String)
    ensures
        text@ == gain@ + " dB"@,
{
    let mut text = gain.to_owned();
    text.append(" dB");
    text
}

/// Writes gains and peaks, which are given as numerals, to the tag of a file.
pub fn write_replaygain_tags(
    tag: &mut Tag,
    track_gain: &str,
    track_peak: &str,
    album_gain: &str,
    album_peak: &str,
)
    ensures
        format_of(*final(tag)) == format_of(*old(tag)),
        tag_texts(*final(tag)) == texts_with_gains(
            tag_texts(*old(tag)),
            format_of(*old(tag)),
            track_gain@,
            track_peak@,
            album_gain@,
            album_peak@,
        ),
        is_primary_format(format_of(*old(tag))) ==> tag_texts(*final(tag)) == tag_texts(
            *old(tag),
        ).insert(ItemKey::ReplayGainTrackGain, track_gain@ + " dB"@).insert(
            ItemKey::ReplayGainTrackPeak,
            track_peak@,
        ).insert(ItemKey::ReplayGainAlbumGain, album_gain@ + " dB"@).insert(
            ItemKey::ReplayGainAlbumPeak,
            album_peak@,
        ),
{
    tag.insert_text(ItemKey::ReplayGainTrackGain, in_decibels(track_gain));
    tag.insert_text(ItemKey::ReplayGainTrackPeak, track_peak.to_owned());
    tag.insert_text(ItemKey::ReplayGainAlbumGain, in_decibels(album_gain));
    tag.insert_text(ItemKey::ReplayGainAlbumPeak, album_peak.to_owned());
}

/// A tag to which gains and peaks have been written gives all four, unless a peak is blank or the
/// tag's format has no place for one of them.
pub proof fn lemma_written_gains_are_found(
    texts: Map<ItemKey, Seq<char>>,
    format: TagType,
    track_gain: Seq<char>,
    track_peak: Seq<char>,
    album_gain: Seq<char>,
    album_peak: Seq<char>,
)
    requires
        holds_key(format, ItemKey::ReplayGainTrackGain),
        holds_key(format, ItemKey::ReplayGainTrackPeak),
        holds_key(format, ItemKey::ReplayGainAlbumGain),
        holds_key(format, ItemKey::ReplayGainAlbumPeak),
        !is_blank(track_peak),
        !is_blank(album_peak),
    ensures
        is_measured(
            texts_with_gains(texts, format, track_gain, track_peak, album_gain, album_peak),
        ),
{
    reveal_strlit(" dB");
    let track = track_gain + " dB"@;
    let album = album_gain + " dB"@;
    assert(track[track_gain.len() as int + 1] == 'd');
    assert(album[album_gain.len() as int + 1] == 'd');
}

/// `after` is what the tags of a file become when these gains and peaks are written to it.
pub open spec fn gains_written(
    before: Seq<Tag>,
    format: TagType,
    after: Seq<Tag>,
    track_gain: Seq<char>,
    track_peak: Seq<char>,
    album_gain: Seq<char>,
    album_peak: Seq<char>,
) -> bool {
    has_new_texts(
        before,
        format,
        after,
        texts_with_gains(
            primary_texts(before, format),
            format,
            track_gain,
            track_peak,
            album_gain,
            album_peak,
        ),
    )
}

/// Writes gains and peaks, which are given as numerals, to the primary tag of a file, which is
/// made where the file has none. Files of custom types are left as they are.
pub fn write_replaygain_file(
    file: &mut TaggedFile,
    track_gain: &str,
    track_peak: &str,
    album_gain: &str,
    album_peak: &str,
) -> (written: bool)
    ensures
        type_of(*final(file)) == type_of(*old(file)),
        match primary_format(type_of(*old(file))) {
            Some(format) => written && gains_written(
                tags_in(*old(file)),
                format,
                tags_in(*final(file)),
                track_gain@,
                track_peak@,
                album_gain@,
                album_peak@,
            ),
            None => !written && *final(file) == *old(file),
        },
{
    match writable_tag(file) {
        Some(tag) => {
            write_replaygain_tags(tag, track_gain, track_peak, album_gain, album_peak);
            true
        },
        None => false,
    }
}

/// A file to which gains and peaks have been written counts as measured, unless a peak is blank.
pub proof fn lemma_written_file_is_measured(
    before: Seq<Tag>,
    format: TagType,
    after: Seq<Tag>,
    track_gain: Seq<char>,
    track_peak: Seq<char>,
    album_gain: Seq<char>,
    album_peak: Seq<char>,
)
    requires
        is_primary_format(format),
        gains_written(before, format, after, track_gain, track_peak, album_gain, album_peak),
        !is_blank(track_peak),
        !is_blank(album_peak),
    ensures
        measured_in(texts_read_of(after, format)),
{
    let texts = primary_texts(before, format);
    lemma_new_texts_are_read(
        before,
        format,
        after,
        texts_with_gains(texts, format, track_gain, track_peak, album_gain, album_peak),
    );
    lemma_written_gains_are_found(
        texts,
        format,
        track_gain,
        track_peak,
        album_gain,
        album_peak,
    );
}

/// What a container says of one of its streams.
pub enum StreamCodec {
    /// A stream of audio. The codec is null where the container does not know it.
    Audio { is_null: bool, channels: Option<usize>, sample_rate: Option<u32> },
    /// A stream of something else.
    Other,
}

/// A stream of a container.
pub struct StreamInfo {
    pub id: u32,
    pub codec: StreamCodec,
}

/// The stream that is measured.
#[derive(Debug, Clone, Copy, PartialEq, Eq)]
pub struct SelectedStream {
    pub place: usize,
    pub id: u32,
    pub channels: usize,
    pub sample_rate: u32,
}

/// Why no stream is measured.
#[derive(Debug, Clone, Copy, PartialEq, Eq)]
pub enum StreamError {
    NoDecodableAudio,
    UnknownChannels,
    UnknownSampleRate,
}

impl StreamError {
    /// The error in words.
    pub open spec fn text(self) -> Seq<char> {
        match self {
            StreamError::NoDecodableAudio => "no decodable audio track found"@,
            StreamError::UnknownChannels => "unknown channel layout"@,
            StreamError::UnknownSampleRate => "unknown sample rate"@,
        }
    }

    /// The error in words.
    pub fn message(&self) -> (text: &'static str)
        ensures
            text@ == self.text(),
    {
        match self {
            StreamError::NoDecodableAudio => "no decodable audio track found",
            StreamError::UnknownChannels => "unknown channel layout",
            StreamError::UnknownSampleRate => "unknown sample rate",
        }
    }
}

impl StreamInfo {
    /// The stream is audio in a known codec.
    pub open spec fn is_decodable(self) -> bool {
        match self.codec {
            StreamCodec::Audio { is_null, .. } => !is_null,
            StreamCodec::Other => false,
        }
    }
}

/// The place of the first decodable stream, from `from` on; the number of streams where there is
/// none.
pub open spec fn first_decodable(streams: Seq<StreamInfo>, from: int) -> int
    decreases streams.len() - from,
{
    if from >= streams.len() {
        streams.len() as int
    } else if streams[from].is_decodable() {
        from
    } else {
        first_decodable(streams, from + 1)
    }
}

/// The stream that is measured: the first decodable one. Its channels and its sample rate must
/// be known.
pub open spec fn stream_choice(streams: Seq<StreamInfo>) -> Result<SelectedStream, StreamError> {
    let place = first_decodable(streams, 0);
    if place == streams.len() {
        Err(StreamError::NoDecodableAudio)
    } else {
        match streams[place].codec {
            StreamCodec::Audio { channels, sample_rate, .. } => match channels {
                Some(c) => match sample_rate {
                    Some(r) => Ok(
                        SelectedStream {
                            place: place as usize,
                            id: streams[place].id,
                            channels: c,
                            sample_rate: r,
                        },
                    ),
                    None => Err(StreamError::UnknownSampleRate),
                },
                None => Err(StreamError::UnknownChannels),
            },
            StreamCodec::Other => Err(StreamError::NoDecodableAudio),
        }
    }
}

/// Picks the stream of a container that is measured.
pub fn select_stream(streams: &Vec<StreamInfo>) -> (choice: Result<SelectedStream, StreamError>)
    ensures
        choice == stream_choice(streams@),
        choice matches Ok(chosen) ==> {
            &&& chosen.place < streams@.len()
            &&& chosen.id == streams@[chosen.place as int].id
            &&& streams@[chosen.place as int].codec == (StreamCodec::Audio {
                is_null: false,
                channels: Some(chosen.channels),
                sample_rate: Some(chosen.sample_rate),
            })
        },
{
    assert(streams@.len() == streams.len());
    proof {
        lemma_chosen_stream_is_the_containers(streams@);
    }
    let mut place: usize = 0;
    while place < streams.len()
        invariant
            place <= streams@.len(),
            first_decodable(streams@, 0) == first_decodable(streams@, place as int),
        decreases streams@.len() - place,
    {
        match &streams[place].codec {
            StreamCodec::Audio { is_null, channels, sample_rate } => {
                if !*is_null {
                    return match *channels {
                        Some(c) => match *sample_rate {
                            Some(r) => Ok(
                                SelectedStream {
                                    place,
                                    id: streams[place].id,
                                    channels: c,
                                    sample_rate: r,
                                },
                            ),
                            None => Err(StreamError::UnknownSampleRate),
                        },
                        None => Err(StreamError::UnknownChannels),
                    };
                }
            },
            StreamCodec::Other => {},
        }
        place += 1;
    }
    Err(StreamError::NoDecodableAudio)
}

/// What comes of asking a container for its next packet.
#[derive(Debug, Clone, Copy, PartialEq, Eq)]
pub enum PacketEvent {
    /// A packet of the stream with this id.
    Packet(u32),
    /// There are no more packets.
    End,
    /// The file ended within a packet.
    CutOff,
    /// The streams have changed.
    ResetRequired,
    /// Any other error.
    Error,
}

/// What is done about a packet.
#[derive(Debug, Clone, Copy, PartialEq, Eq)]
pub enum PacketAction {
    /// Decode it.
    Decode,
    /// Ask for the next one.
    Ignore,
    /// Go on to the results.
    Finish,
    /// Give the file up.
    Fail,
}

/// What is done about a packet. A file that is cut off, or whose streams change, is measured as
/// far as it goes.
pub open spec fn action_for_packet(stream: u32, event: PacketEvent) -> PacketAction {
    match event {
        PacketEvent::Packet(id) => if id == stream {
            PacketAction::Decode
        } else {
            PacketAction::Ignore
        },
        PacketEvent::End | PacketEvent::CutOff | PacketEvent::ResetRequired => PacketAction::Finish,
        PacketEvent::Error => PacketAction::Fail,
    }
}

/// Decides what is done about a packet while the stream with the id `stream` is measured.
pub fn packet_action(stream: u32, event: PacketEvent) -> (action: PacketAction)
    ensures
        action == action_for_packet(stream, event),
        action == PacketAction::Decode <==> event == PacketEvent::Packet(stream),
        action == PacketAction::Ignore <==> (event matches PacketEvent::Packet(id) && id != stream),
        action == PacketAction::Fail <==> event == PacketEvent::Error,
        action == PacketAction::Finish <==> event == PacketEvent::End || event
            == PacketEvent::CutOff || event == PacketEvent::ResetRequired,
{
    match event {
        PacketEvent::Packet(id) => if id == stream {
            PacketAction::Decode
        } else {
            PacketAction::Ignore
        },
        PacketEvent::End | PacketEvent::CutOff | PacketEvent::ResetRequired => PacketAction::Finish,
        PacketEvent::Error => PacketAction::Fail,
    }
}

/// What comes of decoding a packet.
#[derive(Debug, Clone, Copy, PartialEq, Eq)]
pub enum DecodeEvent {
    /// Samples.
    Decoded,
    /// The packet could not be read.
    Unreadable,
    /// The packet is malformed.
    Malformed,
    /// Any other error.
    Error,
}

/// What is done about a decoded packet.
#[derive(Debug, Clone, Copy, PartialEq, Eq)]
pub enum DecodeAction {
    /// Measure the samples.
    Measure,
    /// Ask for the next packet.
    Ignore,
    /// Give the file up.
    Fail,
}

/// What is done about a decoded packet. One that is unreadable or malformed is passed over.
pub open spec fn action_for_decoded(event: DecodeEvent) -> DecodeAction {
    match event {
        DecodeEvent::Decoded => DecodeAction::Measure,
        DecodeEvent::Unreadable | DecodeEvent::Malformed => DecodeAction::Ignore,
        DecodeEvent::Error => DecodeAction::Fail,
    }
}

/// Decides what is done about a decoded packet.
pub fn decode_action(event: DecodeEvent) -> (action: DecodeAction)
    ensures
        action == action_for_decoded(event),
        action == DecodeAction::Measure <==> event == DecodeEvent::Decoded,
        action == DecodeAction::Ignore <==> event == DecodeEvent::Unreadable || event
            == DecodeEvent::Malformed,
        action == DecodeAction::Fail <==> event == DecodeEvent::Error,
{
    match event {
        DecodeEvent::Decoded => DecodeAction::Measure,
        DecodeEvent::Unreadable | DecodeEvent::Malformed => DecodeAction::Ignore,
        DecodeEvent::Error => DecodeAction::Fail,
    }
}

/// A peak as it counts: what is negative, or no number, counts as zero.
pub open spec fn counted_peak(peak: u64) -> u64 {
    if peak <= INFINITY_BITS {
        peak
    } else {
        0
    }
}

/// The largest of some peaks, and zero where there are none.
pub open spec fn peak_over(peaks: Seq<u64>) -> u64
    decreases peaks.len(),
{
    if peaks.len() == 0 {
        0
    } else {
        let before = peak_over(peaks.drop_last());
        if counted_peak(peaks.last()) > before {
            counted_peak(peaks.last())
        } else {
            before
        }
    }
}

/// The largest of some peaks: those of the channels of a track, or of the tracks of an album.
/// Peaks are bit patterns of IEEE 754 numbers with 64 bits.
pub fn largest_peak(peaks: &Vec<u64>) -> (largest: u64)
    ensures
        largest == peak_over(peaks@),
        largest <= 0x7ff0_0000_0000_0000,
        largest == 0 || peaks@.contains(largest),
        forall|i: int|
            0 <= i < peaks@.len() && #[trigger] peaks@[i] <= 0x7ff0_0000_0000_0000 ==> peaks@[i]
                <= largest,
{
    proof {
        lemma_no_peak_is_above_the_largest(peaks@);
    }
    let mut largest: u64 = 0;
    let mut i: usize = 0;
    while i < peaks.len()
        invariant
            i <= peaks@.len(),
            largest == peak_over(peaks@.take(i as int)),
        decreases peaks@.len() - i,
    {
        assert(peaks@.take(i + 1).drop_last() =~= peaks@.take(i as int));
        if peaks[i] <= INFINITY_BITS && peaks[i] > largest {
            largest = peaks[i];
        }
        i += 1;
    }
    assert(peaks@.take(peaks@.len() as int) =~= peaks@);
    largest
}

/// The largest peak is at least as large as each, and is one of them unless it is zero.
pub proof fn lemma_peak_over_is_largest(peaks: Seq<u64>)
    ensures
        forall|i: int| 0 <= i < peaks.len() ==> counted_peak(#[trigger] peaks[i]) <= peak_over(peaks),
        peak_over(peaks) > 0 ==> peaks.contains(peak_over(peaks)),
        peak_over(peaks) <= INFINITY_BITS,
    decreases peaks.len(),
{
    if peaks.len() > 0 {
        let before = peaks.drop_last();
        lemma_peak_over_is_largest(before);
        assert forall|i: int| 0 <= i < peaks.len() implies counted_peak(#[trigger] peaks[i])
            <= peak_over(peaks) by {
            if i < before.len() {
                assert(before[i] == peaks[i]);
            }
        }
        if peak_over(peaks) > 0 {
            if peak_over(peaks) == peak_over(before) {
                let i = choose|i: int| 0 <= i < before.len() && before[i] == peak_over(before);
                assert(peaks[i] == peak_over(peaks));
            } else {
                assert(peaks.last() == peak_over(peaks));
            }
        }
    }
}

/// The places at which a list says yes.
pub open spec fn places_of_yes(answers: Seq<bool>) -> Seq<usize>
    decreases answers.len(),
{
    if answers.len() == 0 {
        Seq::empty()
    } else {
        let before = places_of_yes(answers.drop_last());
        if answers.last() {
            before.push((answers.len() - 1) as usize)
        } else {
            before
        }
    }
}

/// How often a list says yes.
pub open spec fn count_yes(answers: Seq<bool>) -> nat {
    places_of_yes(answers).len()
}

/// How often a list says no.
pub open spec fn count_no(answers: Seq<bool>) -> int {
    answers.len() - count_yes(answers)
}

/// A list says yes at most as often as it is long, and at places within it.
pub(crate) proof fn lemma_places_of_yes(answers: Seq<bool>)
    requires
        answers.len() <= usize::MAX,
    ensures
        places_of_yes(answers).len() <= answers.len(),
        forall|i: int|
            0 <= i < places_of_yes(answers).len() ==> (#[trigger] places_of_yes(answers)[i])
                < answers.len() && answers[places_of_yes(answers)[i] as int],
        places_of_yes(answers).len() == answers.len() ==> forall|i: int|
            0 <= i < answers.len() ==> #[trigger] answers[i],
        (forall|i: int| 0 <= i < answers.len() ==> #[trigger] answers[i]) ==> places_of_yes(
            answers,
        ).len() == answers.len(),
        forall|p: usize|
            p < answers.len() && #[trigger] answers[p as int] ==> places_of_yes(answers).contains(p),
    decreases answers.len(),
{
    if answers.len() > 0 {
        let before = answers.drop_last();
        lemma_places_of_yes(before);
        let places = places_of_yes(answers);
        assert forall|i: int| 0 <= i < places.len() implies (#[trigger] places[i]) < answers.len()
            && answers[places[i] as int] by {
            if i < places_of_yes(before).len() {
                assert(places[i] == places_of_yes(before)[i]);
                assert(before[places[i] as int] == answers[places[i] as int]);
            }
        }
        assert forall|p: usize| p < answers.len() && #[trigger] answers[p as int] implies places.contains(
            p,
        ) by {
            if p < before.len() {
                assert(before[p as int]);
                let i = choose|i: int|
                    0 <= i < places_of_yes(before).len() && places_of_yes(before)[i] == p;
                assert(places[i] == p);
            } else {
                assert(places.last() == p);
            }
        }
        if places.len() == answers.len() {
            assert forall|i: int| 0 <= i < answers.len() implies #[trigger] answers[i] by {
                if i < before.len() {
                    assert(before[i]);
                }
            }
        }
        if forall|i: int| 0 <= i < answers.len() ==> #[trigger] answers[i] {
            assert forall|i: int| 0 <= i < before.len() implies #[trigger] before[i] by {
                assert(answers[i]);
            }
        }
    }
}

/// The places at which a list says yes.
pub(crate) fn find_yes(answers: &Vec<bool>) -> (places: Vec<usize>)
    ensures
        places@ == places_of_yes(answers@),
        places@.len() <= answers@.len(),
{
    let mut places: Vec<usize> = Vec::new();
    let mut i: usize = 0;
    while i < answers.len()
        invariant
            i <= answers@.len(),
            places@ == places_of_yes(answers@.take(i as int)),
            places@.len() <= i,
        decreases answers@.len() - i,
    {
        assert(answers@.take(i + 1).drop_last() =~= answers@.take(i as int));
        if answers[i] {
            places.push(i);
        }
        i += 1;
    }
    assert(answers@.take(answers@.len() as int) =~= answers@);
    places
}

/// What measuring a track gives, as bit patterns of IEEE 754 numbers with 64 bits.
#[derive(Debug, Clone, Copy, PartialEq, Eq)]
pub struct Measured {
    pub loudness: u64,
    pub peak: u64,
}

/// What is written to a track of an album, named by its place in the album: its own loudness and
/// peak, and those of the album. Gains follow from the loudness.
#[derive(Debug, Clone, Copy, PartialEq, Eq)]
pub struct TrackValues {
    pub track: usize,
    pub loudness: u64,
    pub peak: u64,
    pub album_loudness: u64,
    pub album_peak: u64,
}

/// Whether each track of an album could be measured.
pub open spec fn successes(measured: Seq<Option<Measured>>) -> Seq<bool> {
    measured.map_values(|m: Option<Measured>| m is Some)
}

/// The tracks of an album that could be measured.
pub open spec fn measured_tracks(measured: Seq<Option<Measured>>) -> Seq<usize> {
    places_of_yes(successes(measured))
}

/// The peaks of the tracks that could be measured.
pub open spec fn measured_peaks(measured: Seq<Option<Measured>>) -> Seq<u64> {
    measured_tracks(measured).map_values(|track: usize| measured[track as int].unwrap().peak)
}

/// The loudness of an album: that of silence where it could not be computed.
pub open spec fn loudness_or_silence(loudness: Option<u64>) -> u64 {
    match loudness {
        Some(bits) => bits,
        None => NEGATIVE_INFINITY_BITS,
    }
}

/// What is written to the tracks of an album that could be measured.
pub open spec fn values_for(
    measured: Seq<Option<Measured>>,
    album_loudness: Option<u64>,
) -> Seq<TrackValues> {
    measured_tracks(measured).map_values(
        |track: usize|
            TrackValues {
                track,
                loudness: measured[track as int].unwrap().loudness,
                peak: measured[track as int].unwrap().peak,
                album_loudness: loudness_or_silence(album_loudness),
                album_peak: peak_over(measured_peaks(measured)),
            },
    )
}

/// The tracks of an album that could be measured.
pub(crate) fn find_measured(measured: &Vec<Option<Measured>>) -> (tracks: Vec<usize>)
    ensures
        tracks@ == measured_tracks(measured@),
        tracks@.len() <= measured@.len(),
{
    let mut answers: Vec<bool> = Vec::new();
    let mut i: usize = 0;
    while i < measured.len()
        invariant
            i <= measured@.len(),
            answers@.len() == i,
            forall|j: int| 0 <= j < i ==> answers@[j] == successes(measured@)[j],
        decreases measured@.len() - i,
    {
        answers.push(measured[i].is_some());
        i += 1;
    }
    assert(answers@ =~= successes(measured@));
    find_yes(&answers)
}

/// Computes what is written to the tracks of an album: one entry for each track that could be
/// measured, in their order. `album_loudness` is the loudness of these tracks together.
pub fn album_values(
    measured: &Vec<Option<Measured>>,
    album_loudness: Option<u64>,
) -> (values: Vec<TrackValues>)
    ensures
        values@ == values_for(measured@, album_loudness),
        forall|i: int|
            0 <= i < values@.len() ==> {
                let value = #[trigger] values@[i];
                &&& value.track < measured@.len()
                &&& measured@[value.track as int] == Some(
                    Measured { loudness: value.loudness, peak: value.peak },
                )
                &&& album_loudness matches Some(bits) ==> value.album_loudness == bits
                &&& album_loudness is None ==> value.album_loudness == 0xfff0_0000_0000_0000
            },
{
    let tracks = find_measured(measured);
    proof {
        assert(measured@.len() == measured.len());
        lemma_places_of_yes(successes(measured@));
    }
    let ghost peaks_wanted = measured_peaks(measured@);
    let mut peaks: Vec<u64> = Vec::new();
    let mut found: Vec<Measured> = Vec::new();
    let mut i: usize = 0;
    while i < tracks.len()
        invariant
            i <= tracks@.len(),
            tracks@ == measured_tracks(measured@),
            forall|j: int|
                0 <= j < tracks@.len() ==> (#[trigger] tracks@[j]) < measured@.len()
                    && successes(measured@)[tracks@[j] as int],
            peaks_wanted == measured_peaks(measured@),
            peaks@.len() == i,
            found@.len() == i,
            forall|j: int| 0 <= j < i ==> peaks@[j] == peaks_wanted[j],
            forall|j: int|
                0 <= j < i ==> (#[trigger] found@[j]) == measured@[tracks@[j] as int].unwrap(),
        decreases tracks@.len() - i,
    {
        assert(successes(measured@)[tracks@[i as int] as int]);
        let one: Measured = measured[tracks[i]].unwrap();
        peaks.push(one.peak);
        found.push(one);
        i += 1;
    }
    assert(peaks@ =~= peaks_wanted);
    let album_peak: u64 = largest_peak(&peaks);
    let album_loudness_bits: u64 = match album_loudness {
        Some(bits) => bits,
        None => NEGATIVE_INFINITY_BITS,
    };
    let ghost wanted = values_for(measured@, album_loudness);
    let mut values: Vec<TrackValues> = Vec::new();
    let mut k: usize = 0;
    while k < tracks.len()
        invariant
            k <= tracks@.len(),
            tracks@ == measured_tracks(measured@),
            found@.len() == tracks@.len(),
            forall|j: int|
                0 <= j < found@.len() ==> (#[trigger] found@[j])
                    == measured@[tracks@[j] as int].unwrap(),
            album_peak == peak_over(measured_peaks(measured@)),
            album_loudness_bits == loudness_or_silence(album_loudness),
            wanted == values_for(measured@, album_loudness),
            values@.len() == k,
            forall|j: int| 0 <= j < k ==> values@[j] == wanted[j],
        decreases tracks@.len() - k,
    {
        values.push(
            TrackValues {
                track: tracks[k],
                loudness: found[k].loudness,
                peak: found[k].peak,
                album_loudness: album_loudness_bits,
                album_peak,
            },
        );
        k += 1;
    }
    assert(values@ =~= wanted);
    proof {
        lemma_values_are_measured(measured@, album_loudness);
    }
    values
}

/// Every track that could be measured, and no other, gets its own loudness and peak, and all of
/// them get the same loudness and peak of the album. The peak of the album is the largest of
/// theirs: none of them is above it, and it is one of them unless it is zero.
pub proof fn lemma_album_values_are_shared(
    measured: Seq<Option<Measured>>,
    album_loudness: Option<u64>,
)
    requires
        measured.len() <= usize::MAX,
    ensures
        ({
            let values = values_for(measured, album_loudness);
            &&& forall|i: int|
                0 <= i < values.len() ==> {
                    let value = #[trigger] values[i];
                    &&& value.track < measured.len()
                    &&& measured[value.track as int] == Some(
                        Measured { loudness: value.loudness, peak: value.peak },
                    )
                    &&& value.album_loudness == loudness_or_silence(album_loudness)
                    &&& value.album_peak == peak_over(measured_peaks(measured))
                    &&& counted_peak(value.peak) <= value.album_peak
                    &&& value.album_peak > 0 ==> exists|j: int|
                        0 <= j < values.len() && (#[trigger] values[j]).peak == value.album_peak
                }
            &&& forall|t: usize|
                t < measured.len() && (#[trigger] measured[t as int]) is Some ==> exists|i: int|
                    0 <= i < values.len() && (#[trigger] values[i]).track == t
        }),
{
    let answers = successes(measured);
    let tracks = measured_tracks(measured);
    let values = values_for(measured, album_loudness);
    let peaks = measured_peaks(measured);
    lemma_places_of_yes(answers);
    lemma_peak_over_is_largest(peaks);
    assert forall|i: int| 0 <= i < values.len() implies {
        let value = #[trigger] values[i];
        &&& value.track < measured.len()
        &&& measured[value.track as int] == Some(
            Measured { loudness: value.loudness, peak: value.peak },
        )
        &&& value.album_loudness == loudness_or_silence(album_loudness)
        &&& value.album_peak == peak_over(measured_peaks(measured))
        &&& counted_peak(value.peak) <= value.album_peak
        &&& value.album_peak > 0 ==> exists|j: int|
            0 <= j < values.len() && (#[trigger] values[j]).peak == value.album_peak
    } by {
        assert(answers[tracks[i] as int]);
        assert(peaks[i] == values[i].peak);
        if values[i].album_peak > 0 {
            assert(peaks.contains(peak_over(peaks)));
            let j = choose|j: int| 0 <= j < peaks.len() && peaks[j] == peak_over(peaks);
            assert(values[j].peak == peaks[j]);
        }
    }
    assert forall|t: usize|
        t < measured.len() && (#[trigger] measured[t as int]) is Some implies exists|i: int|
        0 <= i < values.len() && (#[trigger] values[i]).track == t by {
        assert(answers[t as int]);
        assert(tracks.contains(t));
        let i = choose|i: int| 0 <= i < tracks.len() && tracks[i] == t;
        assert(values[i].track == t);
    }
}

/// Where the loudness of an album could not be computed, none of its tracks gets an album gain.
pub proof fn lemma_failed_album_loudness_gives_no_gain(measured: Seq<Option<Measured>>)
    ensures
        forall|i: int|
            0 <= i < values_for(measured, None).len() ==> gain_reference(
                (#[trigger] values_for(measured, None)[i]).album_loudness,
            ) is None,
{
    assert(0xfff0_0000_0000_0000nat % 0x8000_0000_0000_0000nat == 0x7ff0_0000_0000_0000nat);
}

/// Begins the tagging of files with their gains: forms their albums, and begins a run over them.
pub fn apply_replaygain(files: &Vec<AlbumFile>) -> (begun: (Vec<Album>, GainRun))
    ensures
        is_album_plan(files@, begun.0@),
        begun.1@ == RunView::begun(begun.0@),
        begun.1@.is_valid(),
        begun.1@.total() == files@.len(),
{
    let albums = plan_albums(files);
    assert(files@.len() == files.len());
    let run = GainRun::begin(&albums);
    (albums, run)
}

/// The line that announces a run.
pub fn run_announcement(files: usize, albums: usize, threads: usize) -> (line: String)
    ensures
        line@ == "  Processing "@ + decimal_text(files as nat) + " files across "@ + decimal_text(
            albums as nat,
        ) + " album(s) using "@ + decimal_text(threads as nat) + " threads"@,
{
    let mut line = "  Processing ".to_owned();
    line.append(write_decimal(files as u64).as_str());
    line.append(" files across ");
    line.append(write_decimal(albums as u64).as_str());
    line.append(" album(s) using ");
    line.append(write_decimal(threads as u64).as_str());
    line.append(" threads");
    line
}

/// The lines that sum up a run: the files that were tagged, and the albums that were skipped and
/// the files that failed where there are any.
pub open spec fn run_summary_lines(
    processed: nat,
    skipped_albums: nat,
    failed: nat,
    seconds: Seq<char>,
) -> Seq<Seq<char>> {
    seq!["  "@ + decimal_text(processed) + " files tagged in "@ + seconds + "s"@] + (
    if skipped_albums > 0 {
        seq!["  "@ + decimal_text(skipped_albums) + " album(s) skipped (already tagged)"@]
    } else {
        Seq::empty()
    }) + (if failed > 0 {
        seq!["  "@ + decimal_text(failed) + " files failed"@]
    } else {
        Seq::empty()
    })
}

/// The lines that sum up a run. `seconds` is the time it took.
pub fn run_summary(counts: &GainCounts, seconds: &str) -> (lines: Vec<String>)
    ensures
        texts_of(lines@) == run_summary_lines(
            counts.processed as nat,
            counts.skipped_albums as nat,
            counts.failed as nat,
            seconds@,
        ),
        lines@.len() == 1 + (if counts.skipped_albums > 0 {
            1int
        } else {
            0int
        }) + (if counts.failed > 0 {
            1int
        } else {
            0int
        }),
        lines@[0]@ == "  "@ + decimal_text(counts.processed as nat) + " files tagged in "@ + seconds@
            + "s"@,
        counts.skipped_albums > 0 ==> lines@[1]@ == "  "@ + decimal_text(
            counts.skipped_albums as nat,
        ) + " album(s) skipped (already tagged)"@,
        counts.failed > 0 ==> lines@.last()@ == "  "@ + decimal_text(counts.failed as nat)
            + " files failed"@,
{
    let mut lines: Vec<String> = Vec::new();
    let mut tagged = "  ".to_owned();
    tagged.append(write_decimal(counts.processed as u64).as_str());
    tagged.append(" files tagged in ");
    tagged.append(seconds);
    tagged.append("s");
    lines.push(tagged);
    if counts.skipped_albums > 0 {
        let mut skipped = "  ".to_owned();
        skipped.append(write_decimal(counts.skipped_albums as u64).as_str());
        skipped.append(" album(s) skipped (already tagged)");
        lines.push(skipped);
    }
    if counts.failed > 0 {
        let mut failed = "  ".to_owned();
        failed.append(write_decimal(counts.failed as u64).as_str());
        failed.append(" files failed");
        lines.push(failed);
    }
    assert(texts_of(lines@) =~= run_summary_lines(
        counts.processed as nat,
        counts.skipped_albums as nat,
        counts.failed as nat,
        seconds@,
    ));
    lines
}

/// A loudness gives a gain exactly where it is a finite number, that is, where not all bits of its
/// exponent are set; the gain then leads to -18 LUFS.
pub proof fn lemma_gain_needs_a_finite_number(loudness: u64)
    ensures
        gain_reference(loudness) == (if (loudness / 0x10_0000_0000_0000) % 0x800 == 0x7ff {
            None
        } else {
            Some(-18i32)
        }),
{
    assert((loudness / 0x10_0000_0000_0000) % 0x800 == 0x7ff <==> loudness
        % 0x8000_0000_0000_0000 >= 0x7ff0_0000_0000_0000) by (bit_vector);
    assert(magnitude_bits(loudness) == loudness % 0x8000_0000_0000_0000);
}

/// A file counts as measured exactly where more than white space is read of it under all four keys.
pub proof fn lemma_measured_needs_all_four(texts: Map<ItemKey, Seq<char>>)
    ensures
        measured_in(Some(texts)) <==> forall|key: ItemKey|
            key == ItemKey::ReplayGainTrackGain || key == ItemKey::ReplayGainTrackPeak || key
                == ItemKey::ReplayGainAlbumGain || key == ItemKey::ReplayGainAlbumPeak
                ==> #[trigger] texts.contains_key(key) && !is_blank(texts[key]),
        !measured_in(None),
{
    if forall|key: ItemKey|
        key == ItemKey::ReplayGainTrackGain || key == ItemKey::ReplayGainTrackPeak || key
            == ItemKey::ReplayGainAlbumGain || key == ItemKey::ReplayGainAlbumPeak
            ==> #[trigger] texts.contains_key(key) && !is_blank(texts[key]) {
        assert(texts.contains_key(ItemKey::ReplayGainTrackGain));
        assert(texts.contains_key(ItemKey::ReplayGainTrackPeak));
        assert(texts.contains_key(ItemKey::ReplayGainAlbumGain));
        assert(texts.contains_key(ItemKey::ReplayGainAlbumPeak));
    }
}

/// Gains and peaks are written under a key of their own each, the gains with their unit, where the
/// tag's format has a place for it, and nothing else is changed.
pub proof fn lemma_each_value_has_its_key(
    texts: Map<ItemKey, Seq<char>>,
    format: TagType,
    track_gain: Seq<char>,
    track_peak: Seq<char>,
    album_gain: Seq<char>,
    album_peak: Seq<char>,
)
    ensures
        ({
            let after = texts_with_gains(
                texts,
                format,
                track_gain,
                track_peak,
                album_gain,
                album_peak,
            );
            &&& after.get(ItemKey::ReplayGainTrackGain) == (if holds_key(
                format,
                ItemKey::ReplayGainTrackGain,
            ) {
                Some(track_gain + " dB"@)
            } else {
                texts.get(ItemKey::ReplayGainTrackGain)
            })
            &&& after.get(ItemKey::ReplayGainTrackPeak) == (if holds_key(
                format,
                ItemKey::ReplayGainTrackPeak,
            ) {
                Some(track_peak)
            } else {
                texts.get(ItemKey::ReplayGainTrackPeak)
            })
            &&& after.get(ItemKey::ReplayGainAlbumGain) == (if holds_key(
                format,
                ItemKey::ReplayGainAlbumGain,
            ) {
                Some(album_gain + " dB"@)
            } else {
                texts.get(ItemKey::ReplayGainAlbumGain)
            })
            &&& after.get(ItemKey::ReplayGainAlbumPeak) == (if holds_key(
                format,
                ItemKey::ReplayGainAlbumPeak,
            ) {
                Some(album_peak)
            } else {
                texts.get(ItemKey::ReplayGainAlbumPeak)
            })
            &&& forall|key: ItemKey|
                key != ItemKey::ReplayGainTrackGain && key != ItemKey::ReplayGainTrackPeak && key
                    != ItemKey::ReplayGainAlbumGain && key != ItemKey::ReplayGainAlbumPeak
                    ==> #[trigger] after.get(key) == texts.get(key)
        }),
{
}

/// Where a stream is chosen, it is the first one of audio in a known codec, and its values are
/// those that the container gives. Where none is, either there is no such stream, or the container
/// does not tell its channels or, they being known, its sample rate.
pub proof fn lemma_chosen_stream_is_the_containers(streams: Seq<StreamInfo>)
    requires
        streams.len() <= usize::MAX,
    ensures
        stream_choice(streams) matches Ok(chosen) ==> {
            &&& chosen.place < streams.len()
            &&& chosen.id == streams[chosen.place as int].id
            &&& streams[chosen.place as int].codec == (StreamCodec::Audio {
                is_null: false,
                channels: Some(chosen.channels),
                sample_rate: Some(chosen.sample_rate),
            })
            &&& forall|i: int|
                0 <= i < chosen.place ==> match (#[trigger] streams[i]).codec {
                    StreamCodec::Audio { is_null, .. } => is_null,
                    StreamCodec::Other => true,
                }
        },
        stream_choice(streams) == Err::<SelectedStream, StreamError>(StreamError::NoDecodableAudio)
            <==> forall|i: int|
            0 <= i < streams.len() ==> match (#[trigger] streams[i]).codec {
                StreamCodec::Audio { is_null, .. } => is_null,
                StreamCodec::Other => true,
            },
        forall|p: int|
            0 <= p < streams.len() && (forall|i: int|
                0 <= i < p ==> match (#[trigger] streams[i]).codec {
                    StreamCodec::Audio { is_null, .. } => is_null,
                    StreamCodec::Other => true,
                }) ==> match (#[trigger] streams[p]).codec {
                StreamCodec::Audio { is_null: false, channels: None, .. } => stream_choice(streams)
                    == Err::<SelectedStream, StreamError>(StreamError::UnknownChannels),
                StreamCodec::Audio {
                    is_null: false,
                    channels: Some(_),
                    sample_rate: None,
                } => stream_choice(streams) == Err::<SelectedStream, StreamError>(
                    StreamError::UnknownSampleRate,
                ),
                StreamCodec::Audio {
                    is_null: false,
                    channels: Some(_),
                    sample_rate: Some(_),
                } => stream_choice(streams) is Ok && stream_choice(streams).unwrap().place == p,
                _ => true,
            },
{
    lemma_first_decodable_is_first(streams, 0);
    let place = first_decodable(streams, 0);
    assert forall|p: int|
        0 <= p < streams.len() && (forall|i: int|
            0 <= i < p ==> match (#[trigger] streams[i]).codec {
                StreamCodec::Audio { is_null, .. } => is_null,
                StreamCodec::Other => true,
            }) && (#[trigger] streams[p]).is_decodable() implies p == place by {
        if place < p {
            assert(streams[place].is_decodable());
        }
    }
}

/// Before the first decodable stream none is decodable.
proof fn lemma_first_decodable_is_first(streams: Seq<StreamInfo>, from: int)
    requires
        0 <= from <= streams.len(),
    ensures
        from <= first_decodable(streams, from) <= streams.len(),
        first_decodable(streams, from) < streams.len() ==> streams[first_decodable(
            streams,
            from,
        )].is_decodable(),
        forall|i: int|
            from <= i < first_decodable(streams, from) ==> !(#[trigger] streams[i]).is_decodable(),
    decreases streams.len() - from,
{
    if from < streams.len() && !streams[from].is_decodable() {
        lemma_first_decodable_is_first(streams, from + 1);
    }
}

/// The largest peak is zero or one of the peaks, and none that is a number from zero on is above
/// it.
pub proof fn lemma_no_peak_is_above_the_largest(peaks: Seq<u64>)
    ensures
        peak_over(peaks) <= 0x7ff0_0000_0000_0000,
        peak_over(peaks) == 0 || peaks.contains(peak_over(peaks)),
        forall|i: int|
            0 <= i < peaks.len() && #[trigger] peaks[i] <= 0x7ff0_0000_0000_0000 ==> peaks[i]
                <= peak_over(peaks),
{
    lemma_peak_over_is_largest(peaks);
    assert forall|i: int|
        0 <= i < peaks.len() && #[trigger] peaks[i] <= 0x7ff0_0000_0000_0000 implies peaks[i]
        <= peak_over(peaks) by {
        assert(counted_peak(peaks[i]) <= peak_over(peaks));
    }
}

/// The places at which a list says yes are all such places, in their order.
pub proof fn lemma_places_go_up(answers: Seq<bool>)
    requires
        answers.len() <= usize::MAX,
    ensures
        forall|p: usize|
            p < answers.len() ==> (#[trigger] places_of_yes(answers).contains(p)
                <==> answers[p as int]),
        forall|i: int|
            0 <= i < places_of_yes(answers).len() ==> (#[trigger] places_of_yes(answers)[i])
                < answers.len(),
        forall|i: int, j: int|
            #![trigger places_of_yes(answers)[i], places_of_yes(answers)[j]]
            0 <= i < j < places_of_yes(answers).len() ==> places_of_yes(answers)[i]
                < places_of_yes(answers)[j],
    decreases answers.len(),
{
    lemma_places_of_yes(answers);
    let places = places_of_yes(answers);
    assert forall|p: usize| p < answers.len() implies (#[trigger] places.contains(p)
        <==> answers[p as int]) by {
        if places.contains(p) {
            let i = choose|i: int| 0 <= i < places.len() && places[i] == p;
            assert(answers[places[i] as int]);
        }
    }
    if answers.len() > 0 {
        let before = answers.drop_last();
        lemma_places_go_up(before);
        lemma_places_of_yes(before);
        assert forall|i: int, j: int|
            #![trigger places[i], places[j]]
            0 <= i < j < places.len() implies places[i] < places[j] by {
            assert(places[i] == places_of_yes(before)[i]);
            if j < places_of_yes(before).len() {
                assert(places[j] == places_of_yes(before)[j]);
            }
        }
    }
}

/// As many answers are yes as there are places of it, and the others are no: with one more answer
/// just one of the two numbers goes up by one.
pub proof fn lemma_answers_are_counted(answers: Seq<bool>, one_more: bool)
    ensures
        count_yes(Seq::empty()) == 0,
        count_no(Seq::empty()) == 0,
        count_yes(answers.push(one_more)) == count_yes(answers) + (if one_more {
            1int
        } else {
            0int
        }),
        count_no(answers.push(one_more)) == count_no(answers) + (if one_more {
            0int
        } else {
            1int
        }),
{
    assert(answers.push(one_more).drop_last() =~= answers);
}

/// Each value gives what was measured of its track, and the loudness of the album that was computed
/// or else that of silence.
pub proof fn lemma_values_are_measured(
    measured: Seq<Option<Measured>>,
    album_loudness: Option<u64>,
)
    requires
        measured.len() <= usize::MAX,
    ensures
        forall|i: int|
            0 <= i < values_for(measured, album_loudness).len() ==> {
                let value = #[trigger] values_for(measured, album_loudness)[i];
                &&& value.track < measured.len()
                &&& measured[value.track as int] == Some(
                    Measured { loudness: value.loudness, peak: value.peak },
                )
                &&& album_loudness matches Some(bits) ==> value.album_loudness == bits
                &&& album_loudness is None ==> value.album_loudness == 0xfff0_0000_0000_0000
            },
{
    let answers = successes(measured);
    let tracks = measured_tracks(measured);
    let values = values_for(measured, album_loudness);
    lemma_places_of_yes(answers);
    assert forall|i: int| 0 <= i < values.len() implies {
        let value = #[trigger] values[i];
        &&& value.track < measured.len()
        &&& measured[value.track as int] == Some(
            Measured { loudness: value.loudness, peak: value.peak },
        )
        &&& album_loudness matches Some(bits) ==> value.album_loudness == bits
        &&& album_loudness is None ==> value.album_loudness == 0xfff0_0000_0000_0000
    } by {
        assert(answers[tracks[i] as int]);
        assert(measured[tracks[i] as int] is Some);
    }
}

/// There is a value for each track that could be measured, and for no other, in the order of the
/// tracks.
pub proof fn lemma_measured_tracks_have_values(
    measured: Seq<Option<Measured>>,
    album_loudness: Option<u64>,
)
    requires
        measured.len() <= usize::MAX,
    ensures
        forall|t: usize|
            t < measured.len() ==> ((#[trigger] measured[t as int]) is Some <==> values_for(
                measured,
                album_loudness,
            ).map_values(|value: TrackValues| value.track).contains(t)),
        forall|i: int, j: int|
            #![trigger values_for(measured, album_loudness)[i], values_for(measured, album_loudness)[j]]
            0 <= i < j < values_for(measured, album_loudness).len() ==> values_for(
                measured,
                album_loudness,
            )[i].track < values_for(measured, album_loudness)[j].track,
{
    let answers = successes(measured);
    let tracks = measured_tracks(measured);
    let values = values_for(measured, album_loudness);
    lemma_places_go_up(answers);
    assert(values.map_values(|value: TrackValues| value.track) =~= tracks);
    assert forall|t: usize| t < measured.len() implies ((#[trigger] measured[t as int]) is Some
        <==> tracks.contains(t)) by {
        assert(answers[t as int] == (measured[t as int] is Some));
    }
    assert forall|i: int, j: int|
        #![trigger values[i], values[j]]
        0 <= i < j < values.len() implies values[i].track < values[j].track by {
        assert(values[i].track == tracks[i]);
        assert(values[j].track == tracks[j]);
    }
}

/// All values of an album give the same peak of the album: zero or the peak of one of its measured
/// tracks, and below the peak of none of them that is a number from zero on.
pub proof fn lemma_values_share_the_largest_peak(
    measured: Seq<Option<Measured>>,
    album_loudness: Option<u64>,
    i: int,
)
    requires
        0 <= i < values_for(measured, album_loudness).len(),
    ensures
        ({
            let values = values_for(measured, album_loudness);
            let peak = values[i].album_peak;
            &&& peak <= 0x7ff0_0000_0000_0000
            &&& peak == 0 || values.map_values(|value: TrackValues| value.peak).contains(peak)
            &&& forall|j: int|
                0 <= j < values.len() ==> {
                    &&& (#[trigger] values[j]).album_peak == peak
                    &&& values[j].peak <= 0x7ff0_0000_0000_0000 ==> values[j].peak <= peak
                }
        }),
{
    let values = values_for(measured, album_loudness);
    let peaks = measured_peaks(measured);
    lemma_no_peak_is_above_the_largest(peaks);
    assert(values.map_values(|value: TrackValues| value.peak) =~= peaks);
    assert forall|j: int| 0 <= j < values.len() implies {
        &&& (#[trigger] values[j]).album_peak == values[i].album_peak
        &&& values[j].peak <= 0x7ff0_0000_0000_0000 ==> values[j].peak <= values[i].album_peak
    } by {
        assert(values[j].peak == peaks[j]);
    }
}

} // verus!

//! Finding music files, and what a scan reads from their tags.

use crate::lofty_file::{primary_format, readable_tag, tags_in, texts_read_of, type_of, FileTag};
use crate::lofty_tag::{
    date_year, tag_texts, text_under, texts_in, timestamp_year, track_in, track_number, year_in,
    year_of,
};
use crate::number::{
    decimal_text, decimal_value, lemma_decimal_of_four_digits, lemma_decimal_round_trip,
    parse_decimal, write_decimal,
};
use crate::order::{
    comes_before, descending_order, is_descending_order, is_ordered, lemma_order_lists_each_once,
    lemma_ordered_lists_agree,
};
use crate::text::{
    chars_of, lemma_trimmed_is_middle, lemma_trimmed_twice, lowercase_of, matches_at, occurs_in,
    same_text, stands_at, str_of, text_of, text_or, text_or_else, to_lowercase, trim, trimmed,
};
use lofty::file::TaggedFile;
use lofty::tag::{ItemKey, Tag};
use vstd::prelude::*;

verus! {

/// The file name extensions of music files, in lower case.
pub const MUSIC_EXTENSIONS: [&'static str; 12] = [
    "mp3",
    "flac",
    "m4a",
    "wav",
    "ogg",
    "aac",
    "opus",
    "aiff",
    "aif",
    "alac",
    "wma",
    "ape",
];

/// What may stand between the artists of one credit.
pub const ARTIST_DELIMITERS: [&'static str; 14] = [
    ", ",
    " & ",
    " and ",
    " feat. ",
    " feat ",
    " ft. ",
    " ft ",
    " x ",
    " X ",
    " vs ",
    " vs. ",
    " with ",
    " + ",
    " / ",
];

/// `extension` is that of a music file, in lower case.
pub open spec fn names_music(extension: Seq<char>) -> bool {
    exists|i: int| 0 <= i < MUSIC_EXTENSIONS@.len() && #[trigger] MUSIC_EXTENSIONS@[i]@ == extension
}

/// Whether `extension`, in lower case, is that of a music file.
pub fn is_music_extension(extension: &str) -> (is_music: bool)
    ensures
        is_music == names_music(extension@),
{
    let extensions = MUSIC_EXTENSIONS;
    let mut i: usize = 0;
    while i < 12
        invariant
            i <= 12,
            extensions == MUSIC_EXTENSIONS,
            forall|j: int| 0 <= j < i ==> #[trigger] MUSIC_EXTENSIONS@[j]@ != extension@,
        decreases 12 - i,
    {
        if same_text(extensions[i], extension) {
            return true;
        }
        i += 1;
    }
    false
}

/// A file with this extension, where it has one, is a music file. Letter case does not count.
pub open spec fn is_music(extension: Option<Seq<char>>) -> bool {
    match extension {
        Some(e) => names_music(lowercase_of(e)),
        None => false,
    }
}

/// Whether a file is a music file, by the extension of its name.
pub fn is_music_file(extension: Option<&str>) -> (is_music: bool)
    ensures
        is_music == self::is_music(str_of(extension)),
        extension is None ==> !is_music,
        extension matches Some(e) ==> (is_music <==> ({
            let lower = lowercase_of(e@);
            ||| lower == "mp3"@
            ||| lower == "flac"@
            ||| lower == "m4a"@
            ||| lower == "wav"@
            ||| lower == "ogg"@
            ||| lower == "aac"@
            ||| lower == "opus"@
            ||| lower == "aiff"@
            ||| lower == "aif"@
            ||| lower == "alac"@
            ||| lower == "wma"@
            ||| lower == "ape"@
        })),
{
    proof {
        if let Some(e) = extension {
            lemma_music_has_twelve_extensions(lowercase_of(e@));
        }
    }
    match extension {
        Some(e) => is_music_extension(to_lowercase(e).as_str()),
        None => false,
    }
}

/// What a directory walk tells of one entry. Times are nanoseconds from the Unix epoch on.
pub struct FoundEntry {
    pub is_file: bool,
    pub extension: Option<String>,
    pub modified: Option<i128>,
}

/// A time of modification that could not be read counts as the epoch.
pub open spec fn modified_or_epoch(modified: Option<i128>) -> i128 {
    match modified {
        Some(t) => t,
        None => 0,
    }
}

impl FoundEntry {
    /// The entry is a music file.
    pub open spec fn is_wanted(self) -> bool {
        self.is_file && is_music(text_of(self.extension))
    }
}

/// The times of modification of all entries.
pub open spec fn entry_times(entries: Seq<FoundEntry>) -> Seq<i128> {
    entries.map_values(|entry: FoundEntry| modified_or_epoch(entry.modified))
}

/// `listed` holds the places of the music files among `entries`, each once, the newest first.
/// Files of one time stay in the order in which they were found.
pub open spec fn is_music_listing(entries: Seq<FoundEntry>, listed: Seq<usize>) -> bool {
    &&& forall|i: int|
        0 <= i < listed.len() ==> (#[trigger] listed[i]) < entries.len()
            && entries[listed[i] as int].is_wanted()
    &&& forall|e: usize|
        e < entries.len() && (#[trigger] entries[e as int]).is_wanted() ==> listed.contains(e)
    &&& is_ordered(entry_times(entries), listed)
}

/// The time of modification, or the epoch where it could not be read.
pub fn time_or_epoch(modified: Option<i128>) -> (time: i128)
    ensures
        time == modified_or_epoch(modified),
        modified matches Some(t) ==> time == t,
        modified is None ==> time == 0,
{
    match modified {
        Some(t) => t,
        None => 0,
    }
}

/// Picks the music files out of what a directory walk found, the newest first.
pub fn collect_music_paths(entries: &Vec<FoundEntry>) -> (listed: Vec<usize>)
    ensures
        is_music_listing(entries@, listed@),
{
    let mut wanted: Vec<usize> = Vec::new();
    let mut times: Vec<i128> = Vec::new();
    let mut e: usize = 0;
    while e < entries.len()
        invariant
            e <= entries@.len(),
            wanted@.len() == times@.len(),
            forall|i: int|
                0 <= i < wanted@.len() ==> (#[trigger] wanted@[i]) < e
                    && entries@[wanted@[i] as int].is_wanted() && times@[i] == modified_or_epoch(
                    entries@[wanted@[i] as int].modified,
                ),
            forall|i: int, j: int| 0 <= i < j < wanted@.len() ==> wanted@[i] < wanted@[j],
            forall|d: usize|
                d < e && (#[trigger] entries@[d as int]).is_wanted() ==> wanted@.contains(d),
        decreases entries@.len() - e,
    {
        let ghost before = wanted@;
        let extension: Option<&str> = match &entries[e].extension {
            Some(x) => Some(x.as_str()),
            None => None,
        };
        if entries[e].is_file && is_music_file(extension) {
            wanted.push(e);
            times.push(time_or_epoch(entries[e].modified));
            assert forall|d: usize|
                d < e + 1 && (#[trigger] entries@[d as int]).is_wanted() implies wanted@.contains(
                d,
            ) by {
                if d == e {
                    assert(wanted@[before.len() as int] == d);
                } else {
                    assert(before.contains(d));
                    let i = choose|i: int| 0 <= i < before.len() && before[i] == d;
                    assert(wanted@[i] == d);
                }
            }
        }
        e += 1;
    }
    let order = descending_order(&times);
    let mut listed: Vec<usize> = Vec::new();
    let mut k: usize = 0;
    while k < order.len()
        invariant
            k <= order@.len(),
            is_descending_order(times@, order@),
            wanted@.len() == times@.len(),
            listed@.len() == k,
            forall|i: int| 0 <= i < k ==> #[trigger] listed@[i] == wanted@[order@[i] as int],
        decreases order@.len() - k,
    {
        listed.push(wanted[order[k]]);
        k += 1;
    }
    proof {
        lemma_order_lists_each_once(times@, order@);
        assert forall|e: usize|
            e < entries@.len() && (#[trigger] entries@[e as int]).is_wanted() implies listed@.contains(
            e,
        ) by {
            assert(wanted@.contains(e));
            let i = choose|i: int| 0 <= i < wanted@.len() && wanted@[i] == e;
            assert(order@.contains(i as usize));
            let k = choose|k: int| 0 <= k < order@.len() && order@[k] == i as usize;
            assert(listed@[k] == e);
        }
        assert forall|i: int, j: int| 0 <= i < j < listed@.len() implies #[trigger] comes_before(
            entry_times(entries@),
            listed@[i],
            listed@[j],
        ) by {
            assert(comes_before(times@, order@[i], order@[j]));
            assert(listed@[i] == wanted@[order@[i] as int]);
            assert(listed@[j] == wanted@[order@[j] as int]);
        }
    }
    listed
}

/// There is only one listing of the music files among some entries.
pub proof fn lemma_music_listing_is_unique(
    entries: Seq<FoundEntry>,
    a: Seq<usize>,
    b: Seq<usize>,
)
    requires
        is_music_listing(entries, a),
        is_music_listing(entries, b),
    ensures
        a == b,
{
    assert forall|e: usize| a.contains(e) <==> b.contains(e) by {
        if a.contains(e) || b.contains(e) {
            assert(entries[e as int].is_wanted());
        }
    }
    lemma_ordered_lists_agree(entry_times(entries), a, b);
}

/// A listing is in order already: ordering its files by time once more changes nothing.
pub proof fn lemma_music_listing_is_in_order(entries: Seq<FoundEntry>, listed: Seq<usize>)
    requires
        is_music_listing(entries, listed),
        listed.len() <= usize::MAX,
    ensures
        is_descending_order(
            listed.map_values(|e: usize| entry_times(entries)[e as int]),
            Seq::new(listed.len(), |i: int| i as usize),
        ),
{
    let times = listed.map_values(|e: usize| entry_times(entries)[e as int]);
    let same = Seq::new(listed.len(), |i: int| i as usize);
    assert forall|i: int, j: int| 0 <= i < j < same.len() implies #[trigger] comes_before(
        times,
        same[i],
        same[j],
    ) by {
        assert(comes_before(entry_times(entries), listed[i], listed[j]));
    }
}

/// A delimiter stands in `text` from position `at` on.
pub open spec fn delimiter_at(text: Seq<char>, at: int) -> bool {
    exists|k: int|
        0 <= k < ARTIST_DELIMITERS@.len() && matches_at(
            text,
            #[trigger] ARTIST_DELIMITERS@[k]@,
            at,
        )
}

/// The first position, from `from` on, at which a delimiter stands; the end of the text where
/// there is none.
pub open spec fn first_delimiter(text: Seq<char>, from: int) -> int
    decreases text.len() - from,
{
    if from >= text.len() {
        text.len() as int
    } else if delimiter_at(text, from) {
        from
    } else {
        first_delimiter(text, from + 1)
    }
}

/// The first artist of a credit: what stands before the first delimiter, trimmed.
pub open spec fn first_artist(credit: Seq<char>) -> Seq<char> {
    trimmed(credit.subrange(0, first_delimiter(credit, 0)))
}

/// Whether a delimiter stands in `text` from position `at` on.
fn delimiter_stands_at(text: &Vec<char>, at: usize) -> (stands: bool)
    ensures
        stands == delimiter_at(text@, at as int),
{
    let delimiters = ARTIST_DELIMITERS;
    let mut k: usize = 0;
    while k < 14
        invariant
            k <= 14,
            delimiters == ARTIST_DELIMITERS,
            forall|j: int|
                0 <= j < k ==> !matches_at(
                    text@,
                    #[trigger] ARTIST_DELIMITERS@[j]@,
                    at as int,
                ),
        decreases 14 - k,
    {
        let delimiter = chars_of(delimiters[k]);
        if stands_at(text, &delimiter, at) {
            return true;
        }
        k += 1;
    }
    false
}

/// The first artist of a credit that may name several.
pub fn extract_first_artist(artist_string: &str) -> (artist: String)
    ensures
        artist@ == first_artist(artist_string@),
{
    let chars = chars_of(artist_string);
    let mut end: usize = 0;
    while end < chars.len() && !delimiter_stands_at(&chars, end)
        invariant
            chars@ == artist_string@,
            end <= chars@.len(),
            first_delimiter(artist_string@, 0) == first_delimiter(artist_string@, end as int),
        decreases chars@.len() - end,
    {
        end += 1;
    }
    trim(artist_string.substring_char(0, end))
}

/// No delimiter stands before the first one.
proof fn lemma_first_delimiter_is_first(text: Seq<char>, from: int)
    requires
        0 <= from <= text.len(),
    ensures
        from <= first_delimiter(text, from) <= text.len(),
        forall|at: int|
            from <= at < first_delimiter(text, from) ==> !(#[trigger] delimiter_at(text, at)),
    decreases text.len() - from,
{
    if from < text.len() && !delimiter_at(text, from) {
        lemma_first_delimiter_is_first(text, from + 1);
    }
}

/// Where no delimiter stands, the first one is at the end.
proof fn lemma_no_delimiter(text: Seq<char>, from: int)
    requires
        0 <= from <= text.len(),
        forall|at: int| 0 <= at < text.len() ==> !(#[trigger] delimiter_at(text, at)),
    ensures
        first_delimiter(text, from) == text.len(),
    decreases text.len() - from,
{
    if from < text.len() {
        lemma_no_delimiter(text, from + 1);
    }
}

/// Every delimiter has at least one character.
proof fn lemma_delimiters_are_not_empty()
    ensures
        forall|k: int|
            0 <= k < ARTIST_DELIMITERS@.len() ==> (#[trigger] ARTIST_DELIMITERS@[k]@).len() > 0,
{
    reveal_strlit(", ");
    reveal_strlit(" & ");
    reveal_strlit(" and ");
    reveal_strlit(" feat. ");
    reveal_strlit(" feat ");
    reveal_strlit(" ft. ");
    reveal_strlit(" ft ");
    reveal_strlit(" x ");
    reveal_strlit(" X ");
    reveal_strlit(" vs ");
    reveal_strlit(" vs. ");
    reveal_strlit(" with ");
    reveal_strlit(" + ");
    reveal_strlit(" / ");
}

/// The first artist is one artist: no delimiter occurs in it.
pub proof fn lemma_first_artist_has_no_delimiter(credit: Seq<char>)
    ensures
        forall|k: int|
            0 <= k < ARTIST_DELIMITERS@.len() ==> !occurs_in(
                first_artist(credit),
                #[trigger] ARTIST_DELIMITERS@[k]@,
            ),
{
    let cut = first_delimiter(credit, 0);
    lemma_first_delimiter_is_first(credit, 0);
    lemma_delimiters_are_not_empty();
    let head = credit.subrange(0, cut);
    let (from, to) = lemma_trimmed_is_middle(head);
    let artist = first_artist(credit);
    assert forall|k: int| 0 <= k < ARTIST_DELIMITERS@.len() implies !occurs_in(
        artist,
        #[trigger] ARTIST_DELIMITERS@[k]@,
    ) by {
        let delimiter = ARTIST_DELIMITERS@[k]@;
        if occurs_in(artist, delimiter) {
            let at = choose|at: int| matches_at(artist, delimiter, at);
            assert(credit.subrange(from + at, from + at + delimiter.len()) =~= artist.subrange(
                at,
                at + delimiter.len(),
            ));
            assert(matches_at(credit, delimiter, from + at));
            assert(delimiter_at(credit, from + at));
        }
    }
}

/// Taking the first artist twice is taking it once.
pub proof fn lemma_first_artist_twice(credit: Seq<char>)
    ensures
        first_artist(first_artist(credit)) == first_artist(credit),
{
    let artist = first_artist(credit);
    lemma_first_artist_has_no_delimiter(credit);
    assert forall|at: int| 0 <= at < artist.len() implies !(#[trigger] delimiter_at(artist, at)) by {
        if delimiter_at(artist, at) {
            let k = choose|k: int|
                0 <= k < ARTIST_DELIMITERS@.len() && matches_at(
                    artist,
                    #[trigger] ARTIST_DELIMITERS@[k]@,
                    at,
                );
            assert(occurs_in(artist, ARTIST_DELIMITERS@[k]@));
        }
    }
    lemma_no_delimiter(artist, 0);
    assert(artist.subrange(0, artist.len() as int) =~= artist);
    lemma_trimmed_twice(credit.subrange(0, first_delimiter(credit, 0)));
}

/// What the tag of a music file says of it.
#[derive(Debug, Clone)]
pub struct AudioMetadata {
    pub title: Option<String>,
    pub artist: Option<String>,
    pub album: Option<String>,
    pub album_artist: Option<String>,
    pub year: Option<i32>,
    pub genre: Option<String>,
    pub track: Option<u16>,
    pub disc: Option<u16>,
}

/// The contents of an `AudioMetadata`.
#[verifier::ext_equal]
pub struct MetadataView {
    pub title: Option<Seq<char>>,
    pub artist: Option<Seq<char>>,
    pub album: Option<Seq<char>>,
    pub album_artist: Option<Seq<char>>,
    pub year: Option<i32>,
    pub genre: Option<Seq<char>>,
    pub track: Option<u16>,
    pub disc: Option<u16>,
}

impl View for AudioMetadata {
    type V = MetadataView;

    open spec fn view(&self) -> MetadataView {
        MetadataView {
            title: text_of(self.title),
            artist: text_of(self.artist),
            album: text_of(self.album),
            album_artist: text_of(self.album_artist),
            year: self.year,
            genre: text_of(self.genre),
            track: self.track,
            disc: self.disc,
        }
    }
}

/// The metadata of a file without a tag.
pub open spec fn no_metadata() -> MetadataView {
    MetadataView {
        title: None,
        artist: None,
        album: None,
        album_artist: None,
        year: None,
        genre: None,
        track: None,
        disc: None,
    }
}

/// The metadata that the texts of a tag give. Of a track number too large for 16 bits the
/// lowest 16 are kept.
pub open spec fn metadata_in(texts: Map<ItemKey, Seq<char>>) -> MetadataView {
    MetadataView {
        title: texts.get(ItemKey::TrackTitle),
        artist: texts.get(ItemKey::TrackArtist),
        album: texts.get(ItemKey::AlbumTitle),
        album_artist: match texts.get(ItemKey::AlbumArtist) {
            Some(credit) => Some(first_artist(credit)),
            None => None,
        },
        year: match year_in(texts) {
            Some(year) => Some(year as i32),
            None => None,
        },
        genre: texts.get(ItemKey::Genre),
        track: match track_in(texts) {
            Some(n) => Some((n % 0x1_0000) as u16),
            None => None,
        },
        disc: match texts.get(ItemKey::DiscNumber) {
            Some(text) => match decimal_value(text, u16::MAX as nat) {
                Some(n) => Some(n as u16),
                None => None,
            },
            None => None,
        },
    }
}

/// The metadata that what is read of a file gives.
pub open spec fn metadata_of(texts: Option<Map<ItemKey, Seq<char>>>) -> MetadataView {
    match texts {
        Some(texts) => metadata_in(texts),
        None => no_metadata(),
    }
}

/// Reads the metadata of a file from its tag, where it has one.
pub fn extract_metadata(tag: Option<&Tag>) -> (metadata: AudioMetadata)
    ensures
        metadata@ == metadata_of(texts_in(tag)),
        tag matches Some(tag) ==> {
            let texts = tag_texts(*tag);
            &&& text_of(metadata.title) == texts.get(ItemKey::TrackTitle)
            &&& text_of(metadata.artist) == texts.get(ItemKey::TrackArtist)
            &&& text_of(metadata.album) == texts.get(ItemKey::AlbumTitle)
            &&& text_of(metadata.genre) == texts.get(ItemKey::Genre)
            &&& text_of(metadata.album_artist) == (match texts.get(ItemKey::AlbumArtist) {
                Some(credit) => Some(first_artist(credit)),
                None => None,
            })
            &&& metadata.track == (match texts.get(ItemKey::TrackNumber) {
                Some(text) => match decimal_value(text, 0xffff_ffff) {
                    Some(n) => Some((n % 0x1_0000) as u16),
                    None => None,
                },
                None => None,
            })
            &&& metadata.disc == (match texts.get(ItemKey::DiscNumber) {
                Some(text) => match decimal_value(text, 0xffff) {
                    Some(n) => Some(n as u16),
                    None => None,
                },
                None => None,
            })
            &&& metadata.year == (match texts.get(ItemKey::RecordingDate) {
                Some(date) => match year_of(date, timestamp_year(date)) {
                    Some(year) => Some(year as i32),
                    None => None,
                },
                None => match texts.get(ItemKey::Year) {
                    Some(date) => match year_of(date, timestamp_year(date)) {
                        Some(year) => Some(year as i32),
                        None => None,
                    },
                    None => None,
                },
            })
        },
        tag is None ==> {
            &&& metadata.title is None
            &&& metadata.artist is None
            &&& metadata.album is None
            &&& metadata.album_artist is None
            &&& metadata.year is None
            &&& metadata.genre is None
            &&& metadata.track is None
            &&& metadata.disc is None
        },
{
    match tag {
        None => AudioMetadata {
            title: None,
            artist: None,
            album: None,
            album_artist: None,
            year: None,
            genre: None,
            track: None,
            disc: None,
        },
        Some(tag) => {
            let album_artist: Option<String> = match tag.get_string(ItemKey::AlbumArtist) {
                Some(credit) => Some(extract_first_artist(credit)),
                None => None,
            };
            let year: Option<i32> = match date_year(tag) {
                Some(year) => Some(year as i32),
                None => None,
            };
            let track: Option<u16> = match track_number(tag) {
                Some(n) => Some((n % 0x1_0000) as u16),
                None => None,
            };
            let disc: Option<u16> = match tag.get_string(ItemKey::DiscNumber) {
                Some(text) => match parse_decimal(text, 0xffff) {
                    Some(n) => Some(n as u16),
                    None => None,
                },
                None => None,
            };
            AudioMetadata {
                title: text_under(tag, ItemKey::TrackTitle),
                artist: text_under(tag, ItemKey::TrackArtist),
                album: text_under(tag, ItemKey::AlbumTitle),
                album_artist,
                year,
                genre: text_under(tag, ItemKey::Genre),
                track,
                disc,
            }
        },
    }
}

/// Reads the metadata of a file. Of files of custom types nothing is said.
pub fn extract_file_metadata(file: &TaggedFile) -> (metadata: Option<AudioMetadata>)
    ensures
        match primary_format(type_of(*file)) {
            Some(format) => metadata matches Some(m) && m@ == metadata_of(
                texts_read_of(tags_in(*file), format),
            ),
            None => metadata is None,
        },
{
    match readable_tag(file) {
        FileTag::Found(tag) => Some(extract_metadata(Some(tag))),
        FileTag::Missing => Some(extract_metadata(None)),
        FileTag::Custom => None,
    }
}

/// What came of a scan: the files whose metadata could be read, by their places in the list of
/// scanned files, and the number of the others.
pub struct ScanOutcome {
    pub files: Vec<(usize, AudioMetadata)>,
    pub failed: usize,
}

/// The files whose metadata could be read, in the order in which they were scanned.
pub open spec fn files_read(results: Seq<Option<AudioMetadata>>) -> Seq<(usize, AudioMetadata)>
    decreases results.len(),
{
    if results.len() == 0 {
        Seq::empty()
    } else {
        let before = files_read(results.drop_last());
        match results.last() {
            Some(metadata) => before.push(((results.len() - 1) as usize, metadata)),
            None => before,
        }
    }
}

/// Sums up a scan from what was read of each file, `None` standing for a file that could not
/// be read.
pub fn scan_for_music(results: Vec<Option<AudioMetadata>>) -> (outcome: ScanOutcome)
    ensures
        outcome.files@ == files_read(results@),
        outcome.failed == results@.len() - files_read(results@).len(),
{
    let mut files: Vec<(usize, AudioMetadata)> = Vec::new();
    let mut failed: usize = 0;
    let mut i: usize = 0;
    let total: usize = results.len();
    let ghost all = results@;
    for result in it: results
        invariant
            it.seq() == all,
            i == it.index(),
            i <= all.len(),
            all.len() == total,
            files@ == files_read(all.take(i as int)),
            failed + files@.len() == i,
    {
        assert(all.take(i + 1).drop_last() =~= all.take(i as int));
        match result {
            Some(metadata) => {
                files.push((i, metadata));
            },
            None => {
                failed += 1;
            },
        }
        i += 1;
    }
    assert(all.take(all.len() as int) =~= all);
    ScanOutcome { files, failed }
}

/// The line that announces a scan.
pub fn scan_announcement(files: usize, threads: usize) -> (line: String)
    ensures
        line@ == "  Processing "@ + decimal_text(files as nat) + " files using "@ + decimal_text(
            threads as nat,
        ) + " threads"@,
{
    let mut line = "  Processing ".to_owned();
    line.append(write_decimal(files as u64).as_str());
    line.append(" files using ");
    line.append(write_decimal(threads as u64).as_str());
    line.append(" threads");
    line
}

/// The line that sums up a scan.
pub open spec fn scan_summary_text(processed: nat, failed: nat, seconds: Seq<char>) -> Seq<char> {
    if failed > 0 {
        "  "@ + decimal_text(processed) + " files processed, "@ + decimal_text(failed)
            + " failed in "@ + seconds + "s"@
    } else {
        "  "@ + decimal_text(processed) + " files processed in "@ + seconds + "s"@
    }
}

/// The line that sums up a scan. `seconds` is the time it took.
pub fn scan_summary(outcome: &ScanOutcome, seconds: &str) -> (line: String)
    ensures
        line@ == scan_summary_text(
            outcome.files@.len(),
            outcome.failed as nat,
            seconds@,
        ),
        outcome.failed == 0 ==> line@ == "  "@ + decimal_text(outcome.files@.len())
            + " files processed in "@ + seconds@ + "s"@,
        outcome.failed > 0 ==> line@ == "  "@ + decimal_text(outcome.files@.len())
            + " files processed, "@ + decimal_text(outcome.failed as nat) + " failed in "@ + seconds@
            + "s"@,
{
    let mut line = "  ".to_owned();
    line.append(write_decimal(outcome.files.len() as u64).as_str());
    if outcome.failed > 0 {
        line.append(" files processed, ");
        line.append(write_decimal(outcome.failed as u64).as_str());
        line.append(" failed in ");
    } else {
        line.append(" files processed in ");
    }
    line.append(seconds);
    line.append("s");
    line
}

/// Each file is either read, under its place, or counted as failed.
pub proof fn lemma_scan_loses_no_file(results: Seq<Option<AudioMetadata>>)
    requires
        results.len() <= usize::MAX,
    ensures
        files_read(results).len() <= results.len(),
        forall|i: int|
            0 <= i < results.len() && (#[trigger] results[i]) is Some ==> files_read(
                results,
            ).contains((i as usize, results[i].unwrap())),
        forall|k: int|
            0 <= k < files_read(results).len() ==> {
                let (place, metadata) = #[trigger] files_read(results)[k];
                place < results.len() && results[place as int] == Some(metadata)
            },
    decreases results.len(),
{
    if results.len() > 0 {
        let before = results.drop_last();
        lemma_scan_loses_no_file(before);
        let read = files_read(results);
        assert forall|i: int| 0 <= i < results.len() && (#[trigger] results[i]) is Some implies read.contains(
            (i as usize, results[i].unwrap()),
        ) by {
            if i < before.len() {
                assert(before[i] is Some);
                let k = choose|k: int|
                    0 <= k < files_read(before).len() && files_read(before)[k] == (
                        i as usize,
                        results[i].unwrap(),
                    );
                assert(read[k] == files_read(before)[k]);
            } else {
                assert(read.last() == (i as usize, results[i].unwrap()));
            }
        }
        assert forall|k: int| 0 <= k < read.len() implies {
            let (place, metadata) = #[trigger] read[k];
            place < results.len() && results[place as int] == Some(metadata)
        } by {
            if k < files_read(before).len() {
                assert(read[k] == files_read(before)[k]);
                let (place, metadata) = files_read(before)[k];
                assert(before[place as int] == Some(metadata));
            }
        }
    }
}

/// What a command works on.
#[derive(Debug, Clone, Copy, PartialEq, Eq)]
pub enum Target {
    /// One file.
    File,
    /// All music files below a directory.
    Directory,
}

/// Decides what a command works on from the path that it is given. A file that is no music file
/// is refused; the message names it as `shown`.
pub fn resolve_target(
    is_file: bool,
    extension: Option<&str>,
    shown: &str,
) -> (target: Result<Target, String>)
    ensures
        match target {
            Ok(Target::File) => is_file && is_music(str_of(extension)),
            Ok(Target::Directory) => !is_file,
            Err(message) => {
                &&& is_file
                &&& !is_music(str_of(extension))
                &&& message@ == shown@ + " is not a supported audio file"@
            },
        },
{
    if is_file {
        if !is_music_file(extension) {
            let mut message = shown.to_owned();
            message.append(" is not a supported audio file");
            return Err(message);
        }
        Ok(Target::File)
    } else {
        Ok(Target::Directory)
    }
}

/// How many files the preview of a scan shows.
pub const PREVIEW_LENGTH: usize = 5;

/// One file in the preview of a scan.
pub struct PreviewEntry {
    pub place: usize,
    pub artist: String,
    pub title: String,
}

/// The preview of a scan: the first files, and the line that counts the others where there are
/// any.
pub struct ScanPreview {
    pub entries: Vec<PreviewEntry>,
    pub more: Option<String>,
}

/// `entry` shows a scanned file.
pub open spec fn previews(entry: PreviewEntry, file: (usize, AudioMetadata)) -> bool {
    &&& entry.place == file.0
    &&& entry.artist@ == text_or(file.1@.artist, "Unknown Artist"@)
    &&& entry.title@ == text_or(file.1@.title, "Unknown Title"@)
}

/// The preview of scanned files.
pub fn scan_preview(files: &Vec<(usize, AudioMetadata)>) -> (preview: ScanPreview)
    ensures
        preview.entries@.len() == (if files@.len() < PREVIEW_LENGTH {
            files@.len() as int
        } else {
            PREVIEW_LENGTH as int
        }),
        forall|i: int|
            0 <= i < preview.entries@.len() ==> previews(
                #[trigger] preview.entries@[i],
                files@[i],
            ),
        preview.entries@.len() <= 5,
        preview.entries@.len() == files@.len() || preview.entries@.len() == 5,
        forall|i: int|
            0 <= i < preview.entries@.len() ==> {
                let entry = #[trigger] preview.entries@[i];
                let metadata = files@[i].1;
                &&& entry.place == files@[i].0
                &&& metadata.artist matches Some(artist) ==> entry.artist@ == artist@
                &&& metadata.artist is None ==> entry.artist@ == "Unknown Artist"@
                &&& metadata.title matches Some(title) ==> entry.title@ == title@
                &&& metadata.title is None ==> entry.title@ == "Unknown Title"@
            },
        files@.len() <= 5 ==> preview.more is None,
        files@.len() > 5 ==> (preview.more matches Some(more) && more@ == "  ... and "@
            + decimal_text((files@.len() - 5) as nat) + " more files"@),
        text_of(preview.more) == (if files@.len() > PREVIEW_LENGTH {
            Some(
                "  ... and "@ + decimal_text((files@.len() - PREVIEW_LENGTH) as nat)
                    + " more files"@,
            )
        } else {
            None
        }),
{
    let mut entries: Vec<PreviewEntry> = Vec::new();
    let mut i: usize = 0;
    while i < files.len() && i < PREVIEW_LENGTH
        invariant
            i <= files@.len(),
            i <= PREVIEW_LENGTH,
            entries@.len() == i,
            forall|j: int| 0 <= j < i ==> previews(#[trigger] entries@[j], files@[j]),
        decreases files@.len() - i,
    {
        let entry = PreviewEntry {
            place: files[i].0,
            artist: text_or_else(&files[i].1.artist, "Unknown Artist"),
            title: text_or_else(&files[i].1.title, "Unknown Title"),
        };
        assert(previews(entry, files@[i as int]));
        entries.push(entry);
        i += 1;
    }
    let more: Option<String> = if files.len() > PREVIEW_LENGTH {
        let mut line = "  ... and ".to_owned();
        line.append(write_decimal((files.len() - PREVIEW_LENGTH) as u64).as_str());
        line.append(" more files");
        Some(line)
    } else {
        None
    };
    ScanPreview { entries, more }
}

/// Music files are told by twelve extensions, in lower case.
pub proof fn lemma_music_has_twelve_extensions(extension: Seq<char>)
    ensures
        names_music(extension) <==> ({
            ||| extension == "mp3"@
            ||| extension == "flac"@
            ||| extension == "m4a"@
            ||| extension == "wav"@
            ||| extension == "ogg"@
            ||| extension == "aac"@
            ||| extension == "opus"@
            ||| extension == "aiff"@
            ||| extension == "aif"@
            ||| extension == "alac"@
            ||| extension == "wma"@
            ||| extension == "ape"@
        }),
        is_music(None) == false,
        is_music(Some(extension)) == names_music(lowercase_of(extension)),
{
    assert(MUSIC_EXTENSIONS@[0]@ == "mp3"@);
    assert(MUSIC_EXTENSIONS@[1]@ == "flac"@);
    assert(MUSIC_EXTENSIONS@[2]@ == "m4a"@);
    assert(MUSIC_EXTENSIONS@[3]@ == "wav"@);
    assert(MUSIC_EXTENSIONS@[4]@ == "ogg"@);
    assert(MUSIC_EXTENSIONS@[5]@ == "aac"@);
    assert(MUSIC_EXTENSIONS@[6]@ == "opus"@);
    assert(MUSIC_EXTENSIONS@[7]@ == "aiff"@);
    assert(MUSIC_EXTENSIONS@[8]@ == "aif"@);
    assert(MUSIC_EXTENSIONS@[9]@ == "alac"@);
    assert(MUSIC_EXTENSIONS@[10]@ == "wma"@);
    assert(MUSIC_EXTENSIONS@[11]@ == "ape"@);
}

/// Artists are kept apart by fourteen texts.
pub proof fn lemma_artists_have_fourteen_delimiters(text: Seq<char>)
    ensures
        (exists|k: int|
            0 <= k < ARTIST_DELIMITERS@.len() && #[trigger] ARTIST_DELIMITERS@[k]@ == text) <==> ({
            ||| text == ", "@
            ||| text == " & "@
            ||| text == " and "@
            ||| text == " feat. "@
            ||| text == " feat "@
            ||| text == " ft. "@
            ||| text == " ft "@
            ||| text == " x "@
            ||| text == " X "@
            ||| text == " vs "@
            ||| text == " vs. "@
            ||| text == " with "@
            ||| text == " + "@
            ||| text == " / "@
        }),
{
    assert(ARTIST_DELIMITERS@[0]@ == ", "@);
    assert(ARTIST_DELIMITERS@[1]@ == " & "@);
    assert(ARTIST_DELIMITERS@[2]@ == " and "@);
    assert(ARTIST_DELIMITERS@[3]@ == " feat. "@);
    assert(ARTIST_DELIMITERS@[4]@ == " feat "@);
    assert(ARTIST_DELIMITERS@[5]@ == " ft. "@);
    assert(ARTIST_DELIMITERS@[6]@ == " ft "@);
    assert(ARTIST_DELIMITERS@[7]@ == " x "@);
    assert(ARTIST_DELIMITERS@[8]@ == " X "@);
    assert(ARTIST_DELIMITERS@[9]@ == " vs "@);
    assert(ARTIST_DELIMITERS@[10]@ == " vs. "@);
    assert(ARTIST_DELIMITERS@[11]@ == " with "@);
    assert(ARTIST_DELIMITERS@[12]@ == " + "@);
    assert(ARTIST_DELIMITERS@[13]@ == " / "@);
}

/// The first artist is what stands before the first delimiter, white space at the ends aside: at
/// the place where it is cut a delimiter stands, unless that is the end, and before it none does.
pub proof fn lemma_first_artist_is_cut_at_a_delimiter(credit: Seq<char>) -> (cut: int)
    ensures
        0 <= cut <= credit.len(),
        first_artist(credit) == trimmed(credit.take(cut)),
        cut < credit.len() ==> exists|k: int|
            0 <= k < ARTIST_DELIMITERS@.len() && (#[trigger] ARTIST_DELIMITERS@[k]@).is_prefix_of(
                credit.skip(cut),
            ),
        forall|at: int, k: int|
            #![trigger credit.skip(at), ARTIST_DELIMITERS@[k]]
            0 <= at < cut && 0 <= k < ARTIST_DELIMITERS@.len()
                ==> !ARTIST_DELIMITERS@[k]@.is_prefix_of(credit.skip(at)),
{
    let cut = first_delimiter(credit, 0);
    lemma_first_delimiter_is_first(credit, 0);
    assert(credit.subrange(0, cut) =~= credit.take(cut));
    assert forall|at: int, k: int|
        #![trigger credit.skip(at), ARTIST_DELIMITERS@[k]]
        0 <= at < credit.len() && 0 <= k < ARTIST_DELIMITERS@.len()
            && ARTIST_DELIMITERS@[k]@.is_prefix_of(credit.skip(at)) implies delimiter_at(
        credit,
        at,
    ) by {
        let delimiter = ARTIST_DELIMITERS@[k]@;
        assert(credit.subrange(at, at + delimiter.len()) =~= delimiter) by {
            assert(credit.skip(at).subrange(0, delimiter.len() as int) =~= delimiter);
            assert forall|i: int| 0 <= i < delimiter.len() implies credit[at + i]
                == delimiter[i] by {
                assert(credit.skip(at).subrange(0, delimiter.len() as int)[i] == delimiter[i]);
            }
        }
        assert(matches_at(credit, ARTIST_DELIMITERS@[k]@, at));
    }
    if cut < credit.len() {
        lemma_cut_is_at_a_delimiter(credit, 0);
        let k = choose|k: int|
            0 <= k < ARTIST_DELIMITERS@.len() && matches_at(
                credit,
                #[trigger] ARTIST_DELIMITERS@[k]@,
                cut,
            );
        let delimiter = ARTIST_DELIMITERS@[k]@;
        assert(credit.skip(cut).subrange(0, delimiter.len() as int) =~= credit.subrange(
            cut,
            cut + delimiter.len(),
        ));
        assert(delimiter.is_prefix_of(credit.skip(cut)));
    }
    cut
}

/// Where the first delimiter is not at the end, a delimiter stands there.
proof fn lemma_cut_is_at_a_delimiter(text: Seq<char>, from: int)
    requires
        0 <= from <= text.len(),
    ensures
        first_delimiter(text, from) < text.len() ==> delimiter_at(
            text,
            first_delimiter(text, from),
        ),
    decreases text.len() - from,
{
    if from < text.len() && !delimiter_at(text, from) {
        lemma_cut_is_at_a_delimiter(text, from + 1);
    }
}

/// A listing holds the places of the files with the extension of a music file, and no other, from
/// the newest to the oldest; those of one time stay in the order in which they were found. A file
/// whose time is not known counts as one of the epoch.
pub proof fn lemma_listing_holds_music_newest_first(entries: Seq<FoundEntry>, listed: Seq<usize>)
    requires
        is_music_listing(entries, listed),
    ensures
        forall|e: usize|
            e < entries.len() ==> (listed.contains(e) <==> (#[trigger] entries[e as int]).is_file
                && (entries[e as int].extension matches Some(x) && names_music(lowercase_of(x@)))),
        forall|i: int| 0 <= i < listed.len() ==> (#[trigger] listed[i]) < entries.len(),
        ({
            let time = |e: usize|
                match entries[e as int].modified {
                    Some(t) => t as int,
                    None => 0int,
                };
            forall|i: int, j: int|
                #![trigger listed[i], listed[j]]
                0 <= i < j < listed.len() ==> time(listed[i]) > time(listed[j]) || (time(listed[i])
                    == time(listed[j]) && listed[i] < listed[j])
        }),
{
    assert forall|i: int, j: int|
        #![trigger listed[i], listed[j]]
        0 <= i < j < listed.len() implies comes_before(
        entry_times(entries),
        listed[i],
        listed[j],
    ) by {}
    assert forall|e: usize| e < entries.len() implies (listed.contains(e) <==> (
    #[trigger] entries[e as int]).is_file && (entries[e as int].extension matches Some(x)
        && names_music(lowercase_of(x@)))) by {
        if listed.contains(e) {
            let i = choose|i: int| 0 <= i < listed.len() && listed[i] == e;
            assert(entries[listed[i] as int].is_wanted());
        }
    }
}

/// What a scan reads is, word for word, what stands under the keys of a tag; only of the album
/// artists the first is taken.
pub proof fn lemma_scan_reads_each_text(texts: Map<ItemKey, Seq<char>>)
    ensures
        ({
            let metadata = metadata_of(Some(texts));
            &&& metadata.title == texts.get(ItemKey::TrackTitle)
            &&& metadata.artist == texts.get(ItemKey::TrackArtist)
            &&& metadata.album == texts.get(ItemKey::AlbumTitle)
            &&& metadata.genre == texts.get(ItemKey::Genre)
            &&& metadata.album_artist is Some <==> texts.contains_key(ItemKey::AlbumArtist)
            &&& texts.contains_key(ItemKey::AlbumArtist) ==> metadata.album_artist == Some(
                first_artist(texts[ItemKey::AlbumArtist]),
            )
            &&& forall|track: nat|
                texts.get(ItemKey::TrackNumber) == Some(#[trigger] decimal_text(track)) && track
                    <= u16::MAX ==> metadata.track == Some(track as u16)
            &&& forall|disc: nat|
                texts.get(ItemKey::DiscNumber) == Some(#[trigger] decimal_text(disc)) && disc
                    <= u16::MAX ==> metadata.disc == Some(disc as u16)
            &&& !texts.contains_key(ItemKey::TrackNumber) ==> metadata.track is None
            &&& !texts.contains_key(ItemKey::DiscNumber) ==> metadata.disc is None
            &&& !texts.contains_key(ItemKey::RecordingDate) && !texts.contains_key(ItemKey::Year)
                ==> metadata.year is None
            &&& forall|year: nat|
                1000 <= year <= 9999 && (texts.get(ItemKey::RecordingDate) == Some(
                    #[trigger] decimal_text(year),
                ) || (!texts.contains_key(ItemKey::RecordingDate) && texts.get(ItemKey::Year)
                    == Some(decimal_text(year)))) ==> metadata.year == Some(year as i32)
        }),
        ({
            let nothing = metadata_of(None);
            &&& nothing.title is None
            &&& nothing.artist is None
            &&& nothing.album is None
            &&& nothing.album_artist is None
            &&& nothing.year is None
            &&& nothing.genre is None
            &&& nothing.track is None
            &&& nothing.disc is None
        }),
{
    let metadata = metadata_of(Some(texts));
    assert forall|track: nat|
        texts.get(ItemKey::TrackNumber) == Some(#[trigger] decimal_text(track)) && track
            <= u16::MAX implies metadata.track == Some(track as u16) by {
        lemma_decimal_round_trip(track, u32::MAX as nat);
    }
    assert forall|disc: nat|
        texts.get(ItemKey::DiscNumber) == Some(#[trigger] decimal_text(disc)) && disc
            <= u16::MAX implies metadata.disc == Some(disc as u16) by {
        lemma_decimal_round_trip(disc, u16::MAX as nat);
    }
    assert forall|year: nat|
        1000 <= year <= 9999 && (texts.get(ItemKey::RecordingDate) == Some(
            #[trigger] decimal_text(year),
        ) || (!texts.contains_key(ItemKey::RecordingDate) && texts.get(ItemKey::Year) == Some(
            decimal_text(year),
        ))) implies metadata.year == Some(year as i32) by {
        lemma_decimal_of_four_digits(year);
    }
}

/// The files that could be read come in the order in which they were scanned.
pub proof fn lemma_scan_keeps_the_order(results: Seq<Option<AudioMetadata>>)
    requires
        results.len() <= usize::MAX,
    ensures
        forall|i: int, j: int|
            #![trigger files_read(results)[i], files_read(results)[j]]
            0 <= i < j < files_read(results).len() ==> files_read(results)[i].0 < files_read(
                results,
            )[j].0,
    decreases results.len(),
{
    if results.len() > 0 {
        let before = results.drop_last();
        lemma_scan_keeps_the_order(before);
        lemma_scan_loses_no_file(before);
        let read = files_read(results);
        assert forall|i: int, j: int|
            #![trigger read[i], read[j]]
            0 <= i < j < read.len() implies read[i].0 < read[j].0 by {
            assert(read[i] == files_read(before)[i]);
            if j < files_read(before).len() {
                assert(read[j] == files_read(before)[j]);
            }
        }
    }
}

/// The contents of metadata are those of its fields.
pub proof fn lemma_metadata_shows_its_fields(metadata: AudioMetadata)
    ensures
        metadata@.title == text_of(metadata.title),
        metadata@.artist == text_of(metadata.artist),
        metadata@.album == text_of(metadata.album),
        metadata@.album_artist == text_of(metadata.album_artist),
        metadata@.year == metadata.year,
        metadata@.genre == text_of(metadata.genre),
        metadata@.track == metadata.track,
        metadata@.disc == metadata.disc,
{
}

} // verus!

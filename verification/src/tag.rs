//! Looking up the tags of a file at MusicBrainz, and writing them.

use crate::lofty_file::{
    has_new_texts, lemma_new_texts_are_read, primary_format, primary_texts, readable_tag, tags_in,
    texts_read_of, type_of, writable_tag, FileTag,
};
use crate::lofty_tag::{
    format_of, has_text, has_text_under, holds_key, insert_optional_text, is_primary_format,
    tag_texts, text_under, texts_in, with_optional_text,
};
use crate::number::{
    decimal_text, decimal_value, lemma_decimal_of_four_digits, lemma_decimal_round_trip,
    parse_decimal, write_decimal,
};
use crate::order::{
    comes_before, descending_order, is_descending_order, lemma_order_is_unique,
    lemma_order_lists_each_once,
};
use crate::scan::{first_artist, metadata_in, modified_or_epoch, time_or_epoch};
use crate::text::{
    before_mark, contains_text, is_blank, lowercase_of, occurs_in, same_text, str_of, text_of,
    text_or, text_or_else, texts_of, to_lowercase, trim, trimmed, until_mark,
};
use lofty::file::TaggedFile;
use lofty::tag::{ItemKey, Tag, TagType};
use vstd::prelude::*;

verus! {

/// The web service that is searched.
pub const MUSICBRAINZ_WS: &'static str = "https://musicbrainz.org/ws/2";

/// What this program calls itself in requests.
pub const USER_AGENT: &'static str = "ufrume/1.0 (https://github.com/0PandaDEV/ufrume)";

/// The least score with which a lone candidate is taken without asking: 0.8.
pub const SURE_SCORE: u64 = 0x3fe9_9999_9999_999a;

/// The largest score there is: infinity.
pub const LARGEST_SCORE: u64 = 0x7ff0_0000_0000_0000;

/// How many candidates are offered at most.
pub const MOST_CANDIDATES: usize = 10;

/// The tags that a file has before it is looked up.
#[derive(Debug)]
pub struct ExistingMeta {
    pub title: Option<String>,
    pub artist: Option<String>,
    pub album: Option<String>,
}

/// The contents of an `ExistingMeta`.
#[verifier::ext_equal]
pub struct ExistingView {
    pub title: Option<Seq<char>>,
    pub artist: Option<Seq<char>>,
    pub album: Option<Seq<char>>,
}

impl View for ExistingMeta {
    type V = ExistingView;

    open spec fn view(&self) -> ExistingView {
        ExistingView {
            title: text_of(self.title),
            artist: text_of(self.artist),
            album: text_of(self.album),
        }
    }
}

/// A track of a medium, as a search finds it.
#[derive(Debug)]
pub struct MbSearchTrack {
    pub number: Option<String>,
}

/// A medium of a release, as a search finds it.
#[derive(Debug)]
pub struct MbSearchMedium {
    pub track: Option<Vec<MbSearchTrack>>,
}

/// A release of a recording, as a search finds it.
#[derive(Debug)]
pub struct MbSearchRelease {
    pub title: Option<String>,
    pub date: Option<String>,
    pub medium: Option<Vec<MbSearchMedium>>,
}

/// One of the artists of a recording, as a search finds them.
#[derive(Debug)]
pub struct MbSearchArtistCredit {
    pub name: Option<String>,
}

/// A recording, as a search finds it. The score is the bit pattern of an IEEE 754 number with
/// 64 bits.
#[derive(Debug)]
pub struct MbSearchRecording {
    pub id: String,
    pub title: Option<String>,
    pub score: u64,
    pub first_release_date: Option<String>,
    pub artist_credit: Option<Vec<MbSearchArtistCredit>>,
    pub releases: Option<Vec<MbSearchRelease>>,
}

/// The answer to a search.
#[derive(Debug)]
pub struct MbSearchResponse {
    pub recordings: Option<Vec<MbSearchRecording>>,
}

/// Tags that a file may get. The score is the bit pattern of an IEEE 754 number with 64 bits.
#[derive(Debug)]
pub struct TagCandidate {
    pub title: Option<String>,
    pub artist: Option<String>,
    pub album: Option<String>,
    pub album_artist: Option<String>,
    pub year: Option<u32>,
    pub track: Option<u16>,
    pub genre: Option<String>,
    pub musicbrainz_recording_id: Option<String>,
    pub score: u64,
    pub source: String,
}

/// The contents of a `TagCandidate`.
#[verifier::ext_equal]
pub struct CandidateView {
    pub title: Option<Seq<char>>,
    pub artist: Option<Seq<char>>,
    pub album: Option<Seq<char>>,
    pub album_artist: Option<Seq<char>>,
    pub year: Option<u32>,
    pub track: Option<u16>,
    pub genre: Option<Seq<char>>,
    pub musicbrainz_recording_id: Option<Seq<char>>,
    pub score: u64,
    pub source: Seq<char>,
}

impl View for TagCandidate {
    type V = CandidateView;

    open spec fn view(&self) -> CandidateView {
        CandidateView {
            title: text_of(self.title),
            artist: text_of(self.artist),
            album: text_of(self.album),
            album_artist: text_of(self.album_artist),
            year: self.year,
            track: self.track,
            genre: text_of(self.genre),
            musicbrainz_recording_id: text_of(self.musicbrainz_recording_id),
            score: self.score,
            source: self.source@,
        }
    }
}

impl Clone for TagCandidate {
    fn clone(&self) -> (copy: Self)
        ensures
            copy == *self,
    {
        TagCandidate {
            title: self.title.clone(),
            artist: self.artist.clone(),
            album: self.album.clone(),
            album_artist: self.album_artist.clone(),
            year: self.year,
            track: self.track,
            genre: self.genre.clone(),
            musicbrainz_recording_id: self.musicbrainz_recording_id.clone(),
            score: self.score,
            source: self.source.clone(),
        }
    }
}

/// What is read of a file holds the id of a recording: it has been looked up before.
pub open spec fn looked_up_in(texts: Option<Map<ItemKey, Seq<char>>>) -> bool {
    match texts {
        Some(texts) => has_text_under(texts, ItemKey::MusicBrainzRecordingId),
        None => false,
    }
}

/// Whether a file has been looked up before: its tag holds the id of a recording.
pub fn has_musicbrainz_tags(tag: Option<&Tag>) -> (has: bool)
    ensures
        has == looked_up_in(texts_in(tag)),
        tag is None ==> has == false,
        tag matches Some(tag) ==> has == has_text_under(
            tag_texts(*tag),
            ItemKey::MusicBrainzRecordingId,
        ),
{
    match tag {
        Some(tag) => has_text(tag, ItemKey::MusicBrainzRecordingId),
        None => false,
    }
}

/// Whether a file has been looked up before. Of files of custom types nothing is said.
pub fn file_has_musicbrainz_tags(file: &TaggedFile) -> (has: Option<bool>)
    ensures
        has == (match primary_format(type_of(*file)) {
            Some(format) => Some(looked_up_in(texts_read_of(tags_in(*file), format))),
            None => None,
        }),
{
    match readable_tag(file) {
        FileTag::Found(tag) => Some(has_musicbrainz_tags(Some(tag))),
        FileTag::Missing => Some(has_musicbrainz_tags(None)),
        FileTag::Custom => None,
    }
}

/// The title, artist and album among the texts of a tag, where there is a title or an artist.
pub open spec fn existing_in(texts: Map<ItemKey, Seq<char>>) -> Option<ExistingView> {
    if texts.contains_key(ItemKey::TrackTitle) || texts.contains_key(ItemKey::TrackArtist) {
        Some(
            ExistingView {
                title: texts.get(ItemKey::TrackTitle),
                artist: texts.get(ItemKey::TrackArtist),
                album: texts.get(ItemKey::AlbumTitle),
            },
        )
    } else {
        None
    }
}

/// The title, artist and album that are read of a file, where there is a title or an artist.
pub open spec fn existing_read(texts: Option<Map<ItemKey, Seq<char>>>) -> Option<ExistingView> {
    match texts {
        Some(texts) => existing_in(texts),
        None => None,
    }
}

/// The contents of tags that may be missing.
pub open spec fn existing_of(existing: Option<ExistingMeta>) -> Option<ExistingView> {
    match existing {
        Some(meta) => Some(meta@),
        None => None,
    }
}

/// Reads the tags that a file has, where they name its title or its artist.
pub fn read_existing_metadata(tag: Option<&Tag>) -> (existing: Option<ExistingMeta>)
    ensures
        existing_of(existing) == existing_read(texts_in(tag)),
        tag is None ==> existing is None,
        tag matches Some(tag) ==> {
            let texts = tag_texts(*tag);
            &&& existing is Some <==> texts.contains_key(ItemKey::TrackTitle)
                || texts.contains_key(ItemKey::TrackArtist)
            &&& existing matches Some(meta) ==> {
                &&& text_of(meta.title) == texts.get(ItemKey::TrackTitle)
                &&& text_of(meta.artist) == texts.get(ItemKey::TrackArtist)
                &&& text_of(meta.album) == texts.get(ItemKey::AlbumTitle)
            }
        },
{
    match tag {
        Some(tag) => {
            let title = text_under(tag, ItemKey::TrackTitle);
            let artist = text_under(tag, ItemKey::TrackArtist);
            let album = text_under(tag, ItemKey::AlbumTitle);
            if title.is_none() && artist.is_none() {
                None
            } else {
                Some(ExistingMeta { title, artist, album })
            }
        },
        None => None,
    }
}

/// Reads the tags that a file has, where they name its title or its artist. Of files of custom
/// types nothing is said.
pub fn read_file_metadata(file: &TaggedFile) -> (existing: Option<Option<ExistingMeta>>)
    ensures
        match primary_format(type_of(*file)) {
            Some(format) => existing matches Some(e) && existing_of(e) == existing_read(
                texts_read_of(tags_in(*file), format),
            ),
            None => existing is None,
        },
{
    match readable_tag(file) {
        FileTag::Found(tag) => Some(read_existing_metadata(Some(tag))),
        FileTag::Missing => Some(read_existing_metadata(None)),
        FileTag::Custom => None,
    }
}

/// A request to the web service: the address, and the parameters of the query.
pub struct SearchRequest {
    pub url: String,
    pub parameters: Vec<(String, String)>,
}

/// The request that searches for recordings. At most as many are asked for as are offered.
pub fn search_request(query: &str) -> (request: SearchRequest)
    ensures
        request.url@ == MUSICBRAINZ_WS@ + "/recording"@,
        request.parameters@.len() == 3,
        request.parameters@[0].0@ == "query"@,
        request.parameters@[0].1@ == query@,
        request.parameters@[1].0@ == "fmt"@,
        request.parameters@[1].1@ == "json"@,
        request.parameters@[2].0@ == "limit"@,
        request.parameters@[2].1@ == "10"@,
{
    let mut url = MUSICBRAINZ_WS.to_owned();
    url.append("/recording");
    let mut parameters: Vec<(String, String)> = Vec::new();
    parameters.push(("query".to_owned(), query.to_owned()));
    parameters.push(("fmt".to_owned(), "json".to_owned()));
    parameters.push(("limit".to_owned(), "10".to_owned()));
    SearchRequest { url, parameters }
}

/// What the web service replies: an answer, or a status other than success.
pub enum SearchReply {
    Answered(MbSearchResponse),
    Refused,
}

/// The recordings that a reply names.
pub open spec fn recordings_in(reply: SearchReply) -> Seq<MbSearchRecording> {
    match reply {
        SearchReply::Answered(response) => match response.recordings {
            Some(recordings) => recordings@,
            None => Seq::empty(),
        },
        SearchReply::Refused => Seq::empty(),
    }
}

/// The recordings that a reply names. A refusal names none.
pub fn search_musicbrainz(reply: SearchReply) -> (found: Vec<MbSearchRecording>)
    ensures
        found@ == recordings_in(reply),
        match reply {
            SearchReply::Answered(response) => match response.recordings {
                Some(recordings) => found@ == recordings@,
                None => found@.len() == 0,
            },
            SearchReply::Refused => found@.len() == 0,
        },
{
    match reply {
        SearchReply::Answered(response) => match response.recordings {
            Some(recordings) => recordings,
            None => Vec::new(),
        },
        SearchReply::Refused => Vec::new(),
    }
}

/// The year of a date such as `1997-05-21`: the number before the first dash.
pub open spec fn date_year(date: Option<Seq<char>>) -> Option<u32> {
    match date {
        Some(d) => match decimal_value(before_mark(d, '-'), u32::MAX as nat) {
            Some(year) => Some(year as u32),
            None => None,
        },
        None => None,
    }
}

impl MbSearchRecording {
    /// The name of the first artist.
    pub open spec fn artist(self) -> Option<Seq<char>> {
        match self.artist_credit {
            Some(credits) => if credits@.len() > 0 {
                text_of(credits@[0].name)
            } else {
                None
            },
            None => None,
        }
    }

    /// The first release.
    pub open spec fn first_release(self) -> Option<MbSearchRelease> {
        match self.releases {
            Some(releases) => if releases@.len() > 0 {
                Some(releases@[0])
            } else {
                None
            },
            None => None,
        }
    }

    /// The title of the first release.
    pub open spec fn album(self) -> Option<Seq<char>> {
        match self.first_release() {
            Some(release) => text_of(release.title),
            None => None,
        }
    }

    /// The year of the first release where releases are listed, else that of the recording's
    /// first release date.
    pub open spec fn year(self) -> Option<u32> {
        if self.releases is Some {
            match self.first_release() {
                Some(release) => date_year(text_of(release.date)),
                None => None,
            }
        } else {
            date_year(text_of(self.first_release_date))
        }
    }

    /// The number of the first track of the first medium of the first release.
    pub open spec fn track(self) -> Option<u16> {
        match self.first_release() {
            Some(release) => release.track(),
            None => None,
        }
    }

    /// The tags that this recording stands for.
    pub open spec fn candidate(self) -> CandidateView {
        CandidateView {
            title: text_of(self.title),
            artist: self.artist(),
            album: self.album(),
            album_artist: None,
            year: self.year(),
            track: self.track(),
            genre: None,
            musicbrainz_recording_id: Some(self.id@),
            score: self.score,
            source: "MusicBrainz"@,
        }
    }
}

impl MbSearchRelease {
    /// The number of the first track of the first medium, where it is a number of 16 bits.
    pub open spec fn track(self) -> Option<u16> {
        match self.medium {
            Some(media) => if media@.len() > 0 {
                media@[0].first_number()
            } else {
                None
            },
            None => None,
        }
    }
}

impl MbSearchMedium {
    /// The number of the first track, where it is a number of 16 bits.
    pub open spec fn first_number(self) -> Option<u16> {
        match self.track {
            Some(tracks) => if tracks@.len() > 0 {
                match text_of(tracks@[0].number) {
                    Some(number) => match decimal_value(number, u16::MAX as nat) {
                        Some(n) => Some(n as u16),
                        None => None,
                    },
                    None => None,
                }
            } else {
                None
            },
            None => None,
        }
    }
}

/// The year of a date such as `1997-05-21`.
fn year_of_date(date: &Option<String>) -> (year: Option<u32>)
    ensures
        year == date_year(text_of(*date)),
{
    match date {
        Some(d) => match parse_decimal(until_mark(d.as_str(), '-').as_str(), 0xffff_ffff) {
            Some(year) => Some(year as u32),
            None => None,
        },
        None => None,
    }
}

/// The number of the first track of the first medium of a release.
fn first_track_number(release: &MbSearchRelease) -> (track: Option<u16>)
    ensures
        track == release.track(),
{
    match &release.medium {
        Some(media) if media.len() > 0 => match &media[0].track {
            Some(tracks) if tracks.len() > 0 => match &tracks[0].number {
                Some(number) => match parse_decimal(number.as_str(), 0xffff) {
                    Some(n) => Some(n as u16),
                    None => None,
                },
                None => None,
            },
            _ => None,
        },
        _ => None,
    }
}

/// The tags that a recording stands for.
pub fn mb_recording_to_candidate(rec: &MbSearchRecording) -> (candidate: TagCandidate)
    ensures
        candidate@ == rec.candidate(),
        text_of(candidate.title) == text_of(rec.title),
        candidate.album_artist is None,
        candidate.genre is None,
        candidate.musicbrainz_recording_id matches Some(id) && id@ == rec.id@,
        candidate.score == rec.score,
        candidate.source@ == "MusicBrainz"@,
        rec.artist_credit is Some && rec.artist_credit.unwrap()@.len() > 0 ==> text_of(
            candidate.artist,
        ) == text_of(rec.artist_credit.unwrap()@[0].name),
        !(rec.artist_credit is Some && rec.artist_credit.unwrap()@.len() > 0)
            ==> candidate.artist is None,
        rec.releases is Some && rec.releases.unwrap()@.len() > 0 ==> text_of(candidate.album)
            == text_of(rec.releases.unwrap()@[0].title),
        !(rec.releases is Some && rec.releases.unwrap()@.len() > 0) ==> candidate.album is None
            && candidate.track is None,
{
    let artist: Option<String> = match &rec.artist_credit {
        Some(credits) if credits.len() > 0 => credits[0].name.clone(),
        _ => None,
    };
    let mut album: Option<String> = None;
    let mut year: Option<u32> = None;
    let mut track: Option<u16> = None;
    match &rec.releases {
        Some(releases) => {
            if releases.len() > 0 {
                album = releases[0].title.clone();
                year = year_of_date(&releases[0].date);
                track = first_track_number(&releases[0]);
            }
        },
        None => {
            year = year_of_date(&rec.first_release_date);
        },
    }
    TagCandidate {
        title: rec.title.clone(),
        artist,
        album,
        album_artist: None,
        year,
        track,
        genre: None,
        musicbrainz_recording_id: Some(rec.id.clone()),
        score: rec.score,
        source: "MusicBrainz".to_owned(),
    }
}

/// The points for a text of a candidate against the text that a file has.
pub open spec fn text_points(candidate: Seq<char>, existing: Seq<char>) -> nat {
    if candidate == existing {
        100
    } else if occurs_in(candidate, existing) || occurs_in(existing, candidate) {
        50
    } else {
        0
    }
}

/// The points for a text of a candidate against the text that a file has, where both are there.
pub open spec fn optional_text_points(
    candidate: Option<Seq<char>>,
    existing: Option<Seq<char>>,
) -> nat {
    match (candidate, existing) {
        (Some(c), Some(e)) => text_points(c, e),
        _ => 0,
    }
}

/// The points of a candidate, all texts in lower case: those for its artist and for its title,
/// and 10 where its album names the artist that the file has.
pub open spec fn match_points(
    artist: Option<Seq<char>>,
    title: Option<Seq<char>>,
    album: Option<Seq<char>>,
    existing_artist: Option<Seq<char>>,
    existing_title: Option<Seq<char>>,
) -> nat {
    optional_text_points(artist, existing_artist) + optional_text_points(title, existing_title) + (
    match (album, existing_artist) {
        (Some(a), Some(e)) => if occurs_in(a, e) {
            10
        } else {
            0
        },
        _ => 0nat,
    })
}

/// The lower case of a text that may be missing.
pub open spec fn lowercase_of_optional(text: Option<Seq<char>>) -> Option<Seq<char>> {
    match text {
        Some(t) => Some(lowercase_of(t)),
        None => None,
    }
}

impl CandidateView {
    /// The points of the candidate against the artist and the title that a file has. Letter
    /// case does not count.
    pub open spec fn points(
        self,
        existing_artist: Option<Seq<char>>,
        existing_title: Option<Seq<char>>,
    ) -> nat {
        match_points(
            lowercase_of_optional(self.artist),
            lowercase_of_optional(self.title),
            lowercase_of_optional(self.album),
            lowercase_of_optional(existing_artist),
            lowercase_of_optional(existing_title),
        )
    }
}

/// The points for a text of a candidate against the text that a file has, where both are there.
fn text_match_score(candidate: Option<&str>, existing: Option<&str>) -> (score: u32)
    ensures
        score == optional_text_points(str_of(candidate), str_of(existing)),
        score <= 100,
{
    match (candidate, existing) {
        (Some(c), Some(e)) => {
            if same_text(c, e) {
                100
            } else if contains_text(c, e) || contains_text(e, c) {
                50
            } else {
                0
            }
        },
        _ => 0,
    }
}

/// The points of a candidate whose texts, and those of the file, are in lower case already.
pub fn lowercase_match_score(
    artist: Option<&str>,
    title: Option<&str>,
    album: Option<&str>,
    existing_artist: Option<&str>,
    existing_title: Option<&str>,
) -> (score: u32)
    ensures
        score == match_points(
            str_of(artist),
            str_of(title),
            str_of(album),
            str_of(existing_artist),
            str_of(existing_title),
        ),
        score <= 210,
        artist is None && title is None && album is None ==> score == 0,
        existing_artist is None && existing_title is None ==> score == 0,
{
    let artist_score: u32 = text_match_score(artist, existing_artist);
    let title_score: u32 = text_match_score(title, existing_title);
    let album_score: u32 = match (album, existing_artist) {
        (Some(a), Some(e)) => if contains_text(a, e) {
            10
        } else {
            0
        },
        _ => 0,
    };
    artist_score + title_score + album_score
}

/// A borrowed view of a text that may be missing.
fn as_optional_str(text: &Option<String>) -> (borrowed: Option<&str>)
    ensures
        str_of(borrowed) == text_of(*text),
{
    match text {
        Some(t) => Some(t.as_str()),
        None => None,
    }
}

/// The lower case of a text that may be missing.
fn optional_lowercase(text: Option<&str>) -> (lower: Option<String>)
    ensures
        text_of(lower) == lowercase_of_optional(str_of(text)),
{
    match text {
        Some(t) => Some(to_lowercase(t)),
        None => None,
    }
}

/// The points of a candidate against the artist and the title that a file has. Letter case does
/// not count.
pub fn candidate_match_score(
    candidate: &TagCandidate,
    existing_artist: Option<&str>,
    existing_title: Option<&str>,
) -> (score: u32)
    ensures
        score == candidate@.points(str_of(existing_artist), str_of(existing_title)),
        score <= 210,
{
    let artist = optional_lowercase(as_optional_str(&candidate.artist));
    let title = optional_lowercase(as_optional_str(&candidate.title));
    let album = optional_lowercase(as_optional_str(&candidate.album));
    let file_artist = optional_lowercase(existing_artist);
    let file_title = optional_lowercase(existing_title);
    lowercase_match_score(
        as_optional_str(&artist),
        as_optional_str(&title),
        as_optional_str(&album),
        as_optional_str(&file_artist),
        as_optional_str(&file_title),
    )
}

/// Two texts are the same but for letter case.
pub open spec fn same_letters(a: Option<Seq<char>>, b: Option<Seq<char>>) -> bool {
    lowercase_of_optional(a) == lowercase_of_optional(b)
}

/// Letter case does not count: candidates and files whose texts are the same but for letter case
/// get the same points.
pub proof fn lemma_points_ignore_letter_case(
    a: CandidateView,
    b: CandidateView,
    artist_a: Option<Seq<char>>,
    title_a: Option<Seq<char>>,
    artist_b: Option<Seq<char>>,
    title_b: Option<Seq<char>>,
)
    ensures
        same_letters(a.artist, b.artist) && same_letters(a.title, b.title) && same_letters(
            a.album,
            b.album,
        ) && same_letters(artist_a, artist_b) && same_letters(title_a, title_b) ==> a.points(
            artist_a,
            title_a,
        ) == b.points(artist_b, title_b),
{
}

impl CandidateView {
    /// The candidate with its artist, title and album in lower case.
    pub open spec fn in_lowercase(self) -> CandidateView {
        CandidateView {
            artist: lowercase_of_optional(self.artist),
            title: lowercase_of_optional(self.title),
            album: lowercase_of_optional(self.album),
            ..self
        }
    }
}

/// Texts may as well be in lower case already, on the side of the file or on that of the
/// candidate: the points are the same wherever the lower case of a text is its own lower case.
pub proof fn lemma_points_of_lowercase_texts(
    candidate: CandidateView,
    artist: Option<Seq<char>>,
    title: Option<Seq<char>>,
)
    ensures
        same_letters(artist, lowercase_of_optional(artist)) && same_letters(
            title,
            lowercase_of_optional(title),
        ) ==> candidate.points(lowercase_of_optional(artist), lowercase_of_optional(title))
            == candidate.points(artist, title),
        same_letters(candidate.artist, lowercase_of_optional(candidate.artist)) && same_letters(
            candidate.title,
            lowercase_of_optional(candidate.title),
        ) && same_letters(candidate.album, lowercase_of_optional(candidate.album))
            ==> candidate.in_lowercase().points(artist, title) == candidate.points(artist, title),
{
}

/// A term of a query that asks for `text` in `field`.
pub open spec fn query_term(field: Seq<char>, text: Seq<char>) -> Seq<char> {
    field + ":\""@ + text + "\""@
}

/// The query for recordings with a title and, where they are given, an artist and a release.
pub open spec fn query_text(
    title: Seq<char>,
    artist: Option<Seq<char>>,
    album: Option<Seq<char>>,
) -> Seq<char> {
    query_term("recording"@, title) + (match artist {
        Some(a) => " AND "@ + query_term("artist"@, a),
        None => Seq::empty(),
    }) + (match album {
        Some(a) => " AND "@ + query_term("release"@, a),
        None => Seq::empty(),
    })
}

/// The queries for a file, from the narrowest to the widest: by all that its tags say, by title
/// and artist where they name the artist, and by title. Without a title there are none.
pub open spec fn search_queries(existing: Option<ExistingView>) -> Seq<Seq<char>> {
    match existing {
        Some(meta) => match meta.title {
            Some(title) => seq![query_text(title, meta.artist, meta.album)] + (
            if meta.artist is Some {
                seq![query_text(title, meta.artist, None)]
            } else {
                Seq::empty()
            }) + seq![query_text(title, None, None)],
            None => Seq::empty(),
        },
        None => Seq::empty(),
    }
}

/// Appends a term that asks for `text` in `field`.
fn append_term(query: &mut String, field: &str, text: &str)
    ensures
        final(query)@ == old(query)@ + query_term(field@, text@),
{
    query.append(field);
    query.append(":\"");
    query.append(text);
    query.append("\"");
    assert(query@ =~= old(query)@ + query_term(field@, text@));
}

/// The query for recordings with a title and, where they are given, an artist and a release.
pub fn search_query(title: &str, artist: Option<&str>, album: Option<&str>) -> (query: String)
    ensures
        query@ == query_text(title@, str_of(artist), str_of(album)),
        match (artist, album) {
            (Some(a), Some(r)) => query@ == "recording:\""@ + title@ + "\" AND artist:\""@ + a@
                + "\" AND release:\""@ + r@ + "\""@,
            (Some(a), None) => query@ == "recording:\""@ + title@ + "\" AND artist:\""@ + a@
                + "\""@,
            (None, Some(r)) => query@ == "recording:\""@ + title@ + "\" AND release:\""@ + r@
                + "\""@,
            (None, None) => query@ == "recording:\""@ + title@ + "\""@,
        },
{
    proof {
        lemma_query_names_what_is_known(title@, str_of(artist), str_of(album));
    }
    let mut query = String::new();
    append_term(&mut query, "recording", title);
    assert(query@ =~= query_term("recording"@, title@));
    if let Some(a) = artist {
        query.append(" AND ");
        append_term(&mut query, "artist", a);
    }
    let ghost so_far = query_term("recording"@, title@) + (match str_of(artist) {
        Some(a) => " AND "@ + query_term("artist"@, a),
        None => Seq::empty(),
    });
    assert(query@ =~= so_far);
    if let Some(a) = album {
        query.append(" AND ");
        append_term(&mut query, "release", a);
    }
    assert(query@ =~= query_text(title@, str_of(artist), str_of(album)));
    query
}

/// The queries for a file, from the narrowest to the widest.
fn plan_queries(existing: &Option<ExistingMeta>) -> (queries: Vec<String>)
    ensures
        texts_of(queries@) == search_queries(existing_of(*existing)),
{
    let mut queries: Vec<String> = Vec::new();
    if let Some(meta) = existing {
        if let Some(title) = &meta.title {
            let artist = as_optional_str(&meta.artist);
            let album = as_optional_str(&meta.album);
            queries.push(search_query(title.as_str(), artist, album));
            if artist.is_some() {
                queries.push(search_query(title.as_str(), artist, None));
            }
            queries.push(search_query(title.as_str(), None, None));
        }
    }
    assert(texts_of(queries@) =~= search_queries(existing_of(*existing)));
    queries
}

/// A file is never searched for more than three times, and never without a title.
pub proof fn lemma_search_queries_are_few(existing: Option<ExistingView>)
    ensures
        search_queries(existing).len() <= 3,
        search_queries(existing).len() > 0 <==> existing is Some && existing.unwrap().title is Some,
{
}

/// The contents of a list of candidates.
pub open spec fn candidates_of(candidates: Seq<TagCandidate>) -> Seq<CandidateView> {
    candidates.map_values(|c: TagCandidate| c@)
}

/// The artist and the title that a file has, in lower case.
pub open spec fn existing_lowercase(existing: Option<ExistingView>) -> (
    Option<Seq<char>>,
    Option<Seq<char>>,
) {
    match existing {
        Some(meta) => (lowercase_of_optional(meta.artist), lowercase_of_optional(meta.title)),
        None => (None, None),
    }
}

/// The points of all candidates for a file.
pub open spec fn candidate_keys(
    candidates: Seq<CandidateView>,
    existing: Option<ExistingView>,
) -> Seq<i128> {
    let (artist, title) = existing_lowercase(existing);
    candidates.map_values(|c: CandidateView| c.points(artist, title) as i128)
}

/// `ranked` holds the best of the candidates for a file, the best first, as many as are offered.
/// Candidates with the same points stay in their order.
pub open spec fn is_ranking(
    candidates: Seq<CandidateView>,
    existing: Option<ExistingView>,
    ranked: Seq<CandidateView>,
) -> bool {
    exists|order: Seq<usize>|
        {
            &&& #[trigger] is_descending_order(candidate_keys(candidates, existing), order)
            &&& ranked == order.take(
                if order.len() < MOST_CANDIDATES {
                    order.len() as int
                } else {
                    MOST_CANDIDATES as int
                },
            ).map_values(|place: usize| candidates[place as int])
        }
}

/// Ranks the candidates for a file by their points and keeps the best.
pub fn rank_candidates(
    candidates: &Vec<TagCandidate>,
    existing: &Option<ExistingMeta>,
) -> (ranked: Vec<TagCandidate>)
    ensures
        is_ranking(candidates_of(candidates@), existing_of(*existing), candidates_of(ranked@)),
        forall|i: int| 0 <= i < ranked@.len() ==> candidates@.contains(#[trigger] ranked@[i]),
        ranked@.len() <= 10,
        ranked@.len() == candidates@.len() || ranked@.len() == 10,
{
    let mut artist: Option<String> = None;
    let mut title: Option<String> = None;
    if let Some(meta) = existing {
        artist = optional_lowercase(as_optional_str(&meta.artist));
        title = optional_lowercase(as_optional_str(&meta.title));
    }
    let ghost keys_wanted = candidate_keys(candidates_of(candidates@), existing_of(*existing));
    let mut keys: Vec<i128> = Vec::new();
    let mut i: usize = 0;
    while i < candidates.len()
        invariant
            i <= candidates@.len(),
            keys@.len() == i,
            (text_of(artist), text_of(title)) == existing_lowercase(existing_of(*existing)),
            keys_wanted == candidate_keys(candidates_of(candidates@), existing_of(*existing)),
            forall|j: int| 0 <= j < i ==> keys@[j] == keys_wanted[j],
        decreases candidates@.len() - i,
    {
        let score: u32 = candidate_match_score(
            &candidates[i],
            as_optional_str(&artist),
            as_optional_str(&title),
        );
        keys.push(score as i128);
        i += 1;
    }
    assert(keys@ =~= keys_wanted);
    let order = descending_order(&keys);
    let count: usize = if order.len() < MOST_CANDIDATES {
        order.len()
    } else {
        MOST_CANDIDATES
    };
    let mut ranked: Vec<TagCandidate> = Vec::new();
    let mut k: usize = 0;
    while k < count
        invariant
            k <= count <= order@.len(),
            is_descending_order(keys@, order@),
            keys@.len() == candidates@.len(),
            ranked@.len() == k,
            forall|j: int| 0 <= j < k ==> #[trigger] ranked@[j] == candidates@[order@[j] as int],
        decreases count - k,
    {
        ranked.push(candidates[order[k]].clone());
        k += 1;
    }
    assert(candidates_of(ranked@) =~= order@.take(count as int).map_values(
        |place: usize| candidates_of(candidates@)[place as int],
    ));
    assert(is_descending_order(keys_wanted, order@));
    ranked
}

/// How the lookup of a file ends.
#[derive(Debug, Clone, Copy, PartialEq, Eq)]
pub enum LookupEnd {
    /// The file had been looked up before.
    AlreadyTagged,
    /// A search could not be made.
    SearchFailed,
    /// No search found anything.
    NothingFound,
    /// None of the candidates was chosen.
    NothingChosen,
    /// The chosen candidate was written.
    Written,
    /// The chosen candidate could not be written.
    WriteFailed,
}

/// What came of one file.
#[derive(Debug, Clone, Copy, PartialEq, Eq)]
pub enum FileOutcome {
    /// The file had been looked up before.
    AlreadyTagged,
    /// The file was tagged.
    Tagged,
    /// Nothing was found, or nothing was chosen.
    LeftAlone,
    /// The file could not be looked up, or not be written.
    Failed,
}

/// What came of a file whose lookup ended so.
pub open spec fn outcome_of(end: LookupEnd) -> FileOutcome {
    match end {
        LookupEnd::AlreadyTagged => FileOutcome::AlreadyTagged,
        LookupEnd::SearchFailed | LookupEnd::WriteFailed => FileOutcome::Failed,
        LookupEnd::NothingFound | LookupEnd::NothingChosen => FileOutcome::LeftAlone,
        LookupEnd::Written => FileOutcome::Tagged,
    }
}

/// Tells what came of a file from how its lookup ended.
pub fn process_outcome(end: &LookupEnd) -> (outcome: FileOutcome)
    ensures
        outcome == outcome_of(*end),
        outcome == FileOutcome::Tagged <==> *end == LookupEnd::Written,
        outcome == FileOutcome::AlreadyTagged <==> *end == LookupEnd::AlreadyTagged,
        outcome == FileOutcome::Failed <==> *end == LookupEnd::SearchFailed || *end
            == LookupEnd::WriteFailed,
{
    match end {
        LookupEnd::AlreadyTagged => FileOutcome::AlreadyTagged,
        LookupEnd::SearchFailed | LookupEnd::WriteFailed => FileOutcome::Failed,
        LookupEnd::NothingFound | LookupEnd::NothingChosen => FileOutcome::LeftAlone,
        LookupEnd::Written => FileOutcome::Tagged,
    }
}

/// What happens during the lookup of a file.
pub enum LookupEvent {
    /// Whether the file has been looked up before is known.
    Checked(bool),
    /// A search has found these recordings.
    Found(Vec<MbSearchRecording>),
    /// A search could not be made.
    SearchFailed,
    /// The candidate at this place, counted from 0, was chosen among those that are offered.
    Chosen(usize),
    /// None of the candidates was chosen.
    NothingChosen,
    /// The candidate was written, or could not be.
    WriteTried(bool),
}

/// What a lookup does next.
pub enum LookupStep {
    /// Search with this query.
    Search(String),
    /// Let one of these candidates be chosen.
    Choose(Vec<TagCandidate>),
    /// Write this candidate to the file.
    Write(TagCandidate),
    /// Nothing more.
    End(LookupEnd),
}

/// The candidates that recordings stand for.
pub open spec fn found_candidates(found: Seq<MbSearchRecording>) -> Seq<CandidateView> {
    found.map_values(|rec: MbSearchRecording| rec.candidate())
}

/// Where the lookup of a file stands: the tags that the file has, how many of the queries for it
/// have been sent, and the candidates that are offered.
#[verifier::ext_equal]
pub struct LookupView {
    pub existing: Option<ExistingView>,
    pub sent: nat,
    pub offered: Seq<CandidateView>,
}

impl LookupView {
    /// A lookup at its beginning.
    pub open spec fn begun(existing: Option<ExistingView>) -> LookupView {
        LookupView { existing, sent: 0, offered: Seq::empty() }
    }

    /// No more queries have been sent than there are for the file.
    pub open spec fn is_valid(self) -> bool {
        self.sent <= search_queries(self.existing).len()
    }

    /// After this event there is something to search for: nothing has been found so far.
    pub open spec fn is_searching(self, event: LookupEvent) -> bool {
        match event {
            LookupEvent::Checked(looked_up) => !looked_up,
            LookupEvent::Found(found) => found@.len() == 0,
            _ => false,
        }
    }

    /// Where the lookup stands after an event and the step that follows it: while it searches, one
    /// more query is sent, where there is one, and the candidates that are to be chosen from are
    /// offered.
    pub open spec fn after(self, event: LookupEvent, step: LookupStep) -> LookupView {
        LookupView {
            existing: self.existing,
            sent: if self.is_searching(event) && self.sent < search_queries(self.existing).len() {
                self.sent + 1
            } else {
                self.sent
            },
            offered: match step {
                LookupStep::Choose(candidates) => candidates_of(candidates@),
                _ => self.offered,
            },
        }
    }

    /// What is done after an event. A file that has been looked up before is left alone. Queries
    /// are sent in their order until one finds something; then the best candidates are offered,
    /// and the one that is chosen is written. A search that cannot be made ends the lookup.
    pub open spec fn goes_on_with(self, event: LookupEvent, step: LookupStep) -> bool {
        match event {
            LookupEvent::Checked(true) => step == LookupStep::End(LookupEnd::AlreadyTagged),
            LookupEvent::Checked(false) => self.searches_with(step),
            LookupEvent::Found(found) => if found@.len() == 0 {
                self.searches_with(step)
            } else {
                step matches LookupStep::Choose(candidates) && is_ranking(
                    found_candidates(found@),
                    self.existing,
                    candidates_of(candidates@),
                )
            },
            LookupEvent::SearchFailed => step == LookupStep::End(LookupEnd::SearchFailed),
            LookupEvent::Chosen(place) => if place < self.offered.len() {
                step matches LookupStep::Write(candidate) && candidate@
                    == self.offered[place as int]
            } else {
                step == LookupStep::End(LookupEnd::NothingChosen)
            },
            LookupEvent::NothingChosen => step == LookupStep::End(LookupEnd::NothingChosen),
            LookupEvent::WriteTried(true) => step == LookupStep::End(LookupEnd::Written),
            LookupEvent::WriteTried(false) => step == LookupStep::End(LookupEnd::WriteFailed),
        }
    }

    /// The step is the search with the next query or, where there is none, the end.
    pub open spec fn searches_with(self, step: LookupStep) -> bool {
        if self.sent < search_queries(self.existing).len() {
            step matches LookupStep::Search(query) && query@ == search_queries(
                self.existing,
            )[self.sent as int]
        } else {
            step == LookupStep::End(LookupEnd::NothingFound)
        }
    }
}

/// The lookup of one file.
pub struct Lookup {
    existing: Option<ExistingMeta>,
    queries: Vec<String>,
    sent: usize,
    offered: Vec<TagCandidate>,
}

impl View for Lookup {
    type V = LookupView;

    closed spec fn view(&self) -> LookupView {
        LookupView {
            existing: existing_of(self.existing),
            sent: self.sent as nat,
            offered: candidates_of(self.offered@),
        }
    }
}

impl Lookup {
    /// The queries are those for the file, and no more have been sent than there are.
    #[verifier::type_invariant]
    closed spec fn is_sound(self) -> bool {
        &&& texts_of(self.queries@) == search_queries(existing_of(self.existing))
        &&& self.sent <= self.queries@.len()
    }

    /// Begins the lookup of a file, given the tags that it has.
    pub fn begin(existing: Option<ExistingMeta>) -> (lookup: Lookup)
        ensures
            lookup@ == LookupView::begun(existing_of(existing)),
            lookup@.is_valid(),
    {
        let queries = plan_queries(&existing);
        let offered: Vec<TagCandidate> = Vec::new();
        assert(candidates_of(offered@) =~= Seq::<CandidateView>::empty());
        Lookup { existing, queries, sent: 0, offered }
    }

    /// The tags that the file has.
    pub fn existing(&self) -> (existing: &Option<ExistingMeta>)
        ensures
            existing_of(*existing) == self@.existing,
    {
        &self.existing
    }

    /// The search with the next query, where there is one.
    fn next_search(&mut self) -> (step: LookupStep)
        ensures
            old(self)@.searches_with(step),
            step is Search || step is End,
            final(self)@.existing == old(self)@.existing,
            final(self)@.sent == old(self)@.sent + (if step is Search {
                1int
            } else {
                0int
            }),
            final(self)@.offered == old(self)@.offered,
            final(self)@.is_valid(),
    {
        proof {
            use_type_invariant(&*self);
        }
        assert(texts_of(self.queries@).len() == self.queries@.len());
        if self.sent < self.queries.len() {
            let query = self.queries[self.sent].clone();
            assert(texts_of(self.queries@)[self.sent as int] == query@);
            self.sent = self.sent + 1;
            LookupStep::Search(query)
        } else {
            LookupStep::End(LookupEnd::NothingFound)
        }
    }

    /// Goes on with the lookup.
    pub fn next(&mut self, event: LookupEvent) -> (step: LookupStep)
        ensures
            old(self)@.goes_on_with(event, step),
            final(self)@ == old(self)@.after(event, step),
            final(self)@.is_valid(),
    {
        proof {
            use_type_invariant(&*self);
            assert(texts_of(self.queries@).len() == self.queries@.len());
        }
        match event {
            LookupEvent::Checked(looked_up) => if looked_up {
                LookupStep::End(LookupEnd::AlreadyTagged)
            } else {
                self.next_search()
            },
            LookupEvent::Found(found) => {
                if found.len() == 0 {
                    return self.next_search();
                }
                let mut candidates: Vec<TagCandidate> = Vec::new();
                let mut i: usize = 0;
                while i < found.len()
                    invariant
                        i <= found@.len(),
                        candidates@.len() == i,
                        forall|j: int|
                            0 <= j < i ==> (#[trigger] candidates@[j])@ == found@[j].candidate(),
                    decreases found@.len() - i,
                {
                    candidates.push(mb_recording_to_candidate(&found[i]));
                    i += 1;
                }
                assert(candidates_of(candidates@) =~= found_candidates(found@));
                let ranked = rank_candidates(&candidates, &self.existing);
                let offered = ranked.clone();
                assert(candidates_of(offered@) =~= candidates_of(ranked@));
                self.offered = offered;
                LookupStep::Choose(ranked)
            },
            LookupEvent::SearchFailed => LookupStep::End(LookupEnd::SearchFailed),
            LookupEvent::Chosen(place) => if place < self.offered.len() {
                LookupStep::Write(self.offered[place].clone())
            } else {
                LookupStep::End(LookupEnd::NothingChosen)
            },
            LookupEvent::NothingChosen => LookupStep::End(LookupEnd::NothingChosen),
            LookupEvent::WriteTried(worked) => LookupStep::End(
                if worked {
                    LookupEnd::Written
                } else {
                    LookupEnd::WriteFailed
                },
            ),
        }
    }
}

/// After a search that could not be made, nothing is searched for, offered or written any more,
/// and the file counts as failed.
pub proof fn lemma_failed_search_ends_lookup(lookup: LookupView, step: LookupStep)
    requires
        lookup.goes_on_with(LookupEvent::SearchFailed, step),
    ensures
        step matches LookupStep::End(end) && outcome_of(end) == FileOutcome::Failed,
        lookup.after(LookupEvent::SearchFailed, step) == lookup,
{
}

/// A file counts as tagged only where its chosen candidate was written.
pub proof fn lemma_only_written_files_are_tagged(
    lookup: LookupView,
    event: LookupEvent,
    step: LookupStep,
)
    requires
        lookup.goes_on_with(event, step),
        step matches LookupStep::End(end) && outcome_of(end) == FileOutcome::Tagged,
    ensures
        event == LookupEvent::WriteTried(true),
{
}

/// A file that has been looked up before is neither searched for nor changed.
pub proof fn lemma_known_file_is_skipped(lookup: LookupView, step: LookupStep)
    requires
        lookup.goes_on_with(LookupEvent::Checked(true), step),
    ensures
        step == LookupStep::End(LookupEnd::AlreadyTagged),
        lookup.after(LookupEvent::Checked(true), step) == lookup,
{
}

/// Where a lookup stands after some events and the steps that followed them.
pub open spec fn lookup_after(
    lookup: LookupView,
    events: Seq<LookupEvent>,
    steps: Seq<LookupStep>,
) -> LookupView
    decreases events.len(),
{
    if events.len() == 0 {
        lookup
    } else {
        lookup_after(lookup, events.drop_last(), steps.drop_last()).after(
            events.last(),
            steps.last(),
        )
    }
}

/// The steps are those with which a lookup goes on after the events.
pub open spec fn is_lookup_history(
    lookup: LookupView,
    events: Seq<LookupEvent>,
    steps: Seq<LookupStep>,
) -> bool {
    &&& events.len() == steps.len()
    &&& forall|i: int|
        0 <= i < events.len() ==> lookup_after(lookup, events.take(i), steps.take(i)).goes_on_with(
            #[trigger] events[i],
            steps[i],
        )
}

/// The step offers these candidates, which are the best of those that a search found.
pub open spec fn offers(
    existing: Option<ExistingView>,
    event: LookupEvent,
    step: LookupStep,
    offered: Seq<CandidateView>,
) -> bool {
    match (event, step) {
        (LookupEvent::Found(found), LookupStep::Choose(candidates)) => {
            &&& found@.len() > 0
            &&& candidates_of(candidates@) == offered
            &&& is_ranking(found_candidates(found@), existing, offered)
        },
        _ => false,
    }
}

/// A step either offers the candidates that are on offer after it, or leaves them as they are.
proof fn lemma_step_offers(lookup: LookupView, event: LookupEvent, step: LookupStep)
    requires
        lookup.goes_on_with(event, step),
    ensures
        lookup.after(event, step).existing == lookup.existing,
        step is Choose ==> offers(
            lookup.existing,
            event,
            step,
            lookup.after(event, step).offered,
        ),
        !(step is Choose) ==> lookup.after(event, step).offered == lookup.offered,
{
}

/// One of the first `n` steps offers these candidates.
pub open spec fn was_offered(
    existing: Option<ExistingView>,
    events: Seq<LookupEvent>,
    steps: Seq<LookupStep>,
    n: int,
    offered: Seq<CandidateView>,
) -> bool {
    exists|k: int| 0 <= k < n && #[trigger] offers(existing, events[k], steps[k], offered)
}

/// What a lookup has on offer after some events was offered by one of its steps.
#[verifier::spinoff_prover]
proof fn lemma_offer_has_a_source(
    existing: Option<ExistingView>,
    events: Seq<LookupEvent>,
    steps: Seq<LookupStep>,
    n: int,
)
    requires
        is_lookup_history(LookupView::begun(existing), events, steps),
        0 <= n <= events.len(),
    ensures
        ({
            let lookup = lookup_after(
                LookupView::begun(existing),
                events.take(n),
                steps.take(n),
            );
            &&& lookup.existing == existing
            &&& lookup.offered.len() == 0 || was_offered(
                existing,
                events,
                steps,
                n,
                lookup.offered,
            )
        }),
    decreases n,
{
    if n > 0 {
        lemma_offer_has_a_source(existing, events, steps, n - 1);
        let begun = LookupView::begun(existing);
        let before = lookup_after(begun, events.take(n - 1), steps.take(n - 1));
        assert(events.take(n).drop_last() =~= events.take(n - 1));
        assert(steps.take(n).drop_last() =~= steps.take(n - 1));
        let after = before.after(events[n - 1], steps[n - 1]);
        assert(lookup_after(begun, events.take(n), steps.take(n)) == after);
        lemma_step_offers(before, events[n - 1], steps[n - 1]);
        if steps[n - 1] is Choose {
            assert(offers(existing, events[n - 1], steps[n - 1], after.offered));
        } else if before.offered.len() > 0 {
            let k = choose|k: int|
                0 <= k < n - 1 && #[trigger] offers(existing, events[k], steps[k], before.offered);
            assert(offers(existing, events[k], steps[k], after.offered));
        }
    }
}

/// What a step writes is on offer.
proof fn lemma_write_takes_an_offer(lookup: LookupView, event: LookupEvent, step: LookupStep)
    requires
        lookup.goes_on_with(event, step),
        step is Write,
    ensures
        lookup.offered.contains(step->Write_0@),
{
    if let LookupEvent::Chosen(place) = event {
        assert(lookup.offered[place as int] == step->Write_0@);
    }
}

/// What is written to a file was on offer before: it is one of the best candidates of a search
/// that found something.
#[verifier::spinoff_prover]
pub proof fn lemma_written_candidate_was_offered(
    existing: Option<ExistingView>,
    events: Seq<LookupEvent>,
    steps: Seq<LookupStep>,
)
    requires
        is_lookup_history(LookupView::begun(existing), events, steps),
        events.len() > 0,
        steps.last() is Write,
    ensures
        exists|offered: Seq<CandidateView>|
            {
                &&& #[trigger] was_offered(existing, events, steps, events.len() - 1, offered)
                &&& offered.contains(steps.last()->Write_0@)
            },
{
    let n = events.len() - 1;
    lemma_offer_has_a_source(existing, events, steps, n);
    let before = lookup_after(LookupView::begun(existing), events.take(n), steps.take(n));
    assert(before.goes_on_with(events[n], steps[n]));
    lemma_write_takes_an_offer(before, events[n], steps[n]);
    assert(was_offered(existing, events, steps, n, before.offered));
}

/// There is only one ranking of the candidates for a file.
pub proof fn lemma_ranking_is_unique(
    candidates: Seq<CandidateView>,
    existing: Option<ExistingView>,
    a: Seq<CandidateView>,
    b: Seq<CandidateView>,
)
    requires
        is_ranking(candidates, existing, a),
        is_ranking(candidates, existing, b),
    ensures
        a == b,
{
    let keys = candidate_keys(candidates, existing);
    let count = if candidates.len() < MOST_CANDIDATES {
        candidates.len() as int
    } else {
        MOST_CANDIDATES as int
    };
    let first = choose|order: Seq<usize>|
        #[trigger] is_descending_order(keys, order) && a == order.take(count).map_values(
            |place: usize| candidates[place as int],
        );
    let second = choose|order: Seq<usize>|
        #[trigger] is_descending_order(keys, order) && b == order.take(count).map_values(
            |place: usize| candidates[place as int],
        );
    lemma_order_is_unique(keys, first, second);
}

/// A ranking goes down in points, holds only candidates, and leaves none out that has more points
/// than one that it holds.
pub proof fn lemma_ranking_keeps_the_best(
    candidates: Seq<CandidateView>,
    existing: Option<ExistingView>,
    ranked: Seq<CandidateView>,
)
    requires
        is_ranking(candidates, existing, ranked),
    ensures
        ranked.len() == if candidates.len() < MOST_CANDIDATES {
            candidates.len() as int
        } else {
            MOST_CANDIDATES as int
        },
        forall|i: int| 0 <= i < ranked.len() ==> candidates.contains(#[trigger] ranked[i]),
        ({
            let (artist, title) = existing_lowercase(existing);
            &&& forall|i: int, j: int|
                0 <= i < j < ranked.len() ==> (#[trigger] ranked[i]).points(artist, title) >= (
                #[trigger] ranked[j]).points(artist, title)
            &&& forall|c: int, i: int|
                0 <= c < candidates.len() && 0 <= i < ranked.len() && !ranked.contains(
                    #[trigger] candidates[c],
                ) ==> candidates[c].points(artist, title) <= (#[trigger] ranked[i]).points(
                    artist,
                    title,
                )
        }),
{
    let (artist, title) = existing_lowercase(existing);
    let keys = candidate_keys(candidates, existing);
    let count = if candidates.len() < MOST_CANDIDATES {
        candidates.len() as int
    } else {
        MOST_CANDIDATES as int
    };
    let order = choose|order: Seq<usize>|
        #[trigger] is_descending_order(keys, order) && ranked == order.take(count).map_values(
            |place: usize| candidates[place as int],
        );
    lemma_order_lists_each_once(keys, order);
    assert forall|i: int| 0 <= i < ranked.len() implies ranked[i] == candidates[order[i] as int]
        && keys[order[i] as int] == #[trigger] ranked[i].points(artist, title) by {
        lemma_points_are_small(candidates[order[i] as int], artist, title);
    }
    assert forall|i: int, j: int| 0 <= i < j < ranked.len() implies (#[trigger] ranked[i]).points(
        artist,
        title,
    ) >= (#[trigger] ranked[j]).points(artist, title) by {
        assert(comes_before(keys, order[i], order[j]));
    }
    assert forall|c: int, i: int|
        0 <= c < candidates.len() && 0 <= i < ranked.len() && !ranked.contains(
            #[trigger] candidates[c],
        ) implies candidates[c].points(artist, title) <= (#[trigger] ranked[i]).points(
        artist,
        title,
    ) by {
        lemma_points_are_small(candidates[c], artist, title);
        assert(order.contains(c as usize));
        let p = choose|p: int| 0 <= p < order.len() && order[p] == c as usize;
        if p < count {
            assert(ranked[p] == candidates[c]);
        }
        assert(comes_before(keys, order[i], order[p]));
        assert(keys[c] == candidates[c].points(artist, title));
    }
}

/// No candidate has more than 210 points.
proof fn lemma_points_are_small(
    candidate: CandidateView,
    artist: Option<Seq<char>>,
    title: Option<Seq<char>>,
)
    ensures
        candidate.points(artist, title) <= 210,
{
}

/// A score is a number, and at least the one with which a lone candidate is taken. The bit
/// patterns of the positive numbers are in the order of the numbers.
pub open spec fn is_sure(score: u64) -> bool {
    SURE_SCORE <= score <= LARGEST_SCORE
}

/// What comes from the prompt at which a candidate is chosen.
pub enum PromptEvent {
    /// The candidates are there, and nothing has been shown yet.
    Opened,
    /// A line was entered.
    Line(String),
    /// The input has ended or cannot be read.
    Closed,
}

/// What to do at the prompt.
pub enum PromptAction {
    /// Show the candidates, then ask for a number.
    Show,
    /// Ask for a number.
    Ask,
    /// Say that the number is not valid, then ask for another.
    AskAgain,
    /// Take the candidate at this place, counted from 0.
    Take(usize),
    /// Leave the file as it is.
    Skip,
}

/// What a line at the prompt asks for. The candidates are numbered from 1; 0 leaves the file as
/// it is.
pub open spec fn line_action(line: Seq<char>, count: nat) -> PromptAction {
    let entry = trimmed(line);
    if entry.len() == 0 {
        PromptAction::Ask
    } else {
        match decimal_value(entry, usize::MAX as nat) {
            Some(n) => if n == 0 {
                PromptAction::Skip
            } else if n <= count {
                PromptAction::Take((n - 1) as usize)
            } else {
                PromptAction::AskAgain
            },
            None => PromptAction::AskAgain,
        }
    }
}

/// What to do at the prompt. Where there are no candidates, nothing is asked; a lone one whose
/// score is sure is taken at once; else the lines that are entered decide.
pub open spec fn prompt_action(candidates: Seq<TagCandidate>, event: PromptEvent) -> PromptAction {
    match event {
        PromptEvent::Opened => if candidates.len() == 0 {
            PromptAction::Skip
        } else if candidates.len() == 1 && is_sure(candidates[0].score) {
            PromptAction::Take(0)
        } else {
            PromptAction::Show
        },
        PromptEvent::Line(line) => line_action(line@, candidates.len()),
        PromptEvent::Closed => PromptAction::Skip,
    }
}

/// A line at the prompt decides: it is a number, white space around it aside, that is no larger
/// than the number of candidates.
pub open spec fn line_decides(line: Seq<char>, count: nat) -> bool {
    decimal_value(trimmed(line), usize::MAX as nat) matches Some(n) && n <= count
}

/// What some lines that are entered one after the other come to, where they decide.
pub open spec fn lines_action(lines: Seq<Seq<char>>, count: nat) -> Option<PromptAction>
    decreases lines.len(),
{
    if lines.len() == 0 {
        None
    } else {
        match line_action(lines[0], count) {
            PromptAction::Take(place) => Some(PromptAction::Take(place)),
            PromptAction::Skip => Some(PromptAction::Skip),
            _ => lines_action(lines.drop_first(), count),
        }
    }
}

/// What the number on a line that decides asks for.
pub open spec fn number_action(number: nat) -> PromptAction {
    if number == 0 {
        PromptAction::Skip
    } else {
        PromptAction::Take((number - 1) as usize)
    }
}

/// A line that decides takes the candidate of its number, or none for 0; after any other line
/// another one is asked for.
proof fn lemma_line_decides(line: Seq<char>, count: nat)
    ensures
        line_decides(line, count) ==> line_action(line, count) == number_action(
            decimal_value(trimmed(line), usize::MAX as nat).unwrap(),
        ),
        !line_decides(line, count) ==> line_action(line, count) == PromptAction::Ask
            || line_action(line, count) == PromptAction::AskAgain,
{
}

/// The first line that decides is the one that counts: lines before it that do not, and all lines
/// after it, make no difference.
pub proof fn lemma_first_number_decides(lines: Seq<Seq<char>>, count: nat, at: int)
    requires
        0 <= at < lines.len(),
        line_decides(lines[at], count),
        forall|i: int| 0 <= i < at ==> !line_decides(#[trigger] lines[i], count),
    ensures
        lines_action(lines, count) == Some(
            number_action(decimal_value(trimmed(lines[at]), usize::MAX as nat).unwrap()),
        ),
    decreases at,
{
    lemma_line_decides(lines[0], count);
    if at > 0 {
        assert(!line_decides(lines[0], count));
        let rest = lines.drop_first();
        assert forall|i: int| 0 <= i < at - 1 implies !line_decides(#[trigger] rest[i], count) by {
            assert(rest[i] == lines[i + 1]);
        }
        lemma_first_number_decides(rest, count, at - 1);
    }
}

/// As long as no line decides, the prompt stays open.
pub proof fn lemma_undecided_lines_ask_again(lines: Seq<Seq<char>>, count: nat)
    requires
        forall|i: int| 0 <= i < lines.len() ==> !line_decides(#[trigger] lines[i], count),
    ensures
        lines_action(lines, count) is None,
    decreases lines.len(),
{
    if lines.len() > 0 {
        lemma_line_decides(lines[0], count);
        let rest = lines.drop_first();
        assert forall|i: int| 0 <= i < rest.len() implies !line_decides(
            #[trigger] rest[i],
            count,
        ) by {
            assert(rest[i] == lines[i + 1]);
        }
        lemma_undecided_lines_ask_again(rest, count);
    }
}

/// Decides what to do at the prompt at which one of the candidates is chosen.
pub fn select_candidate(
    candidates: &Vec<TagCandidate>,
    event: &PromptEvent,
) -> (action: PromptAction)
    ensures
        action == prompt_action(candidates@, *event),
        *event is Closed ==> action == PromptAction::Skip,
        *event is Opened ==> action == (if candidates@.len() == 0 {
            PromptAction::Skip
        } else if candidates@.len() == 1 && 0x3fe9_9999_9999_999a <= candidates@[0].score
            <= 0x7ff0_0000_0000_0000 {
            PromptAction::Take(0)
        } else {
            PromptAction::Show
        }),
        *event matches PromptEvent::Line(line) ==> {
            let number = decimal_value(trimmed(line@), usize::MAX as nat);
            &&& trimmed(line@).len() == 0 <==> action == PromptAction::Ask
            &&& number == Some(0nat) <==> action == PromptAction::Skip
            &&& action matches PromptAction::Take(place) ==> number == Some((place + 1) as nat)
            &&& number is Some && 1 <= number.unwrap() <= candidates@.len() ==> action
                == PromptAction::Take((number.unwrap() - 1) as usize)
        },
        action matches PromptAction::Take(place) ==> place < candidates@.len(),
{
    match event {
        PromptEvent::Opened => {
            if candidates.len() == 0 {
                PromptAction::Skip
            } else if candidates.len() == 1 && SURE_SCORE <= candidates[0].score
                && candidates[0].score <= LARGEST_SCORE {
                PromptAction::Take(0)
            } else {
                PromptAction::Show
            }
        },
        PromptEvent::Closed => PromptAction::Skip,
        PromptEvent::Line(line) => {
            let entry = trim(line.as_str());
            if entry.as_str().is_empty() {
                return PromptAction::Ask;
            }
            match parse_decimal(entry.as_str(), usize::MAX as u64) {
                Some(n) => {
                    let choice: usize = n as usize;
                    if choice == 0 {
                        PromptAction::Skip
                    } else if choice <= candidates.len() {
                        PromptAction::Take(choice - 1)
                    } else {
                        PromptAction::AskAgain
                    }
                },
                None => PromptAction::AskAgain,
            }
        },
    }
}

/// How a candidate is shown.
pub struct CandidateLabels {
    pub artist: String,
    pub title: String,
    pub album: String,
    pub year: String,
    pub track: String,
}

impl CandidateView {
    /// The year as a numeral.
    pub open spec fn year_text(self) -> Option<Seq<char>> {
        match self.year {
            Some(year) => Some(decimal_text(year as nat)),
            None => None,
        }
    }

    /// The track number as a numeral.
    pub open spec fn track_text(self) -> Option<Seq<char>> {
        match self.track {
            Some(track) => Some(decimal_text(track as nat)),
            None => None,
        }
    }
}

/// The year of a candidate as a numeral.
fn year_numeral(candidate: &TagCandidate) -> (text: Option<String>)
    ensures
        text_of(text) == candidate@.year_text(),
{
    match candidate.year {
        Some(year) => Some(write_decimal(year as u64)),
        None => None,
    }
}

/// The track number of a candidate as a numeral.
fn track_numeral(candidate: &TagCandidate) -> (text: Option<String>)
    ensures
        text_of(text) == candidate@.track_text(),
{
    match candidate.track {
        Some(track) => Some(write_decimal(track as u64)),
        None => None,
    }
}

/// How a candidate is shown.
pub fn candidate_labels(candidate: &TagCandidate) -> (labels: CandidateLabels)
    ensures
        labels.artist@ == text_or(candidate@.artist, "Unknown"@),
        labels.title@ == text_or(candidate@.title, "Unknown"@),
        labels.album@ == text_or(candidate@.album, "?"@),
        labels.year@ == text_or(candidate@.year_text(), "?"@),
        labels.track@ == text_or(candidate@.track_text(), "?"@),
        candidate.artist matches Some(artist) ==> labels.artist@ == artist@,
        candidate.artist is None ==> labels.artist@ == "Unknown"@,
        candidate.title matches Some(title) ==> labels.title@ == title@,
        candidate.title is None ==> labels.title@ == "Unknown"@,
        candidate.album matches Some(album) ==> labels.album@ == album@,
        candidate.album is None ==> labels.album@ == "?"@,
        candidate.year matches Some(year) ==> labels.year@ == decimal_text(year as nat),
        candidate.year is None ==> labels.year@ == "?"@,
        candidate.track matches Some(track) ==> labels.track@ == decimal_text(track as nat),
        candidate.track is None ==> labels.track@ == "?"@,
{
    CandidateLabels {
        artist: text_or_else(&candidate.artist, "Unknown"),
        title: text_or_else(&candidate.title, "Unknown"),
        album: text_or_else(&candidate.album, "?"),
        year: text_or_else(&year_numeral(candidate), "?"),
        track: text_or_else(&track_numeral(candidate), "?"),
    }
}

/// The parts of the line that shows the tags of a file: those that are there, with their names.
pub open spec fn current_tags_parts(existing: ExistingView) -> Seq<Seq<char>> {
    (match existing.artist {
        Some(artist) => seq!["artist="@ + artist],
        None => Seq::empty(),
    }) + (match existing.title {
        Some(title) => seq!["title="@ + title],
        None => Seq::empty(),
    }) + (match existing.album {
        Some(album) => seq!["album="@ + album],
        None => Seq::empty(),
    })
}

/// Parts with a comma and a space between them.
pub open spec fn comma_joined(parts: Seq<Seq<char>>) -> Seq<char>
    decreases parts.len(),
{
    if parts.len() == 0 {
        Seq::empty()
    } else if parts.len() == 1 {
        parts[0]
    } else {
        comma_joined(parts.drop_last()) + ", "@ + parts.last()
    }
}

/// Appends a part to a joined line.
fn append_part(line: &mut String, name: &str, text: &Option<String>, Ghost(parts): Ghost<
    Seq<Seq<char>>,
>, is_first: bool)
    requires
        old(line)@ == comma_joined(parts),
        is_first == (parts.len() == 0),
    ensures
        text is None ==> final(line)@ == old(line)@,
        text matches Some(t) ==> final(line)@ == comma_joined(parts.push(name@ + t@)),
{
    if let Some(t) = text {
        if !is_first {
            line.append(", ");
        }
        line.append(name);
        line.append(t.as_str());
        assert(parts.push(name@ + t@).drop_last() =~= parts);
        assert(line@ =~= comma_joined(parts.push(name@ + t@)));
    }
}

/// The line that shows the tags of a file.
pub fn current_tags_line(existing: &ExistingMeta) -> (line: String)
    ensures
        line@ == comma_joined(current_tags_parts(existing@)),
        match (existing.artist, existing.title, existing.album) {
            (Some(a), Some(t), Some(r)) => line@ == "artist="@ + a@ + ", "@ + ("title="@ + t@)
                + ", "@ + ("album="@ + r@),
            (Some(a), Some(t), None) => line@ == "artist="@ + a@ + ", "@ + ("title="@ + t@),
            (Some(a), None, Some(r)) => line@ == "artist="@ + a@ + ", "@ + ("album="@ + r@),
            (Some(a), None, None) => line@ == "artist="@ + a@,
            (None, Some(t), Some(r)) => line@ == "title="@ + t@ + ", "@ + ("album="@ + r@),
            (None, Some(t), None) => line@ == "title="@ + t@,
            (None, None, Some(r)) => line@ == "album="@ + r@,
            (None, None, None) => line@.len() == 0,
        },
{
    proof {
        lemma_tags_are_joined(existing@);
    }
    let mut line = String::new();
    let ghost none = Seq::<Seq<char>>::empty();
    append_part(&mut line, "artist=", &existing.artist, Ghost(none), true);
    let ghost one = match existing@.artist {
        Some(artist) => seq!["artist="@ + artist],
        None => Seq::empty(),
    };
    assert(none.push("artist="@ + existing@.artist.unwrap()) =~= seq![
        "artist="@ + existing@.artist.unwrap(),
    ]);
    append_part(&mut line, "title=", &existing.title, Ghost(one), existing.artist.is_none());
    let ghost two = one + (match existing@.title {
        Some(title) => seq!["title="@ + title],
        None => Seq::empty(),
    });
    assert(existing@.title is Some ==> one.push("title="@ + existing@.title.unwrap()) =~= two);
    assert(existing@.title is None ==> one =~= two);
    append_part(
        &mut line,
        "album=",
        &existing.album,
        Ghost(two),
        existing.artist.is_none() && existing.title.is_none(),
    );
    let ghost all = current_tags_parts(existing@);
    assert(existing@.album is Some ==> two.push("album="@ + existing@.album.unwrap()) =~= all);
    assert(existing@.album is None ==> two =~= all);
    line
}

/// The texts of a tag after a candidate has been written to it. What the candidate does not say,
/// and what the tag's format has no place for, stays as it was.
pub open spec fn texts_with_candidate(
    texts: Map<ItemKey, Seq<char>>,
    format: TagType,
    candidate: CandidateView,
) -> Map<ItemKey, Seq<char>> {
    let texts = with_optional_text(texts, format, ItemKey::TrackTitle, candidate.title);
    let texts = with_optional_text(texts, format, ItemKey::TrackArtist, candidate.artist);
    let texts = with_optional_text(texts, format, ItemKey::AlbumTitle, candidate.album);
    let texts = with_optional_text(texts, format, ItemKey::AlbumArtist, candidate.album_artist);
    let texts = with_optional_text(texts, format, ItemKey::RecordingDate, candidate.year_text());
    let texts = with_optional_text(texts, format, ItemKey::TrackNumber, candidate.track_text());
    with_optional_text(
        texts,
        format,
        ItemKey::MusicBrainzRecordingId,
        candidate.musicbrainz_recording_id,
    )
}

/// Writes a candidate to the tag of a file.
pub fn write_metadata_tags(tag: &mut Tag, candidate: &TagCandidate)
    ensures
        format_of(*final(tag)) == format_of(*old(tag)),
        tag_texts(*final(tag)) == texts_with_candidate(
            tag_texts(*old(tag)),
            format_of(*old(tag)),
            candidate@,
        ),
        is_primary_format(format_of(*old(tag))) ==> {
            let before = tag_texts(*old(tag));
            let after = tag_texts(*final(tag));
            &&& after.get(ItemKey::TrackTitle) == (match candidate.title {
                Some(title) => Some(title@),
                None => before.get(ItemKey::TrackTitle),
            })
            &&& after.get(ItemKey::TrackArtist) == (match candidate.artist {
                Some(artist) => Some(artist@),
                None => before.get(ItemKey::TrackArtist),
            })
            &&& after.get(ItemKey::AlbumTitle) == (match candidate.album {
                Some(album) => Some(album@),
                None => before.get(ItemKey::AlbumTitle),
            })
            &&& after.get(ItemKey::AlbumArtist) == (match candidate.album_artist {
                Some(artist) => Some(artist@),
                None => before.get(ItemKey::AlbumArtist),
            })
            &&& after.get(ItemKey::RecordingDate) == (match candidate.year {
                Some(year) => Some(decimal_text(year as nat)),
                None => before.get(ItemKey::RecordingDate),
            })
            &&& after.get(ItemKey::TrackNumber) == (match candidate.track {
                Some(track) => Some(decimal_text(track as nat)),
                None => before.get(ItemKey::TrackNumber),
            })
            &&& after.get(ItemKey::MusicBrainzRecordingId) == (
            match candidate.musicbrainz_recording_id {
                Some(id) => Some(id@),
                None => before.get(ItemKey::MusicBrainzRecordingId),
            })
        },
        forall|key: ItemKey|
            key != ItemKey::TrackTitle && key != ItemKey::TrackArtist && key != ItemKey::AlbumTitle
                && key != ItemKey::AlbumArtist && key != ItemKey::RecordingDate && key
                != ItemKey::TrackNumber && key != ItemKey::MusicBrainzRecordingId
                ==> #[trigger] tag_texts(*final(tag)).get(key) == tag_texts(*old(tag)).get(key),
{
    let ghost texts = tag_texts(*tag);
    let ghost format = format_of(*tag);
    proof {
        lemma_text_after_writing(texts, format, candidate@, ItemKey::TrackTitle);
        lemma_text_after_writing(texts, format, candidate@, ItemKey::TrackArtist);
        lemma_text_after_writing(texts, format, candidate@, ItemKey::AlbumTitle);
        lemma_text_after_writing(texts, format, candidate@, ItemKey::AlbumArtist);
        lemma_text_after_writing(texts, format, candidate@, ItemKey::RecordingDate);
        lemma_text_after_writing(texts, format, candidate@, ItemKey::TrackNumber);
        lemma_text_after_writing(texts, format, candidate@, ItemKey::MusicBrainzRecordingId);
        assert forall|key: ItemKey|
            key != ItemKey::TrackTitle && key != ItemKey::TrackArtist && key != ItemKey::AlbumTitle
                && key != ItemKey::AlbumArtist && key != ItemKey::RecordingDate && key
                != ItemKey::TrackNumber && key != ItemKey::MusicBrainzRecordingId implies (
        #[trigger] texts_with_candidate(texts, format, candidate@).get(key)) == texts.get(key) by {
            lemma_text_after_writing(texts, format, candidate@, key);
        }
    }
    insert_optional_text(tag, ItemKey::TrackTitle, &candidate.title);
    insert_optional_text(tag, ItemKey::TrackArtist, &candidate.artist);
    insert_optional_text(tag, ItemKey::AlbumTitle, &candidate.album);
    insert_optional_text(tag, ItemKey::AlbumArtist, &candidate.album_artist);
    insert_optional_text(tag, ItemKey::RecordingDate, &year_numeral(candidate));
    insert_optional_text(tag, ItemKey::TrackNumber, &track_numeral(candidate));
    insert_optional_text(
        tag,
        ItemKey::MusicBrainzRecordingId,
        &candidate.musicbrainz_recording_id,
    );
}

/// A tag to which a recording has been written holds the id of the recording, unless the id is
/// blank or the tag's format has no place for it.
pub proof fn lemma_written_recording_is_found(
    texts: Map<ItemKey, Seq<char>>,
    format: TagType,
    recording: MbSearchRecording,
)
    requires
        holds_key(format, ItemKey::MusicBrainzRecordingId),
        !is_blank(recording.id@),
    ensures
        has_text_under(
            texts_with_candidate(texts, format, recording.candidate()),
            ItemKey::MusicBrainzRecordingId,
        ),
{
}

/// `after` is what the tags of a file become when this candidate is written to it.
pub open spec fn candidate_written(
    before: Seq<Tag>,
    format: TagType,
    after: Seq<Tag>,
    candidate: CandidateView,
) -> bool {
    has_new_texts(
        before,
        format,
        after,
        texts_with_candidate(primary_texts(before, format), format, candidate),
    )
}

/// Writes a candidate to the primary tag of a file, which is made where the file has none. Files
/// of custom types are left as they are.
pub fn write_metadata_file(file: &mut TaggedFile, candidate: &TagCandidate) -> (written: bool)
    ensures
        type_of(*final(file)) == type_of(*old(file)),
        match primary_format(type_of(*old(file))) {
            Some(format) => written && candidate_written(
                tags_in(*old(file)),
                format,
                tags_in(*final(file)),
                candidate@,
            ),
            None => !written && *final(file) == *old(file),
        },
{
    match writable_tag(file) {
        Some(tag) => {
            write_metadata_tags(tag, candidate);
            true
        },
        None => false,
    }
}

/// A file that has been tagged with a recording is not looked up again, unless the recording's id
/// is blank.
pub proof fn lemma_tagged_file_is_not_looked_up_again(
    before: Seq<Tag>,
    format: TagType,
    after: Seq<Tag>,
    recording: MbSearchRecording,
)
    requires
        is_primary_format(format),
        candidate_written(before, format, after, recording.candidate()),
        !is_blank(recording.id@),
    ensures
        looked_up_in(texts_read_of(after, format)),
{
    let texts = primary_texts(before, format);
    lemma_new_texts_are_read(
        before,
        format,
        after,
        texts_with_candidate(texts, format, recording.candidate()),
    );
    lemma_written_recording_is_found(texts, format, recording);
}

impl CandidateView {
    /// The text that writing the candidate puts under a key.
    pub open spec fn text_for(self, key: ItemKey) -> Option<Seq<char>> {
        match key {
            ItemKey::TrackTitle => self.title,
            ItemKey::TrackArtist => self.artist,
            ItemKey::AlbumTitle => self.album,
            ItemKey::AlbumArtist => self.album_artist,
            ItemKey::RecordingDate => self.year_text(),
            ItemKey::TrackNumber => self.track_text(),
            ItemKey::MusicBrainzRecordingId => self.musicbrainz_recording_id,
            _ => None,
        }
    }
}

/// One insertion changes the text under its key, where there is a text and a place for it, and
/// none under another key.
proof fn lemma_one_text_is_written(
    texts: Map<ItemKey, Seq<char>>,
    format: TagType,
    written: ItemKey,
    text: Option<Seq<char>>,
    key: ItemKey,
)
    ensures
        with_optional_text(texts, format, written, text).get(key) == (if key == written && text
            is Some && holds_key(format, written) {
            text
        } else {
            texts.get(key)
        }),
{
}

/// After a candidate has been written, there is under each key what the candidate says, where it
/// says something and the tag's format has a place for it, and else what was there before.
pub proof fn lemma_text_after_writing(
    texts: Map<ItemKey, Seq<char>>,
    format: TagType,
    candidate: CandidateView,
    key: ItemKey,
)
    ensures
        texts_with_candidate(texts, format, candidate).get(key) == (if candidate.text_for(
            key,
        ) is Some && holds_key(format, key) {
            candidate.text_for(key)
        } else {
            texts.get(key)
        }),
{
    let t0 = texts;
    let title = candidate.title;
    let t1 = with_optional_text(t0, format, ItemKey::TrackTitle, title);
    lemma_one_text_is_written(t0, format, ItemKey::TrackTitle, title, key);
    let artist = candidate.artist;
    let t2 = with_optional_text(t1, format, ItemKey::TrackArtist, artist);
    lemma_one_text_is_written(t1, format, ItemKey::TrackArtist, artist, key);
    let album = candidate.album;
    let t3 = with_optional_text(t2, format, ItemKey::AlbumTitle, album);
    lemma_one_text_is_written(t2, format, ItemKey::AlbumTitle, album, key);
    let album_artist = candidate.album_artist;
    let t4 = with_optional_text(t3, format, ItemKey::AlbumArtist, album_artist);
    lemma_one_text_is_written(t3, format, ItemKey::AlbumArtist, album_artist, key);
    let year = candidate.year_text();
    let t5 = with_optional_text(t4, format, ItemKey::RecordingDate, year);
    lemma_one_text_is_written(t4, format, ItemKey::RecordingDate, year, key);
    let track = candidate.track_text();
    let t6 = with_optional_text(t5, format, ItemKey::TrackNumber, track);
    lemma_one_text_is_written(t5, format, ItemKey::TrackNumber, track, key);
    let id = candidate.musicbrainz_recording_id;
    lemma_one_text_is_written(t6, format, ItemKey::MusicBrainzRecordingId, id, key);
}

/// A scan reads from a tag what was written to it last: of each thing that the candidate says,
/// and that the tag's format has a place for, what the candidate says of it.
#[verifier::spinoff_prover]
pub proof fn lemma_scan_reads_what_was_written(
    texts: Map<ItemKey, Seq<char>>,
    format: TagType,
    candidate: CandidateView,
)
    ensures
        ({
            let metadata = metadata_in(texts_with_candidate(texts, format, candidate));
            &&& candidate.title is Some && holds_key(format, ItemKey::TrackTitle)
                ==> metadata.title == candidate.title
            &&& candidate.artist is Some && holds_key(format, ItemKey::TrackArtist)
                ==> metadata.artist == candidate.artist
            &&& candidate.album is Some && holds_key(format, ItemKey::AlbumTitle)
                ==> metadata.album == candidate.album
            &&& candidate.album_artist is Some && holds_key(format, ItemKey::AlbumArtist)
                ==> metadata.album_artist == Some(first_artist(candidate.album_artist.unwrap()))
            &&& candidate.track is Some && holds_key(format, ItemKey::TrackNumber)
                ==> metadata.track == candidate.track
            &&& candidate.year is Some && 1000 <= candidate.year.unwrap() <= 9999 && holds_key(
                format,
                ItemKey::RecordingDate,
            ) ==> metadata.year == Some(candidate.year.unwrap() as i32)
        }),
{
    lemma_text_after_writing(texts, format, candidate, ItemKey::TrackTitle);
    lemma_text_after_writing(texts, format, candidate, ItemKey::TrackArtist);
    lemma_text_after_writing(texts, format, candidate, ItemKey::AlbumTitle);
    lemma_text_after_writing(texts, format, candidate, ItemKey::AlbumArtist);
    lemma_text_after_writing(texts, format, candidate, ItemKey::TrackNumber);
    lemma_text_after_writing(texts, format, candidate, ItemKey::RecordingDate);
    if let Some(track) = candidate.track {
        lemma_decimal_round_trip(track as nat, u32::MAX as nat);
    }
    if let Some(year) = candidate.year {
        if 1000 <= year <= 9999 {
            lemma_decimal_of_four_digits(year as nat);
        }
    }
}

/// Writing a candidate changes nothing else: the genre and the disc stay as they were, and so
/// does all that the candidate does not say.
#[verifier::spinoff_prover]
pub proof fn lemma_writing_keeps_the_rest(
    texts: Map<ItemKey, Seq<char>>,
    format: TagType,
    candidate: CandidateView,
)
    ensures
        ({
            let before = metadata_in(texts);
            let after = metadata_in(texts_with_candidate(texts, format, candidate));
            &&& after.genre == before.genre
            &&& after.disc == before.disc
            &&& candidate.title is None ==> after.title == before.title
            &&& candidate.artist is None ==> after.artist == before.artist
            &&& candidate.album is None ==> after.album == before.album
            &&& candidate.album_artist is None ==> after.album_artist == before.album_artist
            &&& candidate.track is None ==> after.track == before.track
            &&& candidate.year is None ==> after.year == before.year
        }),
{
    lemma_text_after_writing(texts, format, candidate, ItemKey::Genre);
    lemma_text_after_writing(texts, format, candidate, ItemKey::DiscNumber);
    lemma_text_after_writing(texts, format, candidate, ItemKey::Year);
    lemma_text_after_writing(texts, format, candidate, ItemKey::TrackTitle);
    lemma_text_after_writing(texts, format, candidate, ItemKey::TrackArtist);
    lemma_text_after_writing(texts, format, candidate, ItemKey::AlbumTitle);
    lemma_text_after_writing(texts, format, candidate, ItemKey::AlbumArtist);
    lemma_text_after_writing(texts, format, candidate, ItemKey::TrackNumber);
    lemma_text_after_writing(texts, format, candidate, ItemKey::RecordingDate);
}

/// How many files were tagged, skipped, and not tagged for an error.
#[derive(Debug, Clone, Copy, PartialEq, Eq)]
pub struct TagCounts {
    pub tagged: usize,
    pub skipped: usize,
    pub failed: usize,
}

/// Where a run that tags files stands: the files in their order, named by their places in the list
/// that was given, and what has become of them so far.
#[verifier::ext_equal]
pub struct TagRunView {
    pub order: Seq<usize>,
    pub tagged: nat,
    pub skipped: nat,
    pub failed: nat,
}

impl TagRunView {
    /// The number of files that are done.
    pub open spec fn done(self) -> nat {
        self.tagged + self.skipped + self.failed
    }

    /// No more files are done than there are.
    pub open spec fn is_valid(self) -> bool {
        self.done() <= self.order.len() <= usize::MAX
    }

    /// The file that is to be handled next.
    pub open spec fn current(self) -> Option<usize> {
        if self.done() < self.order.len() {
            Some(self.order[self.done() as int])
        } else {
            None
        }
    }

    /// Where the run stands after the current file has come out so.
    pub open spec fn after(self, outcome: FileOutcome) -> TagRunView {
        if self.current() is None {
            self
        } else {
            match outcome {
                FileOutcome::Tagged => TagRunView { tagged: self.tagged + 1, ..self },
                FileOutcome::AlreadyTagged | FileOutcome::LeftAlone => TagRunView {
                    skipped: self.skipped + 1,
                    ..self
                },
                FileOutcome::Failed => TagRunView { failed: self.failed + 1, ..self },
            }
        }
    }
}

/// A run that tags files.
pub struct TagRun {
    order: Vec<usize>,
    counts: TagCounts,
}

impl View for TagRun {
    type V = TagRunView;

    closed spec fn view(&self) -> TagRunView {
        TagRunView {
            order: self.order@,
            tagged: self.counts.tagged as nat,
            skipped: self.counts.skipped as nat,
            failed: self.counts.failed as nat,
        }
    }
}

impl TagRun {
    /// A run is valid at all times.
    #[verifier::type_invariant]
    closed spec fn is_sound(self) -> bool {
        self@.is_valid()
    }

    /// The file that is to be handled next.
    pub fn current(&self) -> (file: Option<usize>)
        ensures
            file == self@.current(),
            self@.is_valid(),
    {
        proof {
            use_type_invariant(self);
        }
        let done: usize = self.counts.tagged + self.counts.skipped + self.counts.failed;
        if done < self.order.len() {
            Some(self.order[done])
        } else {
            None
        }
    }

    /// What has become of the files so far.
    pub fn counts(&self) -> (counts: TagCounts)
        ensures
            counts.tagged == self@.tagged,
            counts.skipped == self@.skipped,
            counts.failed == self@.failed,
    {
        self.counts
    }

    /// Counts the current file, where there is one, and goes on to the next.
    pub fn record(&mut self, outcome: &FileOutcome)
        ensures
            final(self)@ == old(self)@.after(*outcome),
            final(self)@.is_valid(),
    {
        proof {
            use_type_invariant(&*self);
        }
        if self.current().is_none() {
            return;
        }
        let counts = self.counts;
        let counted: TagCounts = match outcome {
            FileOutcome::Tagged => TagCounts { tagged: counts.tagged + 1, ..counts },
            FileOutcome::AlreadyTagged | FileOutcome::LeftAlone => TagCounts {
                skipped: counts.skipped + 1,
                ..counts
            },
            FileOutcome::Failed => TagCounts { failed: counts.failed + 1, ..counts },
        };
        self.counts = counted;
    }
}

/// Where a run stands after its first files have come out so.
pub open spec fn run_after(run: TagRunView, outcomes: Seq<FileOutcome>) -> TagRunView
    decreases outcomes.len(),
{
    if outcomes.len() == 0 {
        run
    } else {
        run_after(run, outcomes.drop_last()).after(outcomes.last())
    }
}

/// A run handles its files one after the other in their order, each once, and is at its end when
/// all have come out.
pub proof fn lemma_run_handles_each_file_once(run: TagRunView, outcomes: Seq<FileOutcome>)
    requires
        run.done() == 0,
        outcomes.len() <= run.order.len(),
    ensures
        run_after(run, outcomes).order == run.order,
        run_after(run, outcomes).done() == outcomes.len(),
        run_after(run, outcomes).current() == (if outcomes.len() < run.order.len() {
            Some(run.order[outcomes.len() as int])
        } else {
            None
        }),
    decreases outcomes.len(),
{
    if outcomes.len() > 0 {
        lemma_run_handles_each_file_once(run, outcomes.drop_last());
    }
}

/// The times of modification of some files.
pub open spec fn times_of(modified: Seq<Option<i128>>) -> Seq<i128> {
    modified.map_values(|time: Option<i128>| modified_or_epoch(time))
}

/// Begins the tagging of files, whose times of modification are given: the newest comes first.
pub fn tag_music_files(modified: &Vec<Option<i128>>) -> (run: TagRun)
    ensures
        is_descending_order(times_of(modified@), run@.order),
        run@.order.no_duplicates(),
        run@.order.len() == modified@.len(),
        forall|file: usize| file < modified@.len() ==> run@.order.contains(file),
        ({
            let time = |file: usize|
                match modified@[file as int] {
                    Some(t) => t as int,
                    None => 0int,
                };
            forall|i: int, j: int|
                #![trigger run@.order[i], run@.order[j]]
                0 <= i < j < run@.order.len() ==> time(run@.order[i]) > time(run@.order[j]) || (
                time(run@.order[i]) == time(run@.order[j]) && run@.order[i] < run@.order[j])
        }),
        run@.tagged == 0,
        run@.skipped == 0,
        run@.failed == 0,
        run@.done() == 0,
        run@.is_valid(),
{
    let mut times: Vec<i128> = Vec::new();
    let mut i: usize = 0;
    while i < modified.len()
        invariant
            i <= modified@.len(),
            times@.len() == i,
            forall|j: int| 0 <= j < i ==> times@[j] == times_of(modified@)[j],
        decreases modified@.len() - i,
    {
        times.push(time_or_epoch(modified[i]));
        i += 1;
    }
    assert(times@ =~= times_of(modified@));
    let order = descending_order(&times);
    assert(order@.len() == order.len());
    TagRun { order, counts: TagCounts { tagged: 0, skipped: 0, failed: 0 } }
}

/// How a part of a line stands out.
#[derive(Debug, Clone, Copy, PartialEq, Eq)]
pub enum Emphasis {
    Plain,
    Good,
    Faint,
    Bad,
}

/// A part of a line.
pub struct LinePart {
    pub text: String,
    pub emphasis: Emphasis,
}

/// The texts of the parts of a line, one after the other.
pub open spec fn line_text(parts: Seq<LinePart>) -> Seq<char>
    decreases parts.len(),
{
    if parts.len() == 0 {
        Seq::empty()
    } else {
        line_text(parts.drop_last()) + parts.last().text@
    }
}

/// The line that sums up a run that tagged files.
pub open spec fn tag_summary_text(counts: TagCounts) -> Seq<char> {
    "  "@ + decimal_text(counts.tagged as nat) + " files tagged, "@ + decimal_text(
        counts.skipped as nat,
    ) + " skipped, "@ + decimal_text(counts.failed as nat) + " failed"@
}

/// Appends a part to a line.
fn push_part(parts: &mut Vec<LinePart>, text: String, emphasis: Emphasis)
    ensures
        final(parts)@ == old(parts)@.push(LinePart { text, emphasis }),
        line_text(final(parts)@) == line_text(old(parts)@) + text@,
{
    parts.push(LinePart { text, emphasis });
    assert(parts@.drop_last() =~= old(parts)@);
}

/// The line that sums up a run that tagged files, in parts: each number stands out in its way.
pub fn tag_summary(counts: &TagCounts) -> (parts: Vec<LinePart>)
    ensures
        line_text(parts@) == tag_summary_text(*counts),
        parts@[0].text@ == "  "@,
        parts@[2].text@ == " files tagged, "@,
        parts@[4].text@ == " skipped, "@,
        parts@[6].text@ == " failed"@,
        parts@.len() == 7,
        parts@[1].text@ == decimal_text(counts.tagged as nat),
        parts@[3].text@ == decimal_text(counts.skipped as nat),
        parts@[5].text@ == decimal_text(counts.failed as nat),
        forall|i: int|
            0 <= i < 7 ==> (#[trigger] parts@[i]).emphasis == (if i == 1 {
                Emphasis::Good
            } else if i == 3 {
                Emphasis::Faint
            } else if i == 5 {
                Emphasis::Bad
            } else {
                Emphasis::Plain
            }),
{
    let mut parts: Vec<LinePart> = Vec::new();
    push_part(&mut parts, "  ".to_owned(), Emphasis::Plain);
    push_part(&mut parts, write_decimal(counts.tagged as u64), Emphasis::Good);
    push_part(&mut parts, " files tagged, ".to_owned(), Emphasis::Plain);
    push_part(&mut parts, write_decimal(counts.skipped as u64), Emphasis::Faint);
    push_part(&mut parts, " skipped, ".to_owned(), Emphasis::Plain);
    push_part(&mut parts, write_decimal(counts.failed as u64), Emphasis::Bad);
    push_part(&mut parts, " failed".to_owned(), Emphasis::Plain);
    assert(line_text(parts@) =~= tag_summary_text(*counts));
    parts
}

/// A query asks for the title of a recording, for the artist where one is given, and for the
/// release where one is given.
pub proof fn lemma_query_names_what_is_known(
    title: Seq<char>,
    artist: Option<Seq<char>>,
    album: Option<Seq<char>>,
)
    ensures
        match (artist, album) {
            (Some(a), Some(r)) => query_text(title, artist, album) == "recording:\""@ + title
                + "\" AND artist:\""@ + a + "\" AND release:\""@ + r + "\""@,
            (Some(a), None) => query_text(title, artist, album) == "recording:\""@ + title
                + "\" AND artist:\""@ + a + "\""@,
            (None, Some(r)) => query_text(title, artist, album) == "recording:\""@ + title
                + "\" AND release:\""@ + r + "\""@,
            (None, None) => query_text(title, artist, album) == "recording:\""@ + title + "\""@,
        },
{
    reveal_strlit("recording");
    reveal_strlit("artist");
    reveal_strlit("release");
    reveal_strlit(":\"");
    reveal_strlit("\"");
    reveal_strlit(" AND ");
    reveal_strlit("recording:\"");
    reveal_strlit("\" AND artist:\"");
    reveal_strlit("\" AND release:\"");
    assert("recording"@ + ":\""@ =~= "recording:\""@);
    assert("\""@ + (" AND "@ + ("artist"@ + ":\""@)) =~= "\" AND artist:\""@);
    assert("\""@ + (" AND "@ + ("release"@ + ":\""@)) =~= "\" AND release:\""@);
    let text = query_text(title, artist, album);
    match (artist, album) {
        (Some(a), Some(r)) => {
            assert(text =~= "recording:\""@ + title + "\" AND artist:\""@ + a
                + "\" AND release:\""@ + r + "\""@);
        },
        (Some(a), None) => {
            assert(text =~= "recording:\""@ + title + "\" AND artist:\""@ + a + "\""@);
        },
        (None, Some(r)) => {
            assert(text =~= "recording:\""@ + title + "\" AND release:\""@ + r + "\""@);
        },
        (None, None) => {
            assert(text =~= "recording:\""@ + title + "\""@);
        },
    }
}

/// The tags of a file are shown one after the other, with commas between them.
pub proof fn lemma_tags_are_joined(existing: ExistingView)
    ensures
        ({
            let line = comma_joined(current_tags_parts(existing));
            match (existing.artist, existing.title, existing.album) {
                (Some(a), Some(t), Some(r)) => line == "artist="@ + a + ", "@ + ("title="@ + t)
                    + ", "@ + ("album="@ + r),
                (Some(a), Some(t), None) => line == "artist="@ + a + ", "@ + ("title="@ + t),
                (Some(a), None, Some(r)) => line == "artist="@ + a + ", "@ + ("album="@ + r),
                (Some(a), None, None) => line == "artist="@ + a,
                (None, Some(t), Some(r)) => line == "title="@ + t + ", "@ + ("album="@ + r),
                (None, Some(t), None) => line == "title="@ + t,
                (None, None, Some(r)) => line == "album="@ + r,
                (None, None, None) => line.len() == 0,
            }
        }),
{
    reveal_with_fuel(comma_joined, 4);
    let parts = current_tags_parts(existing);
    match (existing.artist, existing.title, existing.album) {
        (Some(a), Some(t), Some(r)) => {
            assert(parts =~= seq!["artist="@ + a, "title="@ + t, "album="@ + r]);
            assert(parts.drop_last() =~= seq!["artist="@ + a, "title="@ + t]);
            assert(parts.drop_last().drop_last() =~= seq!["artist="@ + a]);
        },
        (Some(a), Some(t), None) => {
            assert(parts =~= seq!["artist="@ + a, "title="@ + t]);
            assert(parts.drop_last() =~= seq!["artist="@ + a]);
        },
        (Some(a), None, Some(r)) => {
            assert(parts =~= seq!["artist="@ + a, "album="@ + r]);
            assert(parts.drop_last() =~= seq!["artist="@ + a]);
        },
        (Some(a), None, None) => {
            assert(parts =~= seq!["artist="@ + a]);
        },
        (None, Some(t), Some(r)) => {
            assert(parts =~= seq!["title="@ + t, "album="@ + r]);
            assert(parts.drop_last() =~= seq!["title="@ + t]);
        },
        (None, Some(t), None) => {
            assert(parts =~= seq!["title="@ + t]);
        },
        (None, None, Some(r)) => {
            assert(parts =~= seq!["album="@ + r]);
        },
        (None, None, None) => {
            assert(parts =~= Seq::<Seq<char>>::empty());
        },
    }
}

} // verus!

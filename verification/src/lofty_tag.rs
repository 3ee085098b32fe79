//! Audio tags as `lofty` holds them: which texts a tag has, and how they are read and written.

use crate::number::{all_digits, decimal_value, digits_value};
use crate::text::{is_blank, is_white_space, lemma_trimmed_blank, str_of, text_of, trim};
use lofty::tag::{Accessor, ItemKey, Tag, TagType};
use vstd::prelude::*;

verus! {

/// `lofty::tag::ItemKey`, the keys of a tag's items: a plain enumeration.
#[verifier::external_type_specification]
pub struct ExItemKey(lofty::tag::ItemKey);

/// `lofty::tag::TagType`, the formats of tags: a plain enumeration.
#[verifier::external_type_specification]
pub struct ExTagType(lofty::tag::TagType);

/// `lofty::tag::Tag`, a collection of items under keys.
#[verifier::external_type_specification]
#[verifier::external_body]
pub struct ExTag(lofty::tag::Tag);

/// The texts that a tag holds: under each key, the text of the first item with that key, where
/// that item is a text.
pub uninterp spec fn tag_texts(tag: Tag) -> Map<ItemKey, Seq<char>>;

/// The texts of a tag without items.
pub open spec fn no_texts() -> Map<ItemKey, Seq<char>> {
    Map::empty()
}

/// The format that a tag was made for.
pub uninterp spec fn format_of(tag: Tag) -> TagType;

/// The keys under which tags of a format can hold an item, according to the tables of `lofty`.
pub uninterp spec fn supported_keys(format: TagType) -> Set<ItemKey>;

/// The formats of primary tags.
pub open spec fn is_primary_format(format: TagType) -> bool {
    match format {
        TagType::Id3v2 | TagType::Ape | TagType::VorbisComments | TagType::Mp4Ilst => true,
        _ => false,
    }
}

/// The keys under which this library writes.
pub open spec fn is_written_key(key: ItemKey) -> bool {
    match key {
        ItemKey::TrackTitle | ItemKey::TrackArtist | ItemKey::AlbumTitle => true,
        ItemKey::AlbumArtist | ItemKey::RecordingDate | ItemKey::TrackNumber => true,
        ItemKey::MusicBrainzRecordingId => true,
        ItemKey::ReplayGainTrackGain | ItemKey::ReplayGainTrackPeak => true,
        ItemKey::ReplayGainAlbumGain | ItemKey::ReplayGainAlbumPeak => true,
        _ => false,
    }
}

/// Tags of a format can hold an item under a key, given the keys that are supported. Primary tags
/// can under all keys that this library writes.
pub open spec fn can_hold(format: TagType, key: ItemKey, supported: Set<ItemKey>) -> bool {
    (is_primary_format(format) && is_written_key(key)) || supported.contains(key)
}

/// Tags of a format can hold an item under a key.
pub open spec fn holds_key(format: TagType, key: ItemKey) -> bool {
    can_hold(format, key, supported_keys(format))
}

/// The year that `lofty::tag::items::Timestamp::parse` reads, in its relaxed mode, from a date
/// that is written otherwise than as four digits.
pub uninterp spec fn timestamp_year(date: Seq<char>) -> Option<u16>;

/// `lofty::tag::Tag::new` makes a tag of the given format that holds no items.
pub assume_specification[ Tag::new ](tag_type: TagType) -> (tag: Tag)
    ensures
        tag_texts(tag) == no_texts(),
        format_of(tag) == tag_type,
;

/// `lofty::tag::Tag::get_string` looks for the first item with the key and gives its text,
/// where it is a text.
pub assume_specification[ Tag::get_string ](tag: &Tag, item_key: ItemKey) -> (text: Option<&str>)
    ensures
        str_of(text) == tag_texts(*tag).get(item_key),
;

/// `lofty::tag::Tag::insert_text` does nothing where the tag's format has no place for the key.
/// Elsewhere it takes out all items with the key and puts the text in their place. It reports
/// which of the two happened. The tables of `lofty` have a place in the formats of primary tags
/// for all keys that this library writes; of other formats and keys that is not spelled out here.
pub assume_specification[ Tag::insert_text ](
    tag: &mut Tag,
    item_key: ItemKey,
    text: String,
) -> (inserted: bool)
    ensures
        inserted == can_hold(
            format_of(*old(tag)),
            item_key,
            supported_keys(format_of(*old(tag))),
        ),
        format_of(*final(tag)) == format_of(*old(tag)),
        tag_texts(*final(tag)) == (if inserted {
            tag_texts(*old(tag)).insert(item_key, text@)
        } else {
            tag_texts(*old(tag))
        }),
;

/// Calls `track` of `lofty::tag::Accessor` on a tag, which reads the text of the track number
/// as a 32-bit unsigned number in the way of `str::parse`.
#[verifier::external_body]
pub(crate) fn track_number(tag: &Tag) -> (track: Option<u32>)
    ensures
        match track {
            Some(n) => track_in(tag_texts(*tag)) == Some(n as nat),
            None => track_in(tag_texts(*tag)) is None,
        },
{
    tag.track()
}

/// Calls `date` of `lofty::tag::Accessor` on a tag and keeps the year. It parses the recording
/// date or, where there is none, the year. A date of four digits is a year; what is read from
/// others is not spelled out here.
#[verifier::external_body]
pub(crate) fn date_year(tag: &Tag) -> (year: Option<u16>)
    ensures
        year == (match date_in(tag_texts(*tag)) {
            Some(date) => year_of(date, timestamp_year(date)),
            None => None,
        }),
{
    tag.date().map(|timestamp| timestamp.year)
}

/// A date that is just a year of four digits.
pub open spec fn is_plain_year(date: Seq<char>) -> bool {
    date.len() == 4 && all_digits(date)
}

/// The year of a date: the date itself where it is just a year, else what was parsed.
pub open spec fn year_of(date: Seq<char>, parsed: Option<u16>) -> Option<u16> {
    if is_plain_year(date) {
        Some(digits_value(date) as u16)
    } else {
        parsed
    }
}

/// The track number among the texts of a tag.
pub open spec fn track_in(texts: Map<ItemKey, Seq<char>>) -> Option<nat> {
    match texts.get(ItemKey::TrackNumber) {
        Some(text) => decimal_value(text, u32::MAX as nat),
        None => None,
    }
}

/// The date among the texts of a tag: the recording date before the year.
pub open spec fn date_in(texts: Map<ItemKey, Seq<char>>) -> Option<Seq<char>> {
    match texts.get(ItemKey::RecordingDate) {
        Some(date) => Some(date),
        None => texts.get(ItemKey::Year),
    }
}

/// The year of the date among the texts of a tag.
pub open spec fn year_in(texts: Map<ItemKey, Seq<char>>) -> Option<u16> {
    match date_in(texts) {
        Some(date) => year_of(date, timestamp_year(date)),
        None => None,
    }
}

/// There is a text under the key, and it is more than white space.
pub open spec fn has_text_under(texts: Map<ItemKey, Seq<char>>, key: ItemKey) -> bool {
    texts.contains_key(key) && !is_blank(texts[key])
}

/// The texts after one insertion into a tag of the given format.
pub open spec fn with_text(
    texts: Map<ItemKey, Seq<char>>,
    format: TagType,
    key: ItemKey,
    text: Seq<char>,
) -> Map<ItemKey, Seq<char>> {
    if holds_key(format, key) {
        texts.insert(key, text)
    } else {
        texts
    }
}

/// The texts after the insertion of a text that may be missing.
pub open spec fn with_optional_text(
    texts: Map<ItemKey, Seq<char>>,
    format: TagType,
    key: ItemKey,
    text: Option<Seq<char>>,
) -> Map<ItemKey, Seq<char>> {
    match text {
        Some(t) => with_text(texts, format, key, t),
        None => texts,
    }
}

/// The texts of a tag that may be missing.
pub open spec fn texts_in(tag: Option<&Tag>) -> Option<Map<ItemKey, Seq<char>>> {
    match tag {
        Some(t) => Some(tag_texts(*t)),
        None => None,
    }
}

/// A copy of the text under a key.
pub fn text_under(tag: &Tag, key: ItemKey) -> (text: Option<String>)
    ensures
        text_of(text) == tag_texts(*tag).get(key),
        text is Some == tag_texts(*tag).contains_key(key),
        text matches Some(t) ==> t@ == tag_texts(*tag)[key],
{
    match tag.get_string(key) {
        Some(text) => Some(text.to_owned()),
        None => None,
    }
}

/// Whether there is a text under the key that is more than white space.
pub fn has_text(tag: &Tag, key: ItemKey) -> (has: bool)
    ensures
        has == has_text_under(tag_texts(*tag), key),
        has == (tag_texts(*tag).contains_key(key) && exists|i: int|
            0 <= i < tag_texts(*tag)[key].len() && !is_white_space(
                #[trigger] tag_texts(*tag)[key][i],
            )),
{
    match tag.get_string(key) {
        Some(text) => {
            proof {
                lemma_trimmed_blank(text@);
            }
            !trim(text).as_str().is_empty()
        },
        None => false,
    }
}

/// Puts a text under a key, where there is a text.
pub fn insert_optional_text(tag: &mut Tag, key: ItemKey, text: &Option<String>)
    ensures
        format_of(*final(tag)) == format_of(*old(tag)),
        tag_texts(*final(tag)) == with_optional_text(
            tag_texts(*old(tag)),
            format_of(*old(tag)),
            key,
            text_of(*text),
        ),
        text is None ==> tag_texts(*final(tag)) == tag_texts(*old(tag)),
        text matches Some(t) ==> tag_texts(*final(tag)) == (if holds_key(
            format_of(*old(tag)),
            key,
        ) {
            tag_texts(*old(tag)).insert(key, t@)
        } else {
            tag_texts(*old(tag))
        }),
{
    if let Some(t) = text {
        tag.insert_text(key, t.clone());
    }
}

/// Primary tags have a place for all keys under which this library writes.
pub proof fn lemma_primary_tags_hold_written_keys(format: TagType)
    requires
        format == TagType::Id3v2 || format == TagType::Ape || format == TagType::VorbisComments
            || format == TagType::Mp4Ilst,
    ensures
        holds_key(format, ItemKey::TrackTitle),
        holds_key(format, ItemKey::TrackArtist),
        holds_key(format, ItemKey::AlbumTitle),
        holds_key(format, ItemKey::AlbumArtist),
        holds_key(format, ItemKey::RecordingDate),
        holds_key(format, ItemKey::TrackNumber),
        holds_key(format, ItemKey::MusicBrainzRecordingId),
        holds_key(format, ItemKey::ReplayGainTrackGain),
        holds_key(format, ItemKey::ReplayGainTrackPeak),
        holds_key(format, ItemKey::ReplayGainAlbumGain),
        holds_key(format, ItemKey::ReplayGainAlbumPeak),
{
}

} // verus!

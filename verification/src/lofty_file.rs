//! Tagged audio files as `lofty` holds them: which tags a file has, which of them is read, and
//! which is written.

use crate::lofty_tag::{format_of, no_texts, tag_texts};
use lofty::file::{FileType, TaggedFile, TaggedFileExt};
use lofty::tag::{ItemKey, Tag, TagType};
use vstd::prelude::*;

verus! {

/// `lofty::file::FileType`, the types of files: a plain enumeration.
#[verifier::external_type_specification]
pub struct ExFileType(lofty::file::FileType);

/// `lofty::file::TaggedFile`, a file of some type with its tags.
#[verifier::external_type_specification]
#[verifier::external_body]
pub struct ExTaggedFile(lofty::file::TaggedFile);

/// The tags that a file holds.
pub uninterp spec fn tags_in(file: TaggedFile) -> Seq<Tag>;

/// The type of a file.
pub uninterp spec fn type_of(file: TaggedFile) -> FileType;

/// The format of the primary tag of files of a type. There is none for custom types: theirs
/// depends on the resolvers that are registered with `lofty` at the time.
pub open spec fn primary_format(ty: FileType) -> Option<TagType> {
    match ty {
        FileType::Aac | FileType::Aiff | FileType::Mpeg | FileType::Wav => Some(TagType::Id3v2),
        FileType::Ape | FileType::Mpc | FileType::WavPack => Some(TagType::Ape),
        FileType::Flac | FileType::Opus | FileType::Vorbis | FileType::Speex => Some(
            TagType::VorbisComments,
        ),
        FileType::Mp4 => Some(TagType::Mp4Ilst),
        _ => None,
    }
}

/// The place of the first tag of a format, from `from` on; the number of tags where there is
/// none.
pub open spec fn place_of_format(tags: Seq<Tag>, format: TagType, from: int) -> int
    decreases tags.len() - from,
{
    if from >= tags.len() {
        tags.len() as int
    } else if format_of(tags[from]) == format {
        from
    } else {
        place_of_format(tags, format, from + 1)
    }
}

/// The first tag of a format.
pub open spec fn tag_of_format(tags: Seq<Tag>, format: TagType) -> Option<Tag> {
    let place = place_of_format(tags, format, 0);
    if place < tags.len() {
        Some(tags[place])
    } else {
        None
    }
}

/// A tag that may be missing, apart from how it is borrowed.
pub open spec fn borrowed_tag(tag: Option<&Tag>) -> Option<Tag> {
    match tag {
        Some(t) => Some(*t),
        None => None,
    }
}

/// Calls `file_type` of `lofty::file::TaggedFileExt`, which gives the type of the file.
#[verifier::external_body]
pub(crate) fn file_type(file: &TaggedFile) -> (ty: FileType)
    ensures
        ty == type_of(*file),
{
    file.file_type()
}

/// Calls `primary_tag_type` of `lofty::file::TaggedFileExt`, which gives the format of the primary
/// tag by the type of the file. It is not called for custom types, for which it may panic.
#[verifier::external_body]
pub(crate) fn primary_tag_type(file: &TaggedFile) -> (format: TagType)
    requires
        primary_format(type_of(*file)) is Some,
    ensures
        Some(format) == primary_format(type_of(*file)),
{
    file.primary_tag_type()
}

/// Calls `primary_tag` of `lofty::file::TaggedFileExt`, which gives the first tag of the primary
/// format. It is not called for custom types, for which it may panic.
#[verifier::external_body]
pub(crate) fn primary_tag(file: &TaggedFile) -> (tag: Option<&Tag>)
    requires
        primary_format(type_of(*file)) is Some,
    ensures
        borrowed_tag(tag) == tag_of_format(
            tags_in(*file),
            primary_format(type_of(*file)).unwrap(),
        ),
{
    file.primary_tag()
}

/// Calls `first_tag` of `lofty::file::TaggedFileExt`, which gives the first of all tags.
#[verifier::external_body]
pub(crate) fn first_tag(file: &TaggedFile) -> (tag: Option<&Tag>)
    ensures
        borrowed_tag(tag) == (if tags_in(*file).len() > 0 {
            Some(tags_in(*file)[0])
        } else {
            None
        }),
{
    file.first_tag()
}

/// Calls `insert_tag` of `lofty::file::TaggedFileExt` with a tag of the primary format. It takes
/// out the first tag of that format, where there is one, puts the new one at the end, and gives
/// the old one back. Files of a type that is not custom can hold tags of their primary format;
/// what is done with tags of other formats is not stated.
#[verifier::external_body]
pub(crate) fn insert_tag(file: &mut TaggedFile, tag: Tag) -> (replaced: Option<Tag>)
    requires
        primary_format(type_of(*old(file))) == Some(format_of(tag)),
    ensures
        type_of(*final(file)) == type_of(*old(file)),
        replaced == tag_of_format(tags_in(*old(file)), format_of(tag)),
        tags_in(*final(file)) == (if replaced is Some {
            tags_in(*old(file)).remove(
                place_of_format(tags_in(*old(file)), format_of(tag), 0),
            ).push(tag)
        } else {
            tags_in(*old(file)).push(tag)
        }),
{
    file.insert_tag(tag)
}

/// Calls `primary_tag_mut` of `lofty::file::TaggedFileExt`, which gives the first tag of the
/// primary format to be changed in its place. It is not called for custom types, for which it may
/// panic.
#[verifier::external_body]
pub(crate) fn primary_tag_mut(file: &mut TaggedFile) -> (tag: Option<&mut Tag>)
    requires
        primary_format(type_of(*old(file))) is Some,
    ensures
        type_of(*final(file)) == type_of(*old(file)),
        ({
            let tags = tags_in(*old(file));
            let place = place_of_format(tags, primary_format(type_of(*old(file))).unwrap(), 0);
            match tag {
                Some(t) => place < tags.len() && *t == tags[place] && tags_in(*final(file))
                    == tags.update(place, *final(t)),
                None => place == tags.len() && tags_in(*final(file)) == tags,
            }
        }),
{
    file.primary_tag_mut()
}

/// Whether the type of a file is one of those that `lofty` itself knows, and not a custom one.
pub fn is_built_in(file: &TaggedFile) -> (built_in: bool)
    ensures
        built_in == (primary_format(type_of(*file)) is Some),
{
    match file_type(file) {
        FileType::Aac | FileType::Aiff | FileType::Mpeg | FileType::Wav => true,
        FileType::Ape | FileType::Mpc | FileType::WavPack => true,
        FileType::Flac | FileType::Opus | FileType::Vorbis | FileType::Speex => true,
        FileType::Mp4 => true,
        _ => false,
    }
}

/// The tag that is read: the primary one or, where there is none, the first one.
pub open spec fn tag_to_read(primary: Option<Tag>, first: Option<Tag>) -> Option<Tag> {
    if primary is Some {
        primary
    } else {
        first
    }
}

/// The tag that is read of a file whose primary tag has this format.
pub open spec fn tag_read_of(tags: Seq<Tag>, format: TagType) -> Option<Tag> {
    tag_to_read(
        tag_of_format(tags, format),
        if tags.len() > 0 {
            Some(tags[0])
        } else {
            None
        },
    )
}

/// The texts that are read of a file whose primary tag has this format, where it has tags.
pub open spec fn texts_read_of(
    tags: Seq<Tag>,
    format: TagType,
) -> Option<Map<ItemKey, Seq<char>>> {
    match tag_read_of(tags, format) {
        Some(tag) => Some(tag_texts(tag)),
        None => None,
    }
}

/// The texts of the primary tag of a file, of which there are none where it has no primary tag.
pub open spec fn primary_texts(tags: Seq<Tag>, format: TagType) -> Map<ItemKey, Seq<char>> {
    match tag_of_format(tags, format) {
        Some(tag) => tag_texts(tag),
        None => no_texts(),
    }
}

/// `after` is what the tags of a file become when its primary tag gets these texts.
pub open spec fn has_new_texts(
    before: Seq<Tag>,
    format: TagType,
    after: Seq<Tag>,
    texts: Map<ItemKey, Seq<char>>,
) -> bool {
    exists|written: Tag|
        {
            &&& after == #[trigger] tags_with_primary(before, format, written)
            &&& format_of(written) == format
            &&& tag_texts(written) == texts
        }
}

/// Picks the tag that is read: the primary one or, where there is none, the first one.
pub fn usable_tag<'a>(primary: Option<&'a Tag>, first: Option<&'a Tag>) -> (tag: Option<&'a Tag>)
    ensures
        borrowed_tag(tag) == tag_to_read(borrowed_tag(primary), borrowed_tag(first)),
        primary is Some ==> tag == primary,
        primary is None ==> tag == first,
{
    match primary {
        Some(tag) => Some(tag),
        None => first,
    }
}

/// What there is to read in a file.
pub enum FileTag<'a> {
    /// This tag.
    Found(&'a Tag),
    /// Nothing: the file has no tags.
    Missing,
    /// Whatever the resolver of the file's custom type says.
    Custom,
}

/// Finds the tag of a file that is read.
pub fn readable_tag<'a>(file: &'a TaggedFile) -> (tag: FileTag<'a>)
    ensures
        match tag {
            FileTag::Found(t) => primary_format(type_of(*file)) matches Some(format)
                && tag_read_of(tags_in(*file), format) == Some(*t),
            FileTag::Missing => primary_format(type_of(*file)) matches Some(format)
                && tag_read_of(tags_in(*file), format) is None,
            FileTag::Custom => primary_format(type_of(*file)) is None,
        },
{
    if !is_built_in(file) {
        return FileTag::Custom;
    }
    match usable_tag(primary_tag(file), first_tag(file)) {
        Some(tag) => FileTag::Found(tag),
        None => FileTag::Missing,
    }
}

/// The tags of a file after its primary tag has become `written`: in the place of the one that
/// there was, or at the end.
pub open spec fn tags_with_primary(tags: Seq<Tag>, format: TagType, written: Tag) -> Seq<Tag> {
    let place = place_of_format(tags, format, 0);
    if place < tags.len() {
        tags.update(place, written)
    } else {
        tags.push(written)
    }
}

/// The primary tag of a file, to be changed in its place. Where the file has none yet, an empty
/// one is put into it. For files of custom types there is nothing.
pub fn writable_tag(file: &mut TaggedFile) -> (tag: Option<&mut Tag>)
    ensures
        type_of(*final(file)) == type_of(*old(file)),
        match tag {
            Some(t) => {
                &&& primary_format(type_of(*old(file))) matches Some(format)
                &&& format_of(*t) == format
                &&& tag_texts(*t) == primary_texts(tags_in(*old(file)), format)
                &&& tag_of_format(tags_in(*old(file)), format) matches Some(old_tag) ==> *t
                    == old_tag
                &&& tags_in(*final(file)) == tags_with_primary(
                    tags_in(*old(file)),
                    format,
                    *final(t),
                )
            },
            None => primary_format(type_of(*old(file))) is None && *final(file) == *old(file),
        },
{
    if !is_built_in(file) {
        return None;
    }
    let ghost before = tags_in(*file);
    let ghost format = primary_format(type_of(*file)).unwrap();
    proof {
        lemma_place_has_format(before, format, 0);
    }
    if primary_tag(file).is_none() {
        let tag = Tag::new(primary_tag_type(file));
        proof {
            lemma_place_grows(before, format, 0);
            lemma_place_after_push(before, format, tag, 0);
        }
        insert_tag(file, tag);
        assert forall|written: Tag| tags_in(*file).update(before.len() as int, written) == (
        #[trigger] before.push(written)) by {
            assert(tags_in(*file).update(before.len() as int, written) =~= before.push(written));
        }
    }
    primary_tag_mut(file)
}

/// A tag at the end of tags none of which has its format is the first of its format.
proof fn lemma_place_after_push(tags: Seq<Tag>, format: TagType, tag: Tag, from: int)
    requires
        0 <= from <= tags.len(),
        place_of_format(tags, format, from) == tags.len(),
        format_of(tag) == format,
    ensures
        place_of_format(tags.push(tag), format, from) == tags.len(),
    decreases tags.len() - from,
{
    if from < tags.len() {
        lemma_place_after_push(tags, format, tag, from + 1);
    }
}

/// A tag that takes the place of the first one of its format is the first of its format.
proof fn lemma_place_after_update(tags: Seq<Tag>, format: TagType, tag: Tag, from: int)
    requires
        0 <= from <= place_of_format(tags, format, from) < tags.len(),
        format_of(tag) == format,
    ensures
        place_of_format(
            tags.update(place_of_format(tags, format, from), tag),
            format,
            from,
        ) == place_of_format(tags, format, from),
    decreases tags.len() - from,
{
    if format_of(tags[from]) != format {
        lemma_place_grows(tags, format, from + 1);
        lemma_place_after_update(tags, format, tag, from + 1);
    }
}

/// The place of a format is not before the place from which on it is looked for.
proof fn lemma_place_grows(tags: Seq<Tag>, format: TagType, from: int)
    requires
        0 <= from <= tags.len(),
    ensures
        from <= place_of_format(tags, format, from) <= tags.len(),
    decreases tags.len() - from,
{
    if from < tags.len() {
        lemma_place_grows(tags, format, from + 1);
    }
}

/// At the place of a format there is a tag of that format.
proof fn lemma_place_has_format(tags: Seq<Tag>, format: TagType, from: int)
    requires
        0 <= from <= tags.len(),
    ensures
        place_of_format(tags, format, from) < tags.len() ==> 0 <= place_of_format(
            tags,
            format,
            from,
        ) && format_of(tags[place_of_format(tags, format, from)]) == format,
    decreases tags.len() - from,
{
    if from < tags.len() {
        lemma_place_has_format(tags, format, from + 1);
    }
}

/// The tag that was written to a file is the one that is read from it, unless its format has been
/// changed.
pub proof fn lemma_written_tag_is_read(tags: Seq<Tag>, format: TagType, written: Tag)
    requires
        format_of(written) == format,
    ensures
        tag_read_of(tags_with_primary(tags, format, written), format) == Some(written),
{
    lemma_place_grows(tags, format, 0);
    if place_of_format(tags, format, 0) < tags.len() {
        lemma_place_after_update(tags, format, written, 0);
    } else {
        lemma_place_after_push(tags, format, written, 0);
    }
}

/// What is read of a file is what was written to it.
pub proof fn lemma_new_texts_are_read(
    before: Seq<Tag>,
    format: TagType,
    after: Seq<Tag>,
    texts: Map<ItemKey, Seq<char>>,
)
    requires
        has_new_texts(before, format, after, texts),
    ensures
        texts_read_of(after, format) == Some(texts),
{
    let written = choose|written: Tag|
        {
            &&& after == #[trigger] tags_with_primary(before, format, written)
            &&& format_of(written) == format
            &&& tag_texts(written) == texts
        };
    lemma_written_tag_is_read(before, format, written);
}

/// What is read of a file is its first tag in the format of primary tags or, where it has none, its
/// first tag. Nothing is read only of a file without tags.
pub proof fn lemma_primary_tag_is_read_first(tags: Seq<Tag>, format: TagType)
    ensures
        tag_read_of(tags, format) is None <==> tags.len() == 0,
        tag_read_of(tags, format) matches Some(tag) ==> exists|i: int|
            0 <= i < tags.len() && #[trigger] tags[i] == tag && ((format_of(tag) == format
                && forall|j: int| 0 <= j < i ==> format_of(#[trigger] tags[j]) != format) || (i == 0
                && forall|j: int| 0 <= j < tags.len() ==> format_of(#[trigger] tags[j]) != format)),
        tag_read_of(tags, format) matches Some(tag) ==> texts_read_of(tags, format) == Some(
            tag_texts(tag),
        ),
        tag_read_of(tags, format) is None ==> texts_read_of(tags, format) is None,
{
    let place = place_of_format(tags, format, 0);
    lemma_place_grows(tags, format, 0);
    lemma_place_has_format(tags, format, 0);
    lemma_place_is_first(tags, format, 0);
    if place < tags.len() {
        assert(tags[place] == tag_read_of(tags, format).unwrap());
    } else if tags.len() > 0 {
        assert(tags[0] == tag_read_of(tags, format).unwrap());
    }
}

/// Before the place of a format there is no tag of that format.
proof fn lemma_place_is_first(tags: Seq<Tag>, format: TagType, from: int)
    requires
        0 <= from <= tags.len(),
    ensures
        forall|j: int|
            from <= j < place_of_format(tags, format, from) ==> format_of(#[trigger] tags[j])
                != format,
    decreases tags.len() - from,
{
    if from < tags.len() && format_of(tags[from]) != format {
        lemma_place_is_first(tags, format, from + 1);
    }
}

/// Writing to a file changes just one tag: the first in the format of primary tags, which is put
/// after the others where there is none.
pub proof fn lemma_other_tags_are_kept(tags: Seq<Tag>, format: TagType, written: Tag)
    ensures
        ({
            let after = tags_with_primary(tags, format, written);
            ||| {
                &&& after == tags.push(written)
                &&& forall|j: int| 0 <= j < tags.len() ==> format_of(#[trigger] tags[j]) != format
            }
            ||| exists|i: int|
                {
                    &&& 0 <= i < tags.len()
                    &&& after == #[trigger] tags.update(i, written)
                    &&& format_of(tags[i]) == format
                    &&& forall|j: int| 0 <= j < i ==> format_of(#[trigger] tags[j]) != format
                }
        }),
{
    let place = place_of_format(tags, format, 0);
    lemma_place_grows(tags, format, 0);
    lemma_place_has_format(tags, format, 0);
    lemma_place_is_first(tags, format, 0);
    if place < tags.len() {
        assert(tags_with_primary(tags, format, written) == tags.update(place, written));
    }
}

/// The texts of the primary tag of a file are those of its first tag in the format of primary tags.
pub proof fn lemma_primary_texts_are_of_the_first(tags: Seq<Tag>, format: TagType)
    ensures
        (forall|j: int| 0 <= j < tags.len() ==> format_of(#[trigger] tags[j]) != format)
            ==> primary_texts(tags, format) == Map::<ItemKey, Seq<char>>::empty(),
        forall|i: int|
            0 <= i < tags.len() && format_of(#[trigger] tags[i]) == format && (forall|j: int|
                0 <= j < i ==> format_of(#[trigger] tags[j]) != format) ==> primary_texts(
                tags,
                format,
            ) == tag_texts(tags[i]),
{
    let place = place_of_format(tags, format, 0);
    lemma_place_grows(tags, format, 0);
    lemma_place_has_format(tags, format, 0);
    lemma_place_is_first(tags, format, 0);
    assert forall|i: int|
        0 <= i < tags.len() && format_of(#[trigger] tags[i]) == format && (forall|j: int|
            0 <= j < i ==> format_of(#[trigger] tags[j]) != format) implies i == place by {
        if place < i {
            assert(format_of(tags[place]) == format);
        }
    }
}

/// When the primary tag of a file gets new texts, they are what is read of the file, and all other
/// tags stay as they were.
pub proof fn lemma_new_texts_change_one_tag(
    before: Seq<Tag>,
    format: TagType,
    after: Seq<Tag>,
    texts: Map<ItemKey, Seq<char>>,
)
    requires
        has_new_texts(before, format, after, texts),
    ensures
        texts_read_of(after, format) == Some(texts),
        after.len() == before.len() || after.len() == before.len() + 1,
        forall|j: int|
            0 <= j < before.len() && format_of(#[trigger] before[j]) != format ==> after[j]
                == before[j],
        after.len() == before.len() + 1 ==> forall|j: int|
            0 <= j < before.len() ==> format_of(#[trigger] before[j]) != format,
{
    lemma_new_texts_are_read(before, format, after, texts);
    let written = choose|written: Tag|
        {
            &&& after == #[trigger] tags_with_primary(before, format, written)
            &&& format_of(written) == format
            &&& tag_texts(written) == texts
        };
    lemma_place_grows(before, format, 0);
    lemma_place_has_format(before, format, 0);
    lemma_place_is_first(before, format, 0);
}

} // verus!

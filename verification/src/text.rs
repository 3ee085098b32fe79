//! Text as sequences of characters: searching, trimming and case folding.

use vstd::prelude::*;

verus! {

/// The characters of an optional text.
pub open spec fn text_of(text: Option<String>) -> Option<Seq<char>> {
    match text {
        Some(t) => Some(t@),
        None => None,
    }
}

/// The characters of an optional borrowed text.
pub open spec fn str_of(text: Option<&str>) -> Option<Seq<char>> {
    match text {
        Some(t) => Some(t@),
        None => None,
    }
}

/// The contents of a list of texts.
pub open spec fn texts_of(texts: Seq<String>) -> Seq<Seq<char>> {
    texts.map_values(|t: String| t@)
}

/// `pattern` stands in `text` from position `at` on.
pub open spec fn matches_at(text: Seq<char>, pattern: Seq<char>, at: int) -> bool {
    &&& 0 <= at
    &&& at + pattern.len() <= text.len()
    &&& text.subrange(at, at + pattern.len()) == pattern
}

/// `pattern` stands somewhere in `text`. The empty pattern stands in every text.
pub open spec fn occurs_in(text: Seq<char>, pattern: Seq<char>) -> bool {
    exists|at: int| matches_at(text, pattern, at)
}

/// The characters with the Unicode property `White_Space`.
pub open spec fn is_white_space(c: char) -> bool {
    ||| 0x9 <= c as u32 <= 0xd
    ||| c as u32 == 0x20
    ||| c as u32 == 0x85
    ||| c as u32 == 0xa0
    ||| c as u32 == 0x1680
    ||| 0x2000 <= c as u32 <= 0x200a
    ||| c as u32 == 0x2028
    ||| c as u32 == 0x2029
    ||| c as u32 == 0x202f
    ||| c as u32 == 0x205f
    ||| c as u32 == 0x3000
}

/// `text` without the white space at its two ends.
pub open spec fn trimmed(text: Seq<char>) -> Seq<char>
    decreases text.len(),
{
    if text.len() == 0 {
        text
    } else if is_white_space(text[0]) {
        trimmed(text.drop_first())
    } else if is_white_space(text.last()) {
        trimmed(text.drop_last())
    } else {
        text
    }
}

/// Nothing but white space stands in `text`.
pub open spec fn is_blank(text: Seq<char>) -> bool {
    forall|i: int| 0 <= i < text.len() ==> is_white_space(#[trigger] text[i])
}

/// The part of `text` before the first `mark`, or all of it where there is none.
pub open spec fn before_mark(text: Seq<char>, mark: char) -> Seq<char>
    decreases text.len(),
{
    if text.len() == 0 || text[0] == mark {
        Seq::empty()
    } else {
        seq![text[0]] + before_mark(text.drop_first(), mark)
    }
}

/// What `str::to_lowercase` makes of a text.
pub uninterp spec fn lowercase_of(text: Seq<char>) -> Seq<char>;

/// Calls `str::to_lowercase`. The result depends on the text alone. Unicode's case mappings
/// are not spelled out here.
#[verifier::external_body]
pub(crate) fn to_lowercase(text: &str) -> (lower: String)
    ensures
        lower@ == lowercase_of(text@),
{
    text.to_lowercase()
}

/// The characters of `text` in a vector.
pub fn chars_of(text: &str) -> (chars: Vec<char>)
    ensures
        chars@ == text@,
{
    let mut chars: Vec<char> = Vec::new();
    for c in it: text.chars()
        invariant
            it.seq() == text@,
            chars@ == text@.take(it.index() as int),
    {
        assert(text@.take(it.index() + 1) =~= text@.take(it.index() as int).push(text@[it.index() as int]));
        chars.push(c);
    }
    assert(text@.take(text@.len() as int) =~= text@);
    chars
}

/// Whether two texts are the same, character for character.
pub fn same_text(a: &str, b: &str) -> (same: bool)
    ensures
        same == (a@ == b@),
{
    a.to_owned() == b.to_owned()
}

/// Whether `pattern` stands in `text` from position `at` on.
pub fn stands_at(text: &Vec<char>, pattern: &Vec<char>, at: usize) -> (stands: bool)
    ensures
        stands == matches_at(text@, pattern@, at as int),
{
    let n: usize = text.len();
    let m: usize = pattern.len();
    if at > n || m > n - at {
        return false;
    }
    let mut k: usize = 0;
    while k < m
        invariant
            n == text@.len(),
            m == pattern@.len(),
            at + m <= n,
            k <= m,
            forall|j: int| 0 <= j < k ==> text@[at + j] == pattern@[j],
        decreases m - k,
    {
        if text[at + k] != pattern[k] {
            assert(text@.subrange(at as int, at + m)[k as int] != pattern@[k as int]);
            return false;
        }
        k += 1;
    }
    assert(text@.subrange(at as int, at + m) =~= pattern@);
    true
}

/// Whether `pattern` stands somewhere in `text`.
pub fn contains_text(text: &str, pattern: &str) -> (found: bool)
    ensures
        found == occurs_in(text@, pattern@),
        found == exists|before: Seq<char>, after: Seq<char>|
            #[trigger] (before + pattern@ + after) == text@,
{
    proof {
        lemma_occurs_between(text@, pattern@);
    }
    let chars = chars_of(text);
    let wanted = chars_of(pattern);
    let n: usize = chars.len();
    let m: usize = wanted.len();
    if m > n {
        return false;
    }
    let mut at: usize = 0;
    while at <= n - m
        invariant
            n == chars@.len(),
            m == wanted@.len(),
            m <= n,
            at <= n - m + 1,
            chars@ == text@,
            wanted@ == pattern@,
            forall|i: int| 0 <= i < at ==> !matches_at(text@, pattern@, i),
        decreases n - at + 1,
    {
        proof {
            lemma_occurs_between(text@, pattern@);
        }
        if stands_at(&chars, &wanted, at) {
            return true;
        }
        if at == n {
            return false;
        }
        at += 1;
    }
    false
}

/// Whether `c` has the Unicode property `White_Space`.
pub fn white_space(c: char) -> (is: bool)
    ensures
        is == is_white_space(c),
{
    let u: u32 = c as u32;
    (0x9 <= u && u <= 0xd) || u == 0x20 || u == 0x85 || u == 0xa0 || u == 0x1680 || (0x2000 <= u
        && u <= 0x200a) || u == 0x2028 || u == 0x2029 || u == 0x202f || u == 0x205f || u == 0x3000
}

/// `text` without the white space at its two ends.
pub fn trim(text: &str) -> (core: String)
    ensures
        core@ == trimmed(text@),
{
    let chars = chars_of(text);
    let n: usize = chars.len();
    let mut from: usize = 0;
    assert(text@.subrange(0, n as int) =~= text@);
    while from < n && white_space(chars[from])
        invariant
            n == chars@.len(),
            chars@ == text@,
            from <= n,
            trimmed(text@) == trimmed(text@.subrange(from as int, n as int)),
        decreases n - from,
    {
        assert(text@.subrange(from as int, n as int).drop_first() =~= text@.subrange(
            from + 1,
            n as int,
        ));
        from += 1;
    }
    let mut to: usize = n;
    while to > from && white_space(chars[to - 1])
        invariant
            n == chars@.len(),
            chars@ == text@,
            from <= to <= n,
            from < n ==> !is_white_space(text@[from as int]),
            trimmed(text@) == trimmed(text@.subrange(from as int, to as int)),
        decreases to,
    {
        assert(text@.subrange(from as int, to as int).drop_last() =~= text@.subrange(
            from as int,
            to - 1,
        ));
        to -= 1;
    }
    text.substring_char(from, to).to_owned()
}

/// The part of `text` before the first `mark`, or all of it where there is none.
pub fn until_mark(text: &str, mark: char) -> (head: String)
    ensures
        head@ == before_mark(text@, mark),
        head@.len() <= text@.len(),
        head@ == text@.take(head@.len() as int),
        !head@.contains(mark),
        head@.len() < text@.len() ==> text@[head@.len() as int] == mark,
{
    proof {
        lemma_before_mark(text@, mark);
    }
    let chars = chars_of(text);
    let n: usize = chars.len();
    let mut to: usize = 0;
    assert(text@.subrange(0, n as int) =~= text@);
    while to < n && chars[to] != mark
        invariant
            n == chars@.len(),
            chars@ == text@,
            to <= n,
            before_mark(text@, mark) =~= text@.subrange(0, to as int) + before_mark(
                text@.subrange(to as int, n as int),
                mark,
            ),
        decreases n - to,
    {
        assert(text@.subrange(to as int, n as int).drop_first() =~= text@.subrange(
            to + 1,
            n as int,
        ));
        to += 1;
    }
    text.substring_char(0, to).to_owned()
}

/// Trimming keeps one stretch of the text, which neither begins nor ends with white space;
/// what it takes off is white space.
pub proof fn lemma_trimmed_is_middle(text: Seq<char>) -> (ends: (int, int))
    ensures
        0 <= ends.0 <= ends.1 <= text.len(),
        trimmed(text) == text.subrange(ends.0, ends.1),
        is_blank(text.subrange(0, ends.0)),
        is_blank(text.subrange(ends.1, text.len() as int)),
        ends.0 < ends.1 ==> !is_white_space(text[ends.0]) && !is_white_space(text[ends.1 - 1]),
    decreases text.len(),
{
    if text.len() == 0 {
        assert(text.subrange(0, 0) =~= text);
        (0, 0)
    } else if is_white_space(text[0]) {
        let rest = text.drop_first();
        let (from, to) = lemma_trimmed_is_middle(rest);
        assert(text.subrange(from + 1, to + 1) =~= rest.subrange(from, to));
        assert forall|i: int| 0 <= i < from + 1 implies is_white_space(
            #[trigger] text.subrange(0, from + 1)[i],
        ) by {
            if i > 0 {
                assert(rest.subrange(0, from)[i - 1] == text[i]);
            }
        }
        assert(text.subrange(to + 1, text.len() as int) =~= rest.subrange(to, rest.len() as int));
        (from + 1, to + 1)
    } else if is_white_space(text.last()) {
        let rest = text.drop_last();
        let (from, to) = lemma_trimmed_is_middle(rest);
        assert(text.subrange(from, to) =~= rest.subrange(from, to));
        assert(text.subrange(0, from) =~= rest.subrange(0, from));
        assert forall|i: int| 0 <= i < text.len() - to implies is_white_space(
            #[trigger] text.subrange(to, text.len() as int)[i],
        ) by {
            if i < rest.len() - to {
                assert(rest.subrange(to, rest.len() as int)[i] == text[to + i]);
            }
        }
        (from, to)
    } else {
        assert(text.subrange(0, text.len() as int) =~= text);
        (0, text.len() as int)
    }
}

/// Trimming twice is trimming once.
pub proof fn lemma_trimmed_twice(text: Seq<char>)
    ensures
        trimmed(trimmed(text)) == trimmed(text),
{
    let (from, to) = lemma_trimmed_is_middle(text);
    if from < to {
        assert(trimmed(text)[0] == text[from]);
        assert(trimmed(text).last() == text[to - 1]);
    }
}

/// Trimming leaves nothing exactly where there is nothing but white space.
pub proof fn lemma_trimmed_blank(text: Seq<char>)
    ensures
        trimmed(text).len() == 0 <==> is_blank(text),
{
    let (from, to) = lemma_trimmed_is_middle(text);
    if from == to {
        assert forall|i: int| 0 <= i < text.len() implies is_white_space(#[trigger] text[i]) by {
            if i < from {
                assert(text.subrange(0, from)[i] == text[i]);
            } else {
                assert(text.subrange(to, text.len() as int)[i - to] == text[i]);
            }
        }
    }
}

/// A text, or what is shown in its place.
pub open spec fn text_or(text: Option<Seq<char>>, other: Seq<char>) -> Seq<char> {
    match text {
        Some(t) => t,
        None => other,
    }
}

/// A copy of a text, or of what is shown in its place.
pub fn text_or_else(text: &Option<String>, other: &str) -> (shown: String)
    ensures
        shown@ == text_or(text_of(*text), other@),
        text matches Some(t) ==> shown@ == t@,
        text is None ==> shown@ == other@,
{
    match text {
        Some(t) => t.clone(),
        None => other.to_owned(),
    }
}

/// A text occurs in another exactly where the other is made of it with something before it and
/// something after it.
pub proof fn lemma_occurs_between(text: Seq<char>, pattern: Seq<char>)
    ensures
        occurs_in(text, pattern) <==> exists|before: Seq<char>, after: Seq<char>|
            #[trigger] (before + pattern + after) == text,
{
    if occurs_in(text, pattern) {
        let at = choose|at: int| matches_at(text, pattern, at);
        let before = text.take(at);
        let after = text.skip(at + pattern.len());
        assert forall|i: int| 0 <= i < pattern.len() implies text[at + i] == pattern[i] by {
            assert(text.subrange(at, at + pattern.len())[i] == pattern[i]);
        }
        assert(before + pattern + after =~= text);
    }
    if exists|before: Seq<char>, after: Seq<char>| #[trigger] (before + pattern + after) == text {
        let (before, after) = choose|before: Seq<char>, after: Seq<char>|
            #[trigger] (before + pattern + after) == text;
        let at = before.len() as int;
        assert(text.subrange(at, at + pattern.len()) =~= pattern);
        assert(matches_at(text, pattern, at));
    }
}

/// What stands before a mark is the beginning of the text, has no mark in it, and is followed by
/// the mark unless it is all of the text.
pub proof fn lemma_before_mark(text: Seq<char>, mark: char)
    ensures
        before_mark(text, mark).len() <= text.len(),
        before_mark(text, mark) == text.take(before_mark(text, mark).len() as int),
        !before_mark(text, mark).contains(mark),
        before_mark(text, mark).len() < text.len() ==> text[before_mark(text, mark).len() as int]
            == mark,
    decreases text.len(),
{
    if text.len() > 0 && text[0] != mark {
        let rest = text.drop_first();
        lemma_before_mark(rest, mark);
        let head = before_mark(rest, mark);
        let all = before_mark(text, mark);
        assert(all =~= seq![text[0]] + head);
        assert(all =~= text.take(all.len() as int)) by {
            assert forall|i: int| 0 <= i < all.len() implies all[i] == text[i] by {
                if i > 0 {
                    assert(all[i] == head[i - 1]);
                    assert(head[i - 1] == rest.take(head.len() as int)[i - 1]);
                }
            }
        }
        if all.contains(mark) {
            let i = choose|i: int| 0 <= i < all.len() && all[i] == mark;
            assert(head[i - 1] == mark);
            assert(head.contains(mark));
        }
    } else {
        assert(before_mark(text, mark) =~= text.take(0));
    }
}

/// White space around a text that neither begins nor ends with it is all that trimming takes off.
pub proof fn lemma_trimmed_of_padded(before: Seq<char>, core: Seq<char>, after: Seq<char>)
    requires
        is_blank(before),
        is_blank(after),
        core.len() > 0,
        !is_white_space(core[0]),
        !is_white_space(core.last()),
    ensures
        trimmed(before + core + after) == core,
    decreases before.len() + after.len(),
{
    let text = before + core + after;
    if before.len() > 0 {
        assert(is_white_space(before[0]));
        assert(text[0] == before[0]);
        let rest = before.drop_first();
        assert forall|i: int| 0 <= i < rest.len() implies is_white_space(#[trigger] rest[i]) by {
            assert(is_white_space(before[i + 1]));
        }
        assert(text.drop_first() =~= rest + core + after);
        lemma_trimmed_of_padded(rest, core, after);
    } else if after.len() > 0 {
        assert(is_white_space(after[after.len() - 1]));
        assert(text.last() == after.last());
        assert(text[0] == core[0]);
        let rest = after.drop_last();
        assert forall|i: int| 0 <= i < rest.len() implies is_white_space(#[trigger] rest[i]) by {
            assert(is_white_space(after[i]));
        }
        assert(text.drop_last() =~= before + core + rest);
        lemma_trimmed_of_padded(before, core, rest);
    } else {
        assert(text =~= core);
    }
}

/// Trimming takes off all white space at the ends, and nothing else.
pub proof fn lemma_trimming_takes_off_white_space(text: Seq<char>) -> (ends: (int, int))
    ensures
        0 <= ends.0 <= ends.1 <= text.len(),
        trimmed(text) == text.subrange(ends.0, ends.1),
        forall|i: int| 0 <= i < ends.0 ==> is_white_space(#[trigger] text[i]),
        forall|i: int| ends.1 <= i < text.len() ==> is_white_space(#[trigger] text[i]),
        ends.0 < ends.1 ==> !is_white_space(text[ends.0]) && !is_white_space(text[ends.1 - 1]),
{
    let (from, to) = lemma_trimmed_is_middle(text);
    assert forall|i: int| 0 <= i < from implies is_white_space(#[trigger] text[i]) by {
        assert(is_white_space(text.subrange(0, from)[i]));
    }
    assert forall|i: int| to <= i < text.len() implies is_white_space(#[trigger] text[i]) by {
        assert(is_white_space(text.subrange(to, text.len() as int)[i - to]));
    }
    (from, to)
}

/// A text is blank exactly where all its characters are white space.
pub proof fn lemma_blank_is_all_white_space(text: Seq<char>)
    ensures
        is_blank(text) <==> forall|i: int|
            0 <= i < text.len() ==> is_white_space(#[trigger] text[i]),
{
}

/// Texts that may be missing, and lists of texts, hold the characters of their texts.
pub proof fn lemma_texts_show_their_characters(text: String, texts: Seq<String>)
    ensures
        text_of(Some(text)) == Some(text@),
        text_of(None) is None,
        texts_of(texts).len() == texts.len(),
        forall|i: int| 0 <= i < texts.len() ==> #[trigger] texts_of(texts)[i] == texts[i]@,
{
}

/// A borrowed text that may be missing holds the characters of its text.
pub proof fn lemma_borrowed_text_shows_its_characters(text: &str)
    ensures
        str_of(Some(text)) == Some(text@),
        str_of(None) is None,
{
}

} // verus!

//! Albums: files grouped by directory, the newest album and the newest file first.

use crate::order::{
    comes_before, descending_order, is_descending_order, is_ordered, lemma_order_lists_each_once,
    lemma_ordered_lists_agree,
};
use crate::scan::{modified_or_epoch, time_or_epoch};
use vstd::prelude::*;

verus! {

/// A music file: the bytes of its directory's path, where it has a directory, and the time of its
/// last modification in nanoseconds from the Unix epoch on.
pub struct AlbumFile {
    pub parent: Option<Vec<u8>>,
    pub modified: Option<i128>,
}

/// The files of one directory, by their places in the list of files.
pub struct Album {
    pub dir: Vec<u8>,
    pub files: Vec<usize>,
}

impl AlbumFile {
    /// The directory of the file. A file without one is in the current directory.
    pub open spec fn dir(self) -> Seq<u8> {
        match self.parent {
            Some(parent) => parent@,
            None => seq![0x2eu8],
        }
    }
}

/// The times of modification of all files.
pub open spec fn file_times(files: Seq<AlbumFile>) -> Seq<i128> {
    files.map_values(|file: AlbumFile| modified_or_epoch(file.modified))
}

/// The place of the first file in a directory, from `from` on; the number of files where there
/// is none.
pub open spec fn first_in(files: Seq<AlbumFile>, dir: Seq<u8>, from: int) -> int
    decreases files.len() - from,
{
    if from >= files.len() {
        files.len() as int
    } else if files[from].dir() == dir {
        from
    } else {
        first_in(files, dir, from + 1)
    }
}

/// `album` holds the files of its directory, each once, the newest first. Files of one time stay
/// in their order.
pub open spec fn is_album_of(files: Seq<AlbumFile>, album: Album) -> bool {
    &&& album.files@.len() > 0
    &&& forall|i: int|
        0 <= i < album.files@.len() ==> (#[trigger] album.files@[i]) < files.len()
            && files[album.files@[i] as int].dir() == album.dir@
    &&& forall|f: usize|
        f < files.len() && (#[trigger] files[f as int]).dir() == album.dir@
            ==> album.files@.contains(f)
    &&& is_ordered(file_times(files), album.files@)
}

/// The time of an album: that of its newest file.
pub open spec fn album_time(files: Seq<AlbumFile>, album: Album) -> i128 {
    modified_or_epoch(files[album.files@[0] as int].modified)
}

/// Album `a` comes before album `b`: it is newer or, where their times are the same, its first
/// file stands before that of `b`.
pub open spec fn album_before(files: Seq<AlbumFile>, a: Album, b: Album) -> bool {
    ||| album_time(files, a) > album_time(files, b)
    ||| album_time(files, a) == album_time(files, b) && first_in(files, a.dir@, 0) < first_in(
        files,
        b.dir@,
        0,
    )
}

/// There is an album of a directory.
pub open spec fn has_album(albums: Seq<Album>, dir: Seq<u8>) -> bool {
    exists|a: int| 0 <= a < albums.len() && (#[trigger] albums[a]).dir@ == dir
}

/// `albums` holds an album for each directory with files, the newest first.
pub open spec fn is_album_plan(files: Seq<AlbumFile>, albums: Seq<Album>) -> bool {
    &&& forall|a: int| 0 <= a < albums.len() ==> is_album_of(files, #[trigger] albums[a])
    &&& forall|f: int| 0 <= f < files.len() ==> has_album(albums, (#[trigger] files[f]).dir())
    &&& forall|a: int, b: int|
        0 <= a < b < albums.len() ==> #[trigger] album_before(files, albums[a], albums[b])
}

/// A file is in one of the albums.
pub open spec fn holds_file(albums: Seq<Album>, file: usize) -> bool {
    exists|a: int| 0 <= a < albums.len() && (#[trigger] albums[a]).files@.contains(file)
}

/// The number of files in some albums.
pub open spec fn files_in(albums: Seq<Album>) -> nat
    decreases albums.len(),
{
    if albums.len() == 0 {
        0
    } else {
        files_in(albums.drop_last()) + albums.last().files@.len()
    }
}

/// Whether two directories are the same, byte for byte.
fn same_dir(a: &Vec<u8>, b: &Vec<u8>) -> (same: bool)
    ensures
        same == (a@ == b@),
{
    if a.len() != b.len() {
        return false;
    }
    let mut i: usize = 0;
    while i < a.len()
        invariant
            i <= a@.len(),
            a@.len() == b@.len(),
            forall|j: int| 0 <= j < i ==> a@[j] == b@[j],
        decreases a@.len() - i,
    {
        if a[i] != b[i] {
            return false;
        }
        i += 1;
    }
    assert(a@ =~= b@);
    true
}

/// A copy of a list of bytes.
fn copy_dir(dir: &Vec<u8>) -> (copy: Vec<u8>)
    ensures
        copy@ == dir@,
{
    let copy = dir.clone();
    assert(copy@ =~= dir@);
    copy
}

/// The directory of a file.
fn dir_of(file: &AlbumFile) -> (dir: Vec<u8>)
    ensures
        dir@ == file.dir(),
{
    match &file.parent {
        Some(parent) => copy_dir(parent),
        None => {
            let dir: Vec<u8> = vec![0x2e];
            assert(dir@ =~= seq![0x2eu8]);
            dir
        },
    }
}

/// The albums of the first `n` files, as they are while files are still being put into them: in
/// the order in which their first files stand, with their files in order.
spec fn is_grouping(files: Seq<AlbumFile>, albums: Seq<Album>, n: int) -> bool {
    &&& forall|a: int|
        0 <= a < albums.len() ==> (#[trigger] albums[a]).files@.len() > 0
    &&& forall|a: int, i: int|
        0 <= a < albums.len() && 0 <= i < albums[a].files@.len() ==> (
        #[trigger] albums[a].files@[i]) < n && files[albums[a].files@[i] as int].dir()
            == albums[a].dir@
    &&& forall|a: int, i: int, j: int|
        0 <= a < albums.len() && 0 <= i < j < albums[a].files@.len() ==> (
        #[trigger] albums[a].files@[i]) < (#[trigger] albums[a].files@[j])
    &&& forall|a: int, f: int|
        0 <= a < albums.len() && 0 <= f < n && (#[trigger] files[f]).dir() == (
        #[trigger] albums[a]).dir@ ==> albums[a].files@.contains(f as usize)
    &&& forall|f: int| 0 <= f < n ==> has_album(albums, (#[trigger] files[f]).dir())
    &&& forall|a: int, b: int|
        0 <= a < b < albums.len() ==> (#[trigger] albums[a]).dir@ != (#[trigger] albums[b]).dir@
            && albums[a].files@[0] < albums[b].files@[0]
}

/// Where the files of a directory are listed in order, the first of them is the first file of the
/// directory.
proof fn lemma_first_in(files: Seq<AlbumFile>, dir: Seq<u8>, from: int, first: int)
    requires
        0 <= from <= first < files.len(),
        files[first].dir() == dir,
        forall|f: int| from <= f < first ==> (#[trigger] files[f]).dir() != dir,
    ensures
        first_in(files, dir, from) == first,
    decreases first - from,
{
    if from < first {
        lemma_first_in(files, dir, from + 1, first);
    }
}

/// Groups files by directory.
fn group_files(files: &Vec<AlbumFile>) -> (albums: Vec<Album>)
    ensures
        is_grouping(files@, albums@, files@.len() as int),
{
    let mut albums: Vec<Album> = Vec::new();
    let mut n: usize = 0;
    while n < files.len()
        invariant
            n <= files@.len(),
            is_grouping(files@, albums@, n as int),
        decreases files@.len() - n,
    {
        let dir = dir_of(&files[n]);
        let mut a: usize = 0;
        while a < albums.len() && !same_dir(&albums[a].dir, &dir)
            invariant
                a <= albums@.len(),
                forall|b: int| 0 <= b < a ==> (#[trigger] albums@[b]).dir@ != dir@,
            decreases albums@.len() - a,
        {
            a += 1;
        }
        let ghost before = albums@;
        if a < albums.len() {
            albums[a].files.push(n);
            proof {
                lemma_grouping_grows(files@, before, albums@, a as int, n);
            }
        } else {
            albums.push(Album { dir, files: vec![n] });
            assert(albums@.last().files@ =~= seq![n]);
            proof {
                lemma_grouping_gains_album(files@, before, albums@, n);
            }
        }
        n += 1;
    }
    albums
}

/// A file put into the album of its directory keeps the grouping.
proof fn lemma_grouping_grows(
    files: Seq<AlbumFile>,
    before: Seq<Album>,
    after: Seq<Album>,
    at: int,
    n: usize,
)
    requires
        is_grouping(files, before, n as int),
        n < files.len(),
        0 <= at < before.len(),
        before[at].dir@ == files[n as int].dir(),
        after.len() == before.len(),
        forall|a: int| 0 <= a < before.len() && a != at ==> after[a] == before[a],
        after[at].dir == before[at].dir,
        after[at].files@ == before[at].files@.push(n),
    ensures
        is_grouping(files, after, n + 1),
{
    assert forall|a: int| 0 <= a < after.len() implies (#[trigger] after[a]).files@.len() > 0
        && after[a].dir == before[a].dir && after[a].files@[0] == before[a].files@[0] by {
        assert(before[a].files@.len() > 0);
    }
    assert forall|a: int, f: int|
        0 <= a < after.len() && 0 <= f < n + 1 && (#[trigger] files[f]).dir() == (
        #[trigger] after[a]).dir@ implies after[a].files@.contains(f as usize) by {
        if f == n {
            if a != at {
                assert(before[a].dir@ != before[at].dir@);
            }
            assert(after[at].files@[before[at].files@.len() as int] == n);
        } else {
            assert(before[a].files@.contains(f as usize));
            let i = choose|i: int|
                0 <= i < before[a].files@.len() && before[a].files@[i] == f as usize;
            assert(after[a].files@[i] == f as usize);
        }
    }
    assert forall|f: int| 0 <= f < n + 1 implies has_album(after, (#[trigger] files[f]).dir()) by {
        if f == n {
            assert(after[at].dir@ == files[f].dir());
        } else {
            let a = choose|a: int|
                0 <= a < before.len() && (#[trigger] before[a]).dir@ == files[f].dir();
            assert(after[a].dir@ == files[f].dir());
        }
    }
    assert forall|a: int, i: int|
        0 <= a < after.len() && 0 <= i < after[a].files@.len() implies (
    #[trigger] after[a].files@[i]) < n + 1 && files[after[a].files@[i] as int].dir()
        == after[a].dir@ by {
        if a == at && i == before[at].files@.len() {
        } else {
            assert(after[a].files@[i] == before[a].files@[i]);
        }
    }
    assert forall|a: int, i: int, j: int|
        0 <= a < after.len() && 0 <= i < j < after[a].files@.len() implies (
    #[trigger] after[a].files@[i]) < (#[trigger] after[a].files@[j]) by {
        assert(after[a].files@[i] == before[a].files@[i]);
        if a == at && j == before[at].files@.len() {
        } else {
            assert(after[a].files@[j] == before[a].files@[j]);
        }
    }
    assert forall|a: int, b: int| 0 <= a < b < after.len() implies (#[trigger] after[a]).dir@ != (
    #[trigger] after[b]).dir@ && after[a].files@[0] < after[b].files@[0] by {
        assert(before[a].dir@ != before[b].dir@);
    }
}

/// A file put into an album of its own, the first of its directory, keeps the grouping.
proof fn lemma_grouping_gains_album(
    files: Seq<AlbumFile>,
    before: Seq<Album>,
    after: Seq<Album>,
    n: usize,
)
    requires
        is_grouping(files, before, n as int),
        n < files.len(),
        forall|b: int| 0 <= b < before.len() ==> (#[trigger] before[b]).dir@ != files[n as int].dir(),
        after.len() == before.len() + 1,
        forall|a: int| 0 <= a < before.len() ==> after[a] == before[a],
        after.last().dir@ == files[n as int].dir(),
        after.last().files@ == seq![n],
    ensures
        is_grouping(files, after, n + 1),
{
    let new = before.len() as int;
    assert forall|a: int, f: int|
        0 <= a < after.len() && 0 <= f < n + 1 && (#[trigger] files[f]).dir() == (
        #[trigger] after[a]).dir@ implies after[a].files@.contains(f as usize) by {
        if a == new {
            if f < n {
                let b = choose|b: int|
                    0 <= b < before.len() && (#[trigger] before[b]).dir@ == files[f].dir();
                assert(before[b].dir@ != files[n as int].dir());
            }
            assert(after[a].files@[0] == n);
        } else {
            assert(before[a].dir@ == after[a].dir@);
            assert(before[a].files@.contains(f as usize));
        }
    }
    assert forall|f: int| 0 <= f < n + 1 implies has_album(after, (#[trigger] files[f]).dir()) by {
        if f == n {
            assert(after[new].dir@ == files[f].dir());
        } else {
            let a = choose|a: int|
                0 <= a < before.len() && (#[trigger] before[a]).dir@ == files[f].dir();
            assert(after[a].dir@ == files[f].dir());
        }
    }
    assert forall|a: int, i: int|
        0 <= a < after.len() && 0 <= i < after[a].files@.len() implies (
    #[trigger] after[a].files@[i]) < n + 1 && files[after[a].files@[i] as int].dir()
        == after[a].dir@ by {
        if a < new {
            assert(before[a].files@[i] < n);
        }
    }
    assert forall|a: int, i: int, j: int|
        0 <= a < after.len() && 0 <= i < j < after[a].files@.len() implies (
    #[trigger] after[a].files@[i]) < (#[trigger] after[a].files@[j]) by {
        assert(before[a].files@[i] < before[a].files@[j]);
    }
    assert forall|a: int, b: int| 0 <= a < b < after.len() implies (#[trigger] after[a]).dir@ != (
    #[trigger] after[b]).dir@ && after[a].files@[0] < after[b].files@[0] by {
        assert(before[a].files@.len() > 0);
        assert(before[a].files@[0] < n);
        if b < new {
            assert(before[a].dir@ != before[b].dir@);
        }
    }
}

/// Puts the files of an album in order, the newest first.
fn newest_first(files: &Vec<AlbumFile>, members: &Vec<usize>) -> (sorted: Vec<usize>)
    requires
        forall|i: int| 0 <= i < members@.len() ==> (#[trigger] members@[i]) < files@.len(),
        forall|i: int, j: int| 0 <= i < j < members@.len() ==> members@[i] < members@[j],
    ensures
        sorted@.len() == members@.len(),
        forall|i: int| 0 <= i < sorted@.len() ==> members@.contains(#[trigger] sorted@[i]),
        forall|i: int| 0 <= i < members@.len() ==> sorted@.contains(#[trigger] members@[i]),
        is_ordered(file_times(files@), sorted@),
{
    let mut times: Vec<i128> = Vec::new();
    let mut i: usize = 0;
    while i < members.len()
        invariant
            i <= members@.len(),
            times@.len() == i,
            forall|j: int| 0 <= j < members@.len() ==> (#[trigger] members@[j]) < files@.len(),
            forall|j: int|
                0 <= j < i ==> #[trigger] times@[j] == file_times(files@)[members@[j] as int],
        decreases members@.len() - i,
    {
        times.push(time_or_epoch(files[members[i]].modified));
        i += 1;
    }
    let order = descending_order(&times);
    let mut sorted: Vec<usize> = Vec::new();
    let mut k: usize = 0;
    while k < order.len()
        invariant
            k <= order@.len(),
            is_descending_order(times@, order@),
            times@.len() == members@.len(),
            sorted@.len() == k,
            forall|j: int| 0 <= j < k ==> #[trigger] sorted@[j] == members@[order@[j] as int],
        decreases order@.len() - k,
    {
        sorted.push(members[order[k]]);
        k += 1;
    }
    proof {
        lemma_order_lists_each_once(times@, order@);
        assert forall|i: int| 0 <= i < members@.len() implies sorted@.contains(
            #[trigger] members@[i],
        ) by {
            assert(order@.contains(i as usize));
            let k = choose|k: int| 0 <= k < order@.len() && order@[k] == i as usize;
            assert(sorted@[k] == members@[i]);
        }
        assert forall|i: int, j: int| 0 <= i < j < sorted@.len() implies #[trigger] comes_before(
            file_times(files@),
            sorted@[i],
            sorted@[j],
        ) by {
            assert(comes_before(times@, order@[i], order@[j]));
            assert(sorted@[i] == members@[order@[i] as int]);
            assert(sorted@[j] == members@[order@[j] as int]);
            assert(times@[order@[i] as int] == file_times(files@)[sorted@[i] as int]);
            assert(times@[order@[j] as int] == file_times(files@)[sorted@[j] as int]);
        }
    }
    sorted
}

/// Groups files into albums and puts the albums, and the files of each, in order, the newest
/// first.
pub fn plan_albums(files: &Vec<AlbumFile>) -> (albums: Vec<Album>)
    ensures
        is_album_plan(files@, albums@),
        files_in(albums@) == files@.len(),
{
    let groups = group_files(files);
    let mut sorted: Vec<Album> = Vec::new();
    let mut times: Vec<i128> = Vec::new();
    let mut a: usize = 0;
    while a < groups.len()
        invariant
            a <= groups@.len(),
            is_grouping(files@, groups@, files@.len() as int),
            sorted@.len() == a,
            times@.len() == a,
            forall|b: int|
                0 <= b < a ==> is_album_of(files@, #[trigger] sorted@[b]) && sorted@[b].dir@
                    == groups@[b].dir@ && times@[b] == album_time(files@, sorted@[b]),
        decreases groups@.len() - a,
    {
        let group = &groups[a];
        assert(group == groups@[a as int]);
        assert forall|i: int, j: int| 0 <= i < j < group.files@.len() implies group.files@[i]
            < group.files@[j] by {
            assert(groups@[a as int].files@[i] < groups@[a as int].files@[j]);
        }
        assert forall|i: int| 0 <= i < group.files@.len() implies (#[trigger] group.files@[i])
            < files@.len() by {
            assert(groups@[a as int].files@[i] < files@.len());
        }
        let members = newest_first(files, &group.files);
        let album = Album { dir: copy_dir(&group.dir), files: members };
        proof {
            assert forall|i: int| 0 <= i < album.files@.len() implies (#[trigger] album.files@[i])
                < files@.len() && files@[album.files@[i] as int].dir() == album.dir@ by {
                assert(group.files@.contains(album.files@[i]));
                let k = choose|k: int|
                    0 <= k < group.files@.len() && group.files@[k] == album.files@[i];
                assert(files@[groups@[a as int].files@[k] as int].dir() == group.dir@);
            }
            assert forall|f: usize|
                f < files@.len() && (#[trigger] files@[f as int]).dir()
                    == album.dir@ implies album.files@.contains(f) by {
                assert(files@[f as int].dir() == groups@[a as int].dir@);
                assert(group.files@.contains(f as int as usize));
                let k = choose|k: int| 0 <= k < group.files@.len() && group.files@[k] == f;
                assert(album.files@.contains(group.files@[k]));
            }
        }
        let time: i128 = time_or_epoch(files[album.files[0]].modified);
        sorted.push(album);
        times.push(time);
        a += 1;
    }
    let order = descending_order(&times);
    let mut albums: Vec<Album> = Vec::new();
    let mut k: usize = 0;
    while k < order.len()
        invariant
            k <= order@.len(),
            is_descending_order(times@, order@),
            times@.len() == sorted@.len(),
            albums@.len() == k,
            forall|j: int|
                0 <= j < k ==> (#[trigger] albums@[j]).dir@ == sorted@[order@[j] as int].dir@
                    && albums@[j].files@ == sorted@[order@[j] as int].files@,
        decreases order@.len() - k,
    {
        let album = &sorted[order[k]];
        let members = album.files.clone();
        assert(members@ =~= album.files@);
        albums.push(Album { dir: copy_dir(&album.dir), files: members });
        k += 1;
    }
    proof {
        lemma_order_lists_each_once(times@, order@);
        assert forall|a: int| 0 <= a < albums@.len() implies is_album_of(
            files@,
            #[trigger] albums@[a],
        ) by {
            assert(is_album_of(files@, sorted@[order@[a] as int]));
        }
        assert forall|f: int| 0 <= f < files@.len() implies has_album(
            albums@,
            (#[trigger] files@[f]).dir(),
        ) by {
            let g = choose|g: int|
                0 <= g < groups@.len() && (#[trigger] groups@[g]).dir@ == files@[f].dir();
            assert(sorted@[g].dir@ == groups@[g].dir@);
            assert(order@.contains(g as usize));
            let a = choose|a: int| 0 <= a < order@.len() && order@[a] == g as usize;
            assert(albums@[a].dir@ == files@[f].dir());
        }
        assert forall|a: int, b: int| 0 <= a < b < albums@.len() implies #[trigger] album_before(
            files@,
            albums@[a],
            albums@[b],
        ) by {
            let x = order@[a] as int;
            let y = order@[b] as int;
            assert(comes_before(times@, order@[a], order@[b]));
            assert(is_album_of(files@, sorted@[x]));
            assert(is_album_of(files@, sorted@[y]));
            lemma_group_begins_first(files@, groups@, x);
            lemma_group_begins_first(files@, groups@, y);
            assert(albums@[a].files@ == sorted@[x].files@);
            assert(albums@[b].files@ == sorted@[y].files@);
            if x < y {
                assert(groups@[x].dir@ != groups@[y].dir@);
            }
        }
        assert(files.len() == files@.len());
        lemma_plan_holds_every_file_once(files@, albums@);
    }
    albums
}

/// The first file of a group is the first file of its directory.
proof fn lemma_group_begins_first(files: Seq<AlbumFile>, groups: Seq<Album>, a: int)
    requires
        is_grouping(files, groups, files.len() as int),
        0 <= a < groups.len(),
    ensures
        first_in(files, groups[a].dir@, 0) == groups[a].files@[0],
{
    let first = groups[a].files@[0] as int;
    assert(groups[a].files@.len() > 0);
    assert(groups[a].files@[0] < files.len());
    assert forall|f: int| 0 <= f < first implies (#[trigger] files[f]).dir() != groups[a].dir@ by {
        if files[f].dir() == groups[a].dir@ {
            assert(groups[a].files@.contains(f as usize));
            let i = choose|i: int|
                0 <= i < groups[a].files@.len() && groups[a].files@[i] == f as usize;
            if i > 0 {
                assert(groups[a].files@[0] < groups[a].files@[i]);
            }
        }
    }
    lemma_first_in(files, groups[a].dir@, 0, first);
}

/// There is only one album of a directory.
pub proof fn lemma_album_is_unique(files: Seq<AlbumFile>, a: Album, b: Album)
    requires
        is_album_of(files, a),
        is_album_of(files, b),
        a.dir@ == b.dir@,
    ensures
        a.files@ == b.files@,
{
    assert forall|f: usize| a.files@.contains(f) <==> b.files@.contains(f) by {
        if a.files@.contains(f) || b.files@.contains(f) {
            assert(files[f as int].dir() == a.dir@);
        }
    }
    lemma_ordered_lists_agree(file_times(files), a.files@, b.files@);
}

/// The albums of a plan are of different directories.
pub proof fn lemma_plan_has_no_directory_twice(files: Seq<AlbumFile>, albums: Seq<Album>)
    requires
        is_album_plan(files, albums),
    ensures
        forall|a: int, b: int|
            0 <= a < b < albums.len() ==> (#[trigger] albums[a]).dir@ != (#[trigger] albums[b]).dir@,
{
    assert forall|a: int, b: int| 0 <= a < b < albums.len() implies (#[trigger] albums[a]).dir@ != (
    #[trigger] albums[b]).dir@ by {
        assert(album_before(files, albums[a], albums[b]));
        if albums[a].dir@ == albums[b].dir@ {
            lemma_album_is_unique(files, albums[a], albums[b]);
        }
    }
}

/// Two plans agree on their first `n` albums.
proof fn lemma_plan_prefixes_agree(files: Seq<AlbumFile>, a: Seq<Album>, b: Seq<Album>, n: int)
    requires
        is_album_plan(files, a),
        is_album_plan(files, b),
        0 <= n <= a.len(),
    ensures
        n <= b.len(),
        forall|i: int|
            0 <= i < n ==> (#[trigger] a[i]).dir@ == (#[trigger] b[i]).dir@ && a[i].files@
                == b[i].files@,
    decreases n,
{
    if n > 0 {
        lemma_plan_prefixes_agree(files, a, b, n - 1);
        lemma_plan_has_no_directory_twice(files, a);
        lemma_plan_has_no_directory_twice(files, b);
        let x = a[n - 1];
        assert(is_album_of(files, x));
        assert(x.files@[0] < files.len());
        assert(has_album(b, files[x.files@[0] as int].dir()));
        let p = choose|p: int| 0 <= p < b.len() && (#[trigger] b[p]).dir@ == x.dir@;
        lemma_album_is_unique(files, x, b[p]);
        if p < n - 1 {
            assert(a[p].dir@ == b[p].dir@);
        }
        let y = b[n - 1];
        if x.dir@ != y.dir@ {
            assert(is_album_of(files, y));
            assert(y.files@[0] < files.len());
            assert(has_album(a, files[y.files@[0] as int].dir()));
            let q = choose|q: int| 0 <= q < a.len() && (#[trigger] a[q]).dir@ == y.dir@;
            lemma_album_is_unique(files, y, a[q]);
            if q < n - 1 {
                assert(a[q].dir@ == b[q].dir@);
            }
            assert(album_before(files, y, b[p]));
            assert(album_before(files, x, a[q]));
        } else {
            lemma_album_is_unique(files, x, y);
        }
    }
}

/// There is only one plan: the same albums, with the same files, in the same order.
pub proof fn lemma_plan_is_unique(files: Seq<AlbumFile>, a: Seq<Album>, b: Seq<Album>)
    requires
        is_album_plan(files, a),
        is_album_plan(files, b),
    ensures
        a.len() == b.len(),
        forall|i: int|
            0 <= i < a.len() ==> (#[trigger] a[i]).dir@ == (#[trigger] b[i]).dir@ && a[i].files@
                == b[i].files@,
{
    lemma_plan_prefixes_agree(files, a, b, a.len() as int);
    lemma_plan_prefixes_agree(files, b, a, b.len() as int);
}

/// The files of some albums in one list.
spec fn listed_files(albums: Seq<Album>) -> Seq<usize>
    decreases albums.len(),
{
    if albums.len() == 0 {
        Seq::empty()
    } else {
        listed_files(albums.drop_last()) + albums.last().files@
    }
}

/// The files of the first `n` albums of a plan, in one list, are the files of their directories,
/// each once.
proof fn lemma_listed_files(files: Seq<AlbumFile>, albums: Seq<Album>, n: int)
    requires
        is_album_plan(files, albums),
        0 <= n <= albums.len(),
    ensures
        listed_files(albums.take(n)).len() == files_in(albums.take(n)),
        listed_files(albums.take(n)).no_duplicates(),
        forall|k: int|
            0 <= k < listed_files(albums.take(n)).len() ==> (#[trigger] listed_files(
                albums.take(n),
            )[k]) < files.len() && has_album(
                albums.take(n),
                files[listed_files(albums.take(n))[k] as int].dir(),
            ),
        forall|a: int, i: int|
            0 <= a < n && 0 <= i < albums[a].files@.len() ==> listed_files(
                albums.take(n),
            ).contains(#[trigger] albums[a].files@[i]),
    decreases n,
{
    if n > 0 {
        lemma_listed_files(files, albums, n - 1);
        lemma_plan_has_no_directory_twice(files, albums);
        let album = albums[n - 1];
        assert(is_album_of(files, album));
        let prior = albums.take(n - 1);
        let before = listed_files(prior);
        let all = listed_files(albums.take(n));
        assert(albums.take(n).drop_last() =~= prior);
        assert(all == before + album.files@);
        assert forall|k: int| 0 <= k < all.len() implies (#[trigger] all[k]) < files.len()
            && has_album(albums.take(n), files[all[k] as int].dir()) by {
            if k < before.len() {
                assert(all[k] == before[k]);
                assert(has_album(prior, files[before[k] as int].dir()));
                let a = choose|a: int|
                    0 <= a < prior.len() && (#[trigger] prior[a]).dir@
                        == files[before[k] as int].dir();
                assert(albums.take(n)[a] == prior[a]);
            } else {
                assert(all[k] == album.files@[k - before.len()]);
                assert(albums.take(n)[n - 1] == album);
            }
        }
        assert forall|i: int, j: int| 0 <= i < j < all.len() implies all[i] != all[j] by {
            if j < before.len() {
                assert(before[i] != before[j]);
            } else if i < before.len() {
                assert(all[i] == before[i]);
                assert(all[j] == album.files@[j - before.len()]);
                let a = choose|a: int|
                    0 <= a < prior.len() && (#[trigger] prior[a]).dir@
                        == files[before[i] as int].dir();
                assert(prior[a] == albums[a]);
                assert(albums[a].dir@ != albums[n - 1].dir@);
            } else {
                assert(comes_before(
                    file_times(files),
                    album.files@[i - before.len()],
                    album.files@[j - before.len()],
                ));
            }
        }
        assert forall|a: int, i: int| 0 <= a < n && 0 <= i < albums[a].files@.len() implies all.contains(
            #[trigger] albums[a].files@[i],
        ) by {
            if a < n - 1 {
                assert(before.contains(albums[a].files@[i]));
                let k = choose|k: int|
                    0 <= k < before.len() && before[k] == albums[a].files@[i];
                assert(all[k] == albums[a].files@[i]);
            } else {
                assert(all[before.len() + i] == album.files@[i]);
            }
        }
    }
}

/// A plan holds every file, and none twice: it holds as many as there are.
pub proof fn lemma_plan_holds_every_file_once(files: Seq<AlbumFile>, albums: Seq<Album>)
    requires
        is_album_plan(files, albums),
        files.len() <= usize::MAX,
    ensures
        files_in(albums) == files.len(),
        forall|f: usize| f < files.len() ==> #[trigger] holds_file(albums, f),
{
    let n = albums.len() as int;
    lemma_listed_files(files, albums, n);
    assert(albums.take(n) =~= albums);
    let all = listed_files(albums);
    let places = all.map_values(|f: usize| f as int);
    assert(places.no_duplicates());
    places.unique_seq_to_set();
    let range = vstd::set_lib::set_int_range(0, files.len() as int);
    vstd::set_lib::lemma_int_range(0, files.len() as int);
    assert forall|f: usize| f < files.len() implies #[trigger] holds_file(albums, f) by {
        let dir = files[f as int].dir();
        assert(has_album(albums, dir));
        let a = choose|a: int| 0 <= a < albums.len() && (#[trigger] albums[a]).dir@ == dir;
        assert(is_album_of(files, albums[a]));
        assert(albums[a].files@.contains(f));
    }
    assert(places.to_set() =~= range) by {
        assert forall|p: int| places.to_set().contains(p) implies range.contains(p) by {
            let k = choose|k: int| 0 <= k < places.len() && places[k] == p;
            assert(places[k] == all[k] as int);
        }
        assert forall|p: int| range.contains(p) implies places.to_set().contains(p) by {
            assert(holds_file(albums, p as usize));
            let a = choose|a: int|
                0 <= a < albums.len() && (#[trigger] albums[a]).files@.contains(p as usize);
            let i = choose|i: int|
                0 <= i < albums[a].files@.len() && albums[a].files@[i] == p as usize;
            assert(all.contains(albums[a].files@[i]));
            let k = choose|k: int| 0 <= k < all.len() && all[k] == p as usize;
            assert(places[k] == p);
        }
    }
}

/// An album bears the whole path of the directory in which each of its files is, byte for byte. A
/// file without one is in the current directory.
pub proof fn lemma_albums_are_directories(files: Seq<AlbumFile>, albums: Seq<Album>)
    requires
        is_album_plan(files, albums),
    ensures
        forall|a: int, i: int|
            0 <= a < albums.len() && 0 <= i < albums[a].files@.len() ==> {
                let f = #[trigger] albums[a].files@[i];
                &&& f < files.len()
                &&& files[f as int].parent matches Some(parent) ==> albums[a].dir@ == parent@
                &&& files[f as int].parent is None ==> albums[a].dir@ == seq![0x2eu8]
            },
{
    assert forall|a: int, i: int|
        0 <= a < albums.len() && 0 <= i < albums[a].files@.len() implies {
        let f = #[trigger] albums[a].files@[i];
        &&& f < files.len()
        &&& files[f as int].parent matches Some(parent) ==> albums[a].dir@ == parent@
        &&& files[f as int].parent is None ==> albums[a].dir@ == seq![0x2eu8]
    } by {
        assert(is_album_of(files, albums[a]));
    }
}

/// Two files are in one album exactly where their directories have the same path, byte for byte.
pub proof fn lemma_album_is_shared_with_siblings(
    files: Seq<AlbumFile>,
    albums: Seq<Album>,
    f: usize,
    g: usize,
)
    requires
        is_album_plan(files, albums),
        f < files.len(),
        g < files.len(),
    ensures
        ({
            let shared = exists|a: int|
                0 <= a < albums.len() && (#[trigger] albums[a]).files@.contains(f)
                    && albums[a].files@.contains(g);
            match (files[f as int].parent, files[g as int].parent) {
                (Some(p), Some(q)) => shared <==> p@ == q@,
                (Some(p), None) => shared <==> p@ == seq![0x2eu8],
                (None, Some(q)) => shared <==> q@ == seq![0x2eu8],
                (None, None) => shared,
            }
        }),
{
    let dir = files[f as int].dir();
    assert(has_album(albums, dir));
    let a = choose|a: int| 0 <= a < albums.len() && (#[trigger] albums[a]).dir@ == dir;
    assert(is_album_of(files, albums[a]));
    assert(albums[a].files@.contains(f));
    if files[g as int].dir() == dir {
        assert(albums[a].files@.contains(g));
    }
    assert forall|b: int|
        0 <= b < albums.len() && (#[trigger] albums[b]).files@.contains(f)
            && albums[b].files@.contains(g) implies files[g as int].dir() == dir by {
        assert(is_album_of(files, albums[b]));
        let i = choose|i: int| 0 <= i < albums[b].files@.len() && albums[b].files@[i] == f;
        let j = choose|j: int| 0 <= j < albums[b].files@.len() && albums[b].files@[j] == g;
        assert(files[albums[b].files@[i] as int].dir() == albums[b].dir@);
        assert(files[albums[b].files@[j] as int].dir() == albums[b].dir@);
    }
}

/// Within an album the files go from the newest to the oldest, and files of one time stay in the
/// order in which they were given. A file whose time is not known counts as one of the epoch.
pub proof fn lemma_album_goes_newest_first(files: Seq<AlbumFile>, albums: Seq<Album>, a: int)
    requires
        is_album_plan(files, albums),
        0 <= a < albums.len(),
    ensures
        ({
            let time = |f: usize|
                match files[f as int].modified {
                    Some(t) => t as int,
                    None => 0int,
                };
            let members = albums[a].files@;
            &&& members.len() > 0
            &&& forall|i: int, j: int|
                #![trigger members[i], members[j]]
                0 <= i < j < members.len() ==> time(members[i]) > time(members[j]) || (time(
                    members[i],
                ) == time(members[j]) && members[i] < members[j])
        }),
{
    let members = albums[a].files@;
    assert(is_album_of(files, albums[a]));
    assert forall|i: int, j: int|
        #![trigger members[i], members[j]]
        0 <= i < j < members.len() implies comes_before(
        file_times(files),
        members[i],
        members[j],
    ) by {}
    assert forall|i: int| 0 <= i < members.len() implies (#[trigger] members[i]) < files.len() by {}
}

/// The first place in a list at which a file of a directory stands.
proof fn lemma_first_in_is_first(files: Seq<AlbumFile>, dir: Seq<u8>, from: int)
    requires
        0 <= from <= files.len(),
    ensures
        from <= first_in(files, dir, from) <= files.len(),
        first_in(files, dir, from) < files.len() ==> files[first_in(files, dir, from)].dir() == dir,
        forall|f: int|
            from <= f < first_in(files, dir, from) ==> (#[trigger] files[f]).dir() != dir,
    decreases files.len() - from,
{
    if from < files.len() && files[from].dir() != dir {
        lemma_first_in_is_first(files, dir, from + 1);
    }
}

/// Albums go by their newest files, from the newest to the oldest. Of two albums of one time the
/// one comes first that holds the file which stands before all files of the other.
pub proof fn lemma_albums_go_newest_first(
    files: Seq<AlbumFile>,
    albums: Seq<Album>,
    a: int,
    b: int,
)
    requires
        is_album_plan(files, albums),
        files.len() <= usize::MAX,
        0 <= a < b < albums.len(),
    ensures
        ({
            let time = |f: usize|
                match files[f as int].modified {
                    Some(t) => t as int,
                    None => 0int,
                };
            let newest_a = time(albums[a].files@[0]);
            let newest_b = time(albums[b].files@[0]);
            newest_a > newest_b || (newest_a == newest_b && exists|f: usize|
                #[trigger] albums[a].files@.contains(f) && forall|j: int|
                    0 <= j < albums[b].files@.len() ==> f < #[trigger] albums[b].files@[j])
        }),
{
    assert(album_before(files, albums[a], albums[b]));
    assert(is_album_of(files, albums[a]));
    assert(is_album_of(files, albums[b]));
    let da = albums[a].dir@;
    let db = albums[b].dir@;
    lemma_first_in_is_first(files, da, 0);
    lemma_first_in_is_first(files, db, 0);
    assert(albums[a].files@[0] < files.len());
    assert(albums[b].files@[0] < files.len());
    let first = first_in(files, da, 0);
    assert(files[albums[a].files@[0] as int].dir() == da);
    assert(first < files.len());
    assert(files[first as usize as int].dir() == da);
    assert(albums[a].files@.contains(first as usize));
    if first < first_in(files, db, 0) {
        assert forall|j: int| 0 <= j < albums[b].files@.len() implies (first as usize)
            < #[trigger] albums[b].files@[j] by {
            let g = albums[b].files@[j];
            assert(files[g as int].dir() == db);
        }
    }
}

/// Every file stands at just one place of just one album.
pub proof fn lemma_file_has_one_place(
    files: Seq<AlbumFile>,
    albums: Seq<Album>,
    f: usize,
)
    requires
        is_album_plan(files, albums),
        f < files.len(),
    ensures
        exists|a: int, i: int|
            0 <= a < albums.len() && 0 <= i < albums[a].files@.len()
                && #[trigger] albums[a].files@[i] == f,
        forall|a: int, i: int, b: int, j: int|
            0 <= a < albums.len() && 0 <= i < albums[a].files@.len() && 0 <= b < albums.len() && 0
                <= j < albums[b].files@.len() && #[trigger] albums[a].files@[i] == f
                && #[trigger] albums[b].files@[j] == f ==> a == b && i == j,
{
    let dir = files[f as int].dir();
    assert(has_album(albums, dir));
    let a = choose|a: int| 0 <= a < albums.len() && (#[trigger] albums[a]).dir@ == dir;
    assert(is_album_of(files, albums[a]));
    assert(albums[a].files@.contains(f));
    let i = choose|i: int| 0 <= i < albums[a].files@.len() && albums[a].files@[i] == f;
    assert(albums[a].files@[i] == f);
    lemma_plan_has_no_directory_twice(files, albums);
    assert forall|a: int, i: int, b: int, j: int|
        0 <= a < albums.len() && 0 <= i < albums[a].files@.len() && 0 <= b < albums.len() && 0 <= j
            < albums[b].files@.len() && #[trigger] albums[a].files@[i] == f
            && #[trigger] albums[b].files@[j] == f implies a == b && i == j by {
        assert(is_album_of(files, albums[a]));
        assert(is_album_of(files, albums[b]));
        assert(albums[a].dir@ == albums[b].dir@);
        if a < b {
            assert(albums[a].dir@ != albums[b].dir@);
        } else if b < a {
            assert(albums[b].dir@ != albums[a].dir@);
        } else if i < j {
            assert(comes_before(file_times(files), albums[a].files@[i], albums[a].files@[j]));
        } else if j < i {
            assert(comes_before(file_times(files), albums[a].files@[j], albums[a].files@[i]));
        }
    }
}

} // verus!

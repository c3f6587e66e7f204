//! Walking through the folders of a job.
//!
//! A walk decides; its caller reads the folders that it asks for and shows it
//! what is in them. `D` is whatever the caller finds a folder by.

use vstd::prelude::*;
use vstd::string::*;
use crate::media::{kind_of_name, media_kind, MediaKind};
use crate::sort::{lemma_sorted_map, pair_key, reversed, sort_keyed, stably_sorted, without_keys};
use crate::text::{chars_of, find_first, first_of, occurs, slice_text};

verus! {

/// What a folder holds: a file or another folder.
pub struct Entry<D> {
    pub place: D,
    pub name: String,
    pub is_dir: bool,
    pub size: u64,
}

pub struct EntryView<D> {
    pub place: D,
    pub name: Seq<char>,
    pub is_dir: bool,
    pub size: u64,
}

impl<D> View for Entry<D> {
    type V = EntryView<D>;

    open spec fn view(&self) -> EntryView<D> {
        EntryView { place: self.place, name: self.name@, is_dir: self.is_dir, size: self.size }
    }
}

/// A downloaded file. The path is seen from the job's folder.
#[derive(Debug)]
pub struct FileEntry {
    pub name: String,
    pub size: u64,
    pub path: String,
}

#[verifier::ext_equal]
pub struct FileEntryView {
    pub name: Seq<char>,
    pub size: u64,
    pub path: Seq<char>,
}

impl View for FileEntry {
    type V = FileEntryView;

    open spec fn view(&self) -> FileEntryView {
        FileEntryView { name: self.name@, size: self.size, path: self.path@ }
    }
}

/// A downloaded image or video.
#[derive(Debug)]
pub struct MediaItem {
    pub url: String,
    pub path: String,
    pub name: String,
    /// The first folder of the path, by which items are grouped; empty for a
    /// file at the root.
    pub group: String,
    pub size: u64,
    pub kind: MediaKind,
}

#[verifier::ext_equal]
pub struct MediaItemView {
    pub url: Seq<char>,
    pub path: Seq<char>,
    pub name: Seq<char>,
    pub group: Seq<char>,
    pub size: u64,
    pub kind: MediaKind,
}

impl View for MediaItem {
    type V = MediaItemView;

    open spec fn view(&self) -> MediaItemView {
        MediaItemView {
            url: self.url@,
            path: self.path@,
            name: self.name@,
            group: self.group@,
            size: self.size,
            kind: self.kind,
        }
    }
}

/// The path of what is called `name` in the folder at `prefix`; the folder
/// where the walk begins is at the empty prefix.
pub open spec fn child_path(prefix: Seq<char>, name: Seq<char>) -> Seq<char> {
    if prefix.len() == 0 {
        name
    } else {
        prefix + "/"@ + name
    }
}

/// What stands before the first slash of a path; nothing, where there is no slash.
pub open spec fn group_of(path: Seq<char>) -> Seq<char> {
    match first_of(path, "/"@) {
        Some(i) => path.take(i),
        None => Seq::empty(),
    }
}

/// The file called `name` in the folder at `prefix`.
pub open spec fn file_at(prefix: Seq<char>, name: Seq<char>, size: u64) -> FileEntryView {
    FileEntryView { name, size, path: child_path(prefix, name) }
}

/// The item of the job `job_id` that a file of kind `kind` is. A file that is
/// no image or video is none; where the root is skipped, nor is a file at the root.
pub open spec fn item_of(
    job_id: Seq<char>,
    skip_root: bool,
    prefix: Seq<char>,
    name: Seq<char>,
    size: u64,
    kind: Option<MediaKind>,
) -> Option<MediaItemView> {
    let path = child_path(prefix, name);
    match kind {
        None => None,
        Some(kind) => if skip_root && !occurs(path, "/"@) {
            None
        } else {
            Some(
                MediaItemView {
                    url: "/files/"@ + job_id + "/"@ + path,
                    path,
                    name,
                    group: group_of(path),
                    size,
                    kind,
                },
            )
        },
    }
}

/// The path of what is called `name` in the folder at `prefix`.
fn path_of_child(prefix: &str, name: &str) -> (r: String)
    ensures
        r@ == child_path(prefix@, name@),
{
    if prefix.is_empty() {
        name.to_owned()
    } else {
        prefix.to_owned().concat("/").concat(name)
    }
}

/// The item of the job `job_id` that a file of kind `kind` is.
pub fn media_item(
    job_id: &str,
    skip_root: bool,
    prefix: &str,
    name: String,
    size: u64,
    kind: Option<MediaKind>,
) -> (r: Option<MediaItem>)
    ensures
        r is Some <==> item_of(job_id@, skip_root, prefix@, name@, size, kind) is Some,
        r matches Some(item) ==> item_of(job_id@, skip_root, prefix@, name@, size, kind) == Some(
            item@,
        ),
{
    let kind: MediaKind = match kind {
        Some(kind) => kind,
        None => {
            return None;
        },
    };
    let path = path_of_child(prefix, name.as_str());
    let cs = chars_of(path.as_str());
    let slash: [char; 1] = ['/'];
    proof {
        reveal_strlit("/");
        assert(slash@ =~= "/"@);
    }
    let group = match find_first(cs.as_slice(), &slash) {
        Some(i) => {
            let g = slice_text(cs.as_slice(), 0, i);
            assert(g@ =~= path@.take(i as int));
            g
        },
        None => {
            if skip_root {
                return None;
            }
            String::new()
        },
    };
    let url = "/files/".to_owned().concat(job_id).concat("/").concat(path.as_str());
    Some(MediaItem { url, path, name, group, size, kind })
}

/// A walk: the folders that are still to be read, each with its path, and what was found.
#[verifier::ext_equal]
pub struct WalkView<D, T> {
    pub pending: Seq<(D, Seq<char>)>,
    pub found: Seq<T>,
}

/// What a walk finds in a file, from the path of its folder, its name and its size.
pub type Yield<T> = spec_fn(Seq<char>, Seq<char>, u64) -> Option<T>;

impl<D, T> WalkView<D, T> {
    /// The walk that begins at `base`.
    pub open spec fn from(base: D) -> WalkView<D, T> {
        WalkView { pending: seq![(base, Seq::empty())], found: Seq::empty() }
    }

    /// The walk after it was shown `e`, which is in the folder at `prefix`: a
    /// folder is to be read later, and a file is found if it yields something.
    pub open spec fn visited(
        self,
        prefix: Seq<char>,
        e: EntryView<D>,
        yields: Yield<T>,
    ) -> WalkView<D, T> {
        if e.is_dir {
            WalkView {
                pending: self.pending.push((e.place, child_path(prefix, e.name))),
                ..self
            }
        } else {
            match yields(prefix, e.name, e.size) {
                Some(t) => WalkView { found: self.found.push(t), ..self },
                None => self,
            }
        }
    }

    /// The walk without the folder that is read next.
    pub open spec fn popped(self) -> WalkView<D, T> {
        WalkView { pending: self.pending.drop_last(), ..self }
    }
}

pub open spec fn pending_view<D>(s: Seq<(D, String)>) -> Seq<(D, Seq<char>)> {
    s.map_values(|p: (D, String)| (p.0, p.1@))
}

pub open spec fn file_views(s: Seq<FileEntry>) -> Seq<FileEntryView> {
    s.map_values(|f: FileEntry| f@)
}

pub open spec fn item_views(s: Seq<MediaItem>) -> Seq<MediaItemView> {
    s.map_values(|m: MediaItem| m@)
}

/// A walk through all the files of a job.
pub struct FileWalk<D> {
    pending: Vec<(D, String)>,
    found: Vec<FileEntry>,
}

impl<D> View for FileWalk<D> {
    type V = WalkView<D, FileEntryView>;

    closed spec fn view(&self) -> WalkView<D, FileEntryView> {
        WalkView {
            pending: pending_view(self.pending@),
            found: file_views(self.found@),
        }
    }
}

/// Every file is found.
pub open spec fn any_file() -> Yield<FileEntryView> {
    |prefix: Seq<char>, name: Seq<char>, size: u64| Some(file_at(prefix, name, size))
}

/// The media files of the job `job_id` are found.
pub open spec fn media_file(job_id: Seq<char>, skip_root: bool) -> Yield<MediaItemView> {
    |prefix: Seq<char>, name: Seq<char>, size: u64|
        item_of(job_id, skip_root, prefix, name, size, kind_of_name(name))
}

impl<D> FileWalk<D> {
    /// The walk that begins at `base`.
    pub fn new(base: D) -> (r: Self)
        ensures
            r@ == WalkView::<D, FileEntryView>::from(base),
    {
        let r = FileWalk { pending: vec![(base, String::new())], found: Vec::new() };
        assert(r@ =~= WalkView::<D, FileEntryView>::from(base));
        r
    }

    /// The folder to be read next, with its path.
    pub fn next_folder(&mut self) -> (r: Option<(D, String)>)
        ensures
            r is None <==> old(self)@.pending.len() == 0,
            r is None ==> final(self)@ == old(self)@,
            r matches Some((d, prefix)) ==> {
                &&& old(self)@.pending.last() == (d, prefix@)
                &&& final(self)@ == old(self)@.popped()
            },
    {
        let ghost before = self@;
        let r = self.pending.pop();
        assert(r is Some ==> self@ =~= before.popped());
        assert(r is None ==> self@ =~= before);
        r
    }

    /// Shows the walk what is in the folder at `prefix`.
    pub fn visit(&mut self, prefix: &str, entry: Entry<D>)
        ensures
            final(self)@ == old(self)@.visited(prefix@, entry@, any_file()),
    {
        let ghost before = self@;
        let path = path_of_child(prefix, entry.name.as_str());
        if entry.is_dir {
            self.pending.push((entry.place, path));
        } else {
            self.found.push(FileEntry { name: entry.name, size: entry.size, path });
        }
        assert(self@ =~= before.visited(prefix@, entry@, any_file()));
    }

    /// What was found, in the order of the paths.
    pub fn into_files(self) -> (r: Vec<FileEntry>)
        ensures
            stably_sorted(self@.found, file_views(r@), |f: FileEntryView| f.path),
    {
        sort_files(self.found)
    }
}

/// Something with a path.
trait HasPath: Sized {
    spec fn path_view(&self) -> Seq<char>;

    fn path(&self) -> (r: &str)
        ensures
            r@ == self.path_view(),
    ;
}

impl HasPath for FileEntry {
    spec fn path_view(&self) -> Seq<char> {
        self@.path
    }

    fn path(&self) -> (r: &str) {
        self.path.as_str()
    }
}

impl HasPath for MediaItem {
    spec fn path_view(&self) -> Seq<char> {
        self@.path
    }

    fn path(&self) -> (r: &str) {
        self.path.as_str()
    }
}

/// The items in the order of their paths; items with one path stay in their order.
fn sort_by_path<T: HasPath>(items: Vec<T>) -> (r: Vec<T>)
    ensures
        stably_sorted(items@, r@, |x: T| x.path_view()),
{
    let ghost all = items@;
    let mut items = items;
    let mut back: Vec<(Vec<char>, T)> = Vec::new();
    let ghost second = |x: (Vec<char>, T)| x.1;
    while items.len() > 0
        invariant
            second == |x: (Vec<char>, T)| x.1,
            items@ + back@.map_values(second).reverse() =~= all,
            forall|i: int|
                0 <= i < back@.len() ==> (#[trigger] back@[i]).0@ == back@[i].1.path_view(),
        decreases items@.len(),
    {
        let ghost items0 = items@;
        let ghost back0 = back@;
        match items.pop() {
            Some(x) => {
                back.push((chars_of(x.path()), x));
                assert(back@.map_values(second).reverse() =~= seq![x] + back0.map_values(
                    second,
                ).reverse());
                assert(items0 =~= items@ + seq![x]);
            },
            None => {},
        }
    }
    let keyed = reversed(back);
    let ghost before = keyed@;
    let sorted = sort_keyed(keyed);
    let ghost after = sorted@;
    let r = without_keys(sorted);
    proof {
        assert(before.map_values(second) =~= all);
        lemma_sorted_map(before, after, second, pair_key::<T>(), |x: T| x.path_view());
    }
    r
}

/// The files in the order of their paths; files with one path stay in their order.
pub fn sort_files(files: Vec<FileEntry>) -> (r: Vec<FileEntry>)
    ensures
        stably_sorted(file_views(files@), file_views(r@), |f: FileEntryView| f.path),
{
    let r = sort_by_path(files);
    proof {
        lemma_sorted_map(
            files@,
            r@,
            |f: FileEntry| f@,
            |f: FileEntry| f.path_view(),
            |f: FileEntryView| f.path,
        );
    }
    r
}

/// The items in the order of their paths; items with one path stay in their order.
pub fn sort_media(items: Vec<MediaItem>) -> (r: Vec<MediaItem>)
    ensures
        stably_sorted(item_views(items@), item_views(r@), |m: MediaItemView| m.path),
{
    let r = sort_by_path(items);
    proof {
        lemma_sorted_map(
            items@,
            r@,
            |m: MediaItem| m@,
            |m: MediaItem| m.path_view(),
            |m: MediaItemView| m.path,
        );
    }
    r
}

/// A walk through the media files of a job.
pub struct MediaWalk<D> {
    job_id: String,
    skip_root: bool,
    pending: Vec<(D, String)>,
    found: Vec<MediaItem>,
}

impl<D> View for MediaWalk<D> {
    type V = WalkView<D, MediaItemView>;

    closed spec fn view(&self) -> WalkView<D, MediaItemView> {
        WalkView { pending: pending_view(self.pending@), found: item_views(self.found@) }
    }
}

impl<D> MediaWalk<D> {
    /// The identifier of the job.
    pub closed spec fn job(self) -> Seq<char> {
        self.job_id@
    }

    /// Whether files at the root are skipped.
    pub closed spec fn skips(self) -> bool {
        self.skip_root
    }

    /// The walk through the media files of the job `job_id` that begins at `base`.
    pub fn new(base: D, job_id: &str, skip_root: bool) -> (r: Self)
        ensures
            r@ == WalkView::<D, MediaItemView>::from(base),
            r.job() == job_id@,
            r.skips() == skip_root,
    {
        let r = MediaWalk {
            job_id: job_id.to_owned(),
            skip_root,
            pending: vec![(base, String::new())],
            found: Vec::new(),
        };
        assert(r@ =~= WalkView::<D, MediaItemView>::from(base));
        r
    }

    /// The folder to be read next, with its path.
    pub fn next_folder(&mut self) -> (r: Option<(D, String)>)
        ensures
            final(self).job() == old(self).job(),
            final(self).skips() == old(self).skips(),
            r is None <==> old(self)@.pending.len() == 0,
            r is None ==> final(self)@ == old(self)@,
            r matches Some((d, prefix)) ==> {
                &&& old(self)@.pending.last() == (d, prefix@)
                &&& final(self)@ == old(self)@.popped()
            },
    {
        let ghost before = self@;
        let r = self.pending.pop();
        assert(r is Some ==> self@ =~= before.popped());
        assert(r is None ==> self@ =~= before);
        r
    }

    /// Shows the walk what is in the folder at `prefix`.
    pub fn visit(&mut self, prefix: &str, entry: Entry<D>)
        ensures
            final(self).job() == old(self).job(),
            final(self).skips() == old(self).skips(),
            final(self)@ == old(self)@.visited(
                prefix@,
                entry@,
                media_file(old(self).job(), old(self).skips()),
            ),
    {
        let ghost before = self@;
        if entry.is_dir {
            let path = path_of_child(prefix, entry.name.as_str());
            self.pending.push((entry.place, path));
        } else {
            let kind = media_kind(entry.name.as_str());
            match media_item(
                self.job_id.as_str(),
                self.skip_root,
                prefix,
                entry.name,
                entry.size,
                kind,
            ) {
                Some(item) => {
                    self.found.push(item);
                },
                None => {},
            }
        }
        assert(self@ =~= before.visited(prefix@, entry@, media_file(self.job(), self.skips())));
    }

    /// The number of items that were found.
    pub fn count(&self) -> (r: usize)
        ensures
            r == self@.found.len(),
    {
        self.found.len()
    }

    /// What was found, in the order of the paths.
    pub fn into_items(self) -> (r: Vec<MediaItem>)
        ensures
            stably_sorted(self@.found, item_views(r@), |m: MediaItemView| m.path),
    {
        sort_media(self.found)
    }
}

} // verus!

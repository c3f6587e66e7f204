//! What a walk finds in a tree of folders.

use vstd::prelude::*;
use vstd::multiset::Multiset;
use vstd::utf8::is_ascii_chars;
use crate::media::{
    kind_of_name, law_kind_goes_by_extension, law_kind_of_extension, lemma_no_dot, lowered, MediaKind,
};
use crate::path::{is_absolute, joined};
use crate::serve::{job_folder, law_relative_path_is_located, located};
use crate::text::{first_of, is_first, law_first_of, lemma_first, lemma_first_char, occurs, occurs_at};
use crate::walk::{
    any_file, child_path, file_views, group_of, item_of, item_views, media_file, EntryView, FileEntry,
    MediaItem, WalkView, Yield,
};

verus! {

/// A file, or a folder with what it holds.
pub enum Node {
    File { name: Seq<char>, size: u64 },
    Folder { name: Seq<char>, children: Seq<Node> },
}

/// What a walk is shown of a node. It finds a folder by what the folder holds.
pub open spec fn shown(node: Node) -> EntryView<Seq<Node>> {
    match node {
        Node::File { name, size } => EntryView {
            place: Seq::empty(),
            name,
            is_dir: false,
            size,
        },
        Node::Folder { name, children } => EntryView {
            place: children,
            name,
            is_dir: true,
            size: 0,
        },
    }
}

/// What the files below a folder yield. The folder is at `prefix` and holds `nodes`.
pub open spec fn yield_below<T>(
    nodes: Seq<Node>,
    prefix: Seq<char>,
    yields: Yield<T>,
) -> Multiset<T>
    decreases nodes,
{
    if nodes.len() == 0 {
        Multiset::empty()
    } else {
        yield_below(nodes.drop_last(), prefix, yields).add(
            match nodes.last() {
                Node::File { name, size } => match yields(prefix, name, size) {
                    Some(t) => Multiset::singleton(t),
                    None => Multiset::empty(),
                },
                Node::Folder { name, children } => yield_below(
                    children,
                    child_path(prefix, name),
                    yields,
                ),
            },
        )
    }
}

/// What the files below the folders that are still to be read yield.
pub open spec fn yield_pending<T>(
    pending: Seq<(Seq<Node>, Seq<char>)>,
    yields: Yield<T>,
) -> Multiset<T>
    decreases pending.len(),
{
    if pending.len() == 0 {
        Multiset::empty()
    } else {
        yield_pending(pending.drop_last(), yields).add(
            yield_below(pending.last().0, pending.last().1, yields),
        )
    }
}

/// The walk after it was shown `nodes`, which the folder at `prefix` holds.
pub open spec fn shown_all<T>(
    walk: WalkView<Seq<Node>, T>,
    nodes: Seq<Node>,
    prefix: Seq<char>,
    yields: Yield<T>,
) -> WalkView<Seq<Node>, T>
    decreases nodes.len(),
{
    if nodes.len() == 0 {
        walk
    } else {
        shown_all(walk, nodes.drop_last(), prefix, yields).visited(
            prefix,
            shown(nodes.last()),
            yields,
        )
    }
}

/// The walk after it asked for its next folder and was shown all that the folder holds.
pub open spec fn folder_read<T>(walk: WalkView<Seq<Node>, T>, yields: Yield<T>) -> WalkView<
    Seq<Node>,
    T,
> {
    shown_all(walk.popped(), walk.pending.last().0, walk.pending.last().1, yields)
}

/// What the walk has found and what is still to be found.
pub open spec fn total<T>(walk: WalkView<Seq<Node>, T>, yields: Yield<T>) -> Multiset<T> {
    walk.found.to_multiset().add(yield_pending(walk.pending, yields))
}

proof fn lemma_visited<T>(
    walk: WalkView<Seq<Node>, T>,
    node: Node,
    prefix: Seq<char>,
    yields: Yield<T>,
)
    ensures
        total(walk.visited(prefix, shown(node), yields), yields) == total(walk, yields).add(
            yield_below(seq![node], prefix, yields),
        ),
{
    broadcast use vstd::seq_lib::group_to_multiset_ensures;

    reveal_with_fuel(yield_below, 2);
    let next = walk.visited(prefix, shown(node), yields);
    assert(seq![node].drop_last() =~= Seq::empty());
    match node {
        Node::File { name, size } => {
            match yields(prefix, name, size) {
                Some(t) => {
                    assert(next.found.to_multiset() == walk.found.to_multiset().insert(t));
                    assert(total(next, yields) =~= total(walk, yields).add(
                        yield_below(seq![node], prefix, yields),
                    ));
                },
                None => {
                    assert(total(next, yields) =~= total(walk, yields).add(
                        yield_below(seq![node], prefix, yields),
                    ));
                },
            }
        },
        Node::Folder { name, children } => {
            assert(next.pending.drop_last() =~= walk.pending);
            assert(total(next, yields) =~= total(walk, yields).add(
                yield_below(seq![node], prefix, yields),
            ));
        },
    }
}

proof fn lemma_shown_all<T>(
    walk: WalkView<Seq<Node>, T>,
    nodes: Seq<Node>,
    prefix: Seq<char>,
    yields: Yield<T>,
)
    ensures
        total(shown_all(walk, nodes, prefix, yields), yields) == total(walk, yields).add(
            yield_below(nodes, prefix, yields),
        ),
    decreases nodes.len(),
{
    if nodes.len() == 0 {
        assert(total(walk, yields).add(Multiset::empty()) =~= total(walk, yields));
    } else {
        let rest = nodes.drop_last();
        let last = nodes.last();
        lemma_shown_all(walk, rest, prefix, yields);
        lemma_visited(shown_all(walk, rest, prefix, yields), last, prefix, yields);
        reveal_with_fuel(yield_below, 2);
        assert(seq![last].drop_last() =~= Seq::empty());
        assert(total(walk, yields).add(yield_below(rest, prefix, yields)).add(
            yield_below(seq![last], prefix, yields),
        ) =~= total(walk, yields).add(yield_below(nodes, prefix, yields)));
    }
}

/// Reading a folder loses nothing and finds nothing twice: what has been found
/// and what is still to be found stay, together, the same.
pub proof fn law_reading_keeps_total<T>(walk: WalkView<Seq<Node>, T>, yields: Yield<T>)
    requires
        walk.pending.len() > 0,
    ensures
        total(folder_read(walk, yields), yields) == total(walk, yields),
{
    let (nodes, prefix) = walk.pending.last();
    lemma_shown_all(walk.popped(), nodes, prefix, yields);
    assert(total(walk.popped(), yields).add(yield_below(nodes, prefix, yields)) =~= total(
        walk,
        yields,
    ));
}

/// A walk that begins at a folder and reads folder after folder until none is
/// left has found what all the files below the folder yield, each once.
pub proof fn law_walk_finds_all<T>(
    root: Seq<Node>,
    yields: Yield<T>,
    states: Seq<WalkView<Seq<Node>, T>>,
)
    requires
        states.len() > 0,
        states[0] == WalkView::<Seq<Node>, T>::from(root),
        forall|i: int|
            0 <= i < states.len() - 1 ==> (#[trigger] states[i]).pending.len() > 0 && states[i + 1]
                == folder_read(states[i], yields),
        states.last().pending.len() == 0,
    ensures
        states.last().found.to_multiset() == yield_below(root, Seq::empty(), yields),
{
    lemma_total_stays(root, yields, states, states.len() - 1);
    let end = states.last();
    assert(total(end, yields) =~= end.found.to_multiset());
}

proof fn lemma_total_stays<T>(
    root: Seq<Node>,
    yields: Yield<T>,
    states: Seq<WalkView<Seq<Node>, T>>,
    i: int,
)
    requires
        0 <= i < states.len(),
        states[0] == WalkView::<Seq<Node>, T>::from(root),
        forall|i: int|
            0 <= i < states.len() - 1 ==> (#[trigger] states[i]).pending.len() > 0 && states[i + 1]
                == folder_read(states[i], yields),
    ensures
        total(states[i], yields) == yield_below(root, Seq::empty(), yields),
    decreases i,
{
    if i == 0 {
        broadcast use vstd::seq_lib::group_to_multiset_ensures;

        reveal_with_fuel(yield_pending, 2);
        let start = WalkView::<Seq<Node>, T>::from(root);
        assert(start.pending.drop_last() =~= Seq::empty());
        assert(start.found.to_multiset() =~= Multiset::empty());
        assert(total(start, yields) =~= yield_below(root, Seq::empty(), yields));
    } else {
        lemma_total_stays(root, yields, states, i - 1);
        law_reading_keeps_total(states[i - 1], yields);
    }
}

/// The number of folders below a folder that holds `nodes`.
pub open spec fn folders_below(nodes: Seq<Node>) -> nat
    decreases nodes,
{
    if nodes.len() == 0 {
        0
    } else {
        folders_below(nodes.drop_last()) + match nodes.last() {
            Node::File { .. } => 0nat,
            Node::Folder { children, .. } => 1 + folders_below(children),
        }
    }
}

/// The number of folders that a walk has still to read.
pub open spec fn folders_pending(pending: Seq<(Seq<Node>, Seq<char>)>) -> nat
    decreases pending.len(),
{
    if pending.len() == 0 {
        0
    } else {
        folders_pending(pending.drop_last()) + 1 + folders_below(pending.last().0)
    }
}

proof fn lemma_shown_folders<T>(
    walk: WalkView<Seq<Node>, T>,
    nodes: Seq<Node>,
    prefix: Seq<char>,
    yields: Yield<T>,
)
    ensures
        folders_pending(shown_all(walk, nodes, prefix, yields).pending) == folders_pending(
            walk.pending,
        ) + folders_below(nodes),
    decreases nodes.len(),
{
    if nodes.len() > 0 {
        let rest = nodes.drop_last();
        lemma_shown_folders(walk, rest, prefix, yields);
        let before = shown_all(walk, rest, prefix, yields);
        let after = shown_all(walk, nodes, prefix, yields);
        match nodes.last() {
            Node::Folder { name, children } => {
                assert(after.pending.drop_last() =~= before.pending);
            },
            Node::File { .. } => {
                assert(after.pending =~= before.pending);
            },
        }
    }
}

/// Every walk ends: reading a folder leaves one folder less to read, and a walk
/// that has none to read is over.
pub proof fn law_walk_ends<T>(walk: WalkView<Seq<Node>, T>, yields: Yield<T>)
    ensures
        walk.pending.len() > 0 ==> folders_pending(folder_read(walk, yields).pending) + 1
            == folders_pending(walk.pending),
        folders_pending(walk.pending) == 0 <==> walk.pending.len() == 0,
{
    if walk.pending.len() > 0 {
        let (nodes, prefix) = walk.pending.last();
        lemma_shown_folders(walk.popped(), nodes, prefix, yields);
    }
}

/// Where the root is skipped, the media files below the root are listed as
/// ever, and those at the root are not. A name holds no slash.
pub proof fn law_root_is_skipped(
    job_id: Seq<char>,
    prefix: Seq<char>,
    name: Seq<char>,
    size: u64,
    kind: Option<MediaKind>,
)
    requires
        !occurs(name, "/"@),
    ensures
        item_of(job_id, true, prefix, name, size, kind) == if prefix.len() == 0 {
            None
        } else {
            item_of(job_id, false, prefix, name, size, kind)
        },
{
    reveal_strlit("/");
    let path = child_path(prefix, name);
    if prefix.len() > 0 {
        let i = prefix.len() as int;
        assert(path.subrange(i, i + 1) =~= "/"@);
        assert(occurs_at(path, "/"@, i));
    }
}

/// The group of an item is the first folder of its path: that of the folder
/// which it is in, or else that folder itself; at the root it is empty. A name holds no slash.
pub proof fn law_group_is_first_folder(prefix: Seq<char>, name: Seq<char>)
    requires
        !occurs(name, "/"@),
    ensures
        group_of(child_path(prefix, name)) == if prefix.len() == 0 {
            Seq::empty()
        } else if occurs(prefix, "/"@) {
            group_of(prefix)
        } else {
            prefix
        },
{
    reveal_strlit("/");
    let path = child_path(prefix, name);
    let slash = "/"@;
    assert(slash =~= seq!['/']);
    if prefix.len() > 0 {
        let n = prefix.len() as int;
        assert(path.subrange(n, n + 1) =~= slash);
        assert(occurs_at(path, slash, n));
        assert forall|i: int| 0 <= i < n implies occurs_at(path, slash, i) == occurs_at(
            prefix,
            slash,
            i,
        ) by {
            assert(path.subrange(i, i + 1) =~= prefix.subrange(i, i + 1));
        }
        if occurs(prefix, slash) {
            law_first_of(prefix, slash);
            let i = first_of(prefix, slash)->0;
            assert(is_first(path, slash, i));
            lemma_first(path, slash, i);
            assert(path.take(i) =~= prefix.take(i));
        } else {
            assert(is_first(path, slash, n));
            lemma_first(path, slash, n);
            assert(path.take(n) =~= prefix);
        }
    }
}

/// What is listed can be served: the path of an item is never refused, and
/// names the file below the folder of the job. Names and prefixes do not begin with a slash.
pub proof fn law_listed_item_is_located(
    download_dir: Seq<char>,
    job_id: Seq<char>,
    skip_root: bool,
    prefix: Seq<char>,
    name: Seq<char>,
    size: u64,
    kind: Option<MediaKind>,
)
    requires
        !is_absolute(prefix),
        !is_absolute(name),
    ensures
        item_of(job_id, skip_root, prefix, name, size, kind) matches Some(item) ==> {
            &&& item.url == "/files/"@ + job_id + "/"@ + item.path
            &&& located(download_dir, job_id, item.path) == Some(
                joined(job_folder(download_dir, job_id), item.path),
            )
        },
{
    let path = child_path(prefix, name);
    law_relative_path_is_located(download_dir, job_id, path);
}

/// Where the root is not skipped, a file is listed exactly where it is an image
/// or a video, at the root as well as below it; where the root is skipped, so
/// is every such file below the root. What is listed has the file's kind, size,
/// name and path, a URL for the path, and the first folder of the path as its
/// group. A name holds no slash.
pub proof fn law_listed_item(
    job_id: Seq<char>,
    skip_root: bool,
    prefix: Seq<char>,
    name: Seq<char>,
    size: u64,
    kind: Option<MediaKind>,
)
    requires
        !occurs(name, "/"@),
    ensures
        ({
            let item = item_of(job_id, skip_root, prefix, name, size, kind);
            let path = if prefix.len() == 0 {
                name
            } else {
                prefix + "/"@ + name
            };
            &&& item is Some <==> kind is Some && (!skip_root || prefix.len() > 0)
            &&& item matches Some(m) ==> {
                &&& kind == Some(m.kind)
                &&& m.size == size
                &&& m.name == name
                &&& m.path == path
                &&& m.url == "/files/"@ + job_id + "/"@ + path
                &&& prefix.len() == 0 ==> m.group.len() == 0
                &&& prefix.len() > 0 && !occurs(prefix, "/"@) ==> m.group == prefix
            }
        }),
{
    law_root_is_skipped(job_id, prefix, name, size, kind);
    law_group_is_first_folder(prefix, name);
}

/// The group of an item goes by the first folder alone, however deep the item is.
pub proof fn law_group_of_deep_item(first: Seq<char>, rest: Seq<char>)
    requires
        !occurs(first, "/"@),
    ensures
        group_of(first + "/"@ + rest) == first,
{
    reveal_strlit("/");
    assert forall|i: int| 0 <= i < first.len() implies #[trigger] first[i] != '/' by {
        if first[i] == '/' {
            assert(first.subrange(i, i + 1) =~= "/"@);
            assert(occurs_at(first, "/"@, i));
        }
    }
    assert("/"@ =~= seq!['/']);
    assert(first + "/"@ + rest =~= first.push('/') + rest);
    lemma_first_char(first, '/', rest);
    assert((first + "/"@ + rest).take(first.len() as int) =~= first);
}

/// A walk through the media files of a job lists a file by what follows the
/// last dot of its name: those of the extensions of images as images, those of
/// the extensions of videos as videos, and no other. The letters' case does not
/// count, where the extension is of ASCII characters.
pub proof fn law_media_files_are_listed(
    job_id: Seq<char>,
    skip_root: bool,
    prefix: Seq<char>,
    stem: Seq<char>,
    ext: Seq<char>,
    size: u64,
)
    requires
        !occurs(stem + "."@ + ext, "/"@),
        forall|i: int| 0 <= i < ext.len() ==> #[trigger] ext[i] != '.',
        is_ascii_chars(ext),
        !skip_root || prefix.len() > 0,
    ensures
        ({
            let found = media_file(job_id, skip_root)(prefix, stem + "."@ + ext, size);
            let e = lowered(ext);
            let image = e == "jpg"@ || e == "jpeg"@ || e == "png"@ || e == "gif"@ || e == "webp"@
                || e == "avif"@ || e == "heic"@ || e == "heif"@;
            let video = e == "mp4"@ || e == "webm"@ || e == "mov"@ || e == "mkv"@ || e == "avi"@
                || e == "m4v"@ || e == "3gp"@;
            &&& found is Some <==> image || video
            &&& found matches Some(m) ==> (m.kind == MediaKind::Image <==> image) && m.size == size
        }),
{
    let name = stem + "."@ + ext;
    law_kind_goes_by_extension(stem, ext, ext);
    lemma_no_dot(ext);
    law_kind_of_extension(lowered(ext));
    law_listed_item(job_id, skip_root, prefix, name, size, kind_of_name(name));
}

/// A walk through all the files of a job lists every file, of any kind, at the
/// root and below it, with its name, its size and its path.
pub proof fn law_every_file_is_listed(prefix: Seq<char>, name: Seq<char>, size: u64)
    ensures
        any_file()(prefix, name, size) matches Some(f) && {
            &&& f.name == name
            &&& f.size == size
            &&& f.path == if prefix.len() == 0 {
                name
            } else {
                prefix + "/"@ + name
            }
        },
{
}

/// What a walk does with what it is shown: a folder is to be read, by its path,
/// before all that were to be read so far, and a file is found or not; neither
/// changes what was found before or what is to be read otherwise.
pub proof fn law_visit<D, T>(
    walk: WalkView<D, T>,
    prefix: Seq<char>,
    e: EntryView<D>,
    yields: Yield<T>,
)
    ensures
        e.is_dir ==> {
            let next = walk.visited(prefix, e, yields);
            &&& next.found == walk.found
            &&& next.pending == walk.pending.push(
                (
                    e.place,
                    if prefix.len() == 0 {
                        e.name
                    } else {
                        prefix + "/"@ + e.name
                    },
                ),
            )
        },
        !e.is_dir ==> {
            let next = walk.visited(prefix, e, yields);
            &&& next.pending == walk.pending
            &&& yields(prefix, e.name, e.size) is None ==> next.found == walk.found
            &&& yields(prefix, e.name, e.size) matches Some(t) ==> next.found == walk.found.push(t)
        },
{
}

/// A walk begins with the folder that it is given, at the empty path, and with
/// nothing found; asking for the next folder takes the one that was seen last.
pub proof fn law_walk_begins<D, T>(base: D, walk: WalkView<D, T>)
    ensures
        WalkView::<D, T>::from(base).pending == seq![(base, Seq::<char>::empty())],
        WalkView::<D, T>::from(base).found.len() == 0,
        walk.pending.len() > 0 ==> walk.popped().pending == walk.pending.drop_last(),
        walk.popped().found == walk.found,
{
}

/// A walk through the media files of a job lists a file exactly where its name
/// makes it an image or a video and it is not at a root that is skipped. A name
/// holds no slash.
pub proof fn law_media_walk(
    job_id: Seq<char>,
    skip_root: bool,
    prefix: Seq<char>,
    name: Seq<char>,
    size: u64,
)
    requires
        !occurs(name, "/"@),
    ensures
        ({
            let found = media_file(job_id, skip_root)(prefix, name, size);
            let path = if prefix.len() == 0 {
                name
            } else {
                prefix + "/"@ + name
            };
            &&& found is Some <==> kind_of_name(name) is Some && (!skip_root || prefix.len() > 0)
            &&& found matches Some(m) ==> {
                &&& kind_of_name(name) == Some(m.kind)
                &&& m.size == size
                &&& m.name == name
                &&& m.path == path
                &&& m.url == "/files/"@ + job_id + "/"@ + path
            }
        }),
{
    law_listed_item(job_id, skip_root, prefix, name, size, kind_of_name(name));
}

/// The views of what was found are those of each, one for one and in their order.
pub proof fn law_listing_views(files: Seq<FileEntry>, items: Seq<MediaItem>, i: int)
    ensures
        file_views(files).len() == files.len(),
        item_views(items).len() == items.len(),
        0 <= i < files.len() ==> file_views(files)[i] == files[i]@,
        0 <= i < items.len() ==> item_views(items)[i] == items[i]@,
{
}

} // verus!

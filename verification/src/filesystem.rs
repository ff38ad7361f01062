//! What the reader of the filesystem hands on: the listing of a directory
//! in display order, the count of its visible children and the bytes that
//! its files hold. The reads themselves are made by the caller, who passes
//! in what the operating system said.

use vstd::prelude::*;
use crate::cache::{listing_view, DirectoryCache, FileEntry, FileEntryView};
use crate::sorting::{
    insert_pos, lemma_insert_pos_take, lemma_sort_by, sort_by, sorted_by, total_preorder,
};
use crate::text::{
    chars_leq, chars_of, lemma_lex_total, lemma_lex_transitive, lex_leq, lowercase, lowercase_of,
    saturate,
};

verus! {

/// What the operating system says of a directory entry.
#[derive(Debug, Clone, Copy, PartialEq, Eq, Structural)]
pub struct RawMetadata {
    /// The entry is a directory.
    pub is_dir: bool,
    /// The entry is a regular file.
    pub is_file: bool,
    /// Size in bytes.
    pub len: u64,
    /// Last modification in seconds since the Unix epoch, where it is known.
    pub modified: Option<u64>,
}

/// A directory entry as it was read: its name, its path and its metadata
/// where the metadata could be read.
#[derive(Debug)]
pub struct RawEntry {
    pub name: String,
    pub path: String,
    pub metadata: Option<RawMetadata>,
}

/// What a `RawEntry` holds, as plain values.
pub struct RawEntryView {
    pub name: Seq<char>,
    pub path: Seq<char>,
    pub metadata: Option<RawMetadata>,
}

impl View for RawEntry {
    type V = RawEntryView;

    open spec fn view(&self) -> RawEntryView {
        RawEntryView { name: self.name@, path: self.path@, metadata: self.metadata }
    }
}

/// What a list of raw entries holds, one by one.
pub open spec fn raw_views(raw: Seq<RawEntry>) -> Seq<RawEntryView> {
    raw.map_values(|r: RawEntry| r@)
}

/// A name that marks its entry as hidden: it begins with a dot.
pub open spec fn is_hidden(name: Seq<char>) -> bool {
    name.len() > 0 && name[0] == '.'
}

/// Tells whether `name` marks its entry as hidden.
pub fn name_is_hidden(name: &String) -> (hidden: bool)
    ensures
        hidden == is_hidden(name@),
{
    let s = name.as_str();
    if s.is_empty() {
        false
    } else {
        s.get_char(0) == '.'
    }
}

/// The entries that a listing shows: those whose metadata could be read and,
/// unless hidden entries are asked for, whose name does not mark them as
/// hidden.
pub open spec fn shown(show_hidden: bool) -> spec_fn(RawEntryView) -> bool {
    |r: RawEntryView| r.metadata is Some && (show_hidden || !is_hidden(r.name))
}

/// The entries that a count of children counts: all of them, or those whose
/// name does not mark them as hidden.
pub open spec fn counted(show_hidden: bool) -> spec_fn(Seq<char>) -> bool {
    |name: Seq<char>| show_hidden || !is_hidden(name)
}

/// The listing entry for a raw entry whose metadata was read. A directory
/// gets size zero and an unknown modification time the Unix epoch.
pub open spec fn entry_of(r: RawEntryView) -> FileEntryView {
    let m = r.metadata->0;
    FileEntryView {
        name: r.name,
        path: r.path,
        size_bytes: if m.is_dir {
            0
        } else {
            m.len
        },
        modified: match m.modified {
            Some(t) => t,
            None => 0,
        },
        is_directory: m.is_dir,
    }
}

/// The display order of a listing: directories before files, and within
/// each group by lower-cased name.
pub open spec fn display_order() -> spec_fn(FileEntryView, FileEntryView) -> bool {
    |a: FileEntryView, b: FileEntryView|
        if a.is_directory != b.is_directory {
            a.is_directory
        } else {
            lex_leq(lowercase_of(a.name), lowercase_of(b.name))
        }
}

/// The listing that a read of a directory gives: the shown entries in
/// display order, entries that tie in the order in which they were read.
pub open spec fn listing_of(raw: Seq<RawEntryView>, show_hidden: bool) -> Seq<FileEntryView> {
    sort_by(
        raw.filter(shown(show_hidden)).map_values(|r: RawEntryView| entry_of(r)),
        display_order(),
    )
}

/// The display order compares any two entries, and consistently; so a
/// listing in that order has its directories first and each group by name.
pub proof fn lemma_display_order()
    ensures
        total_preorder(display_order()),
{
    let leq = display_order();
    assert forall|a: FileEntryView, b: FileEntryView| #[trigger] leq(a, b) || leq(b, a) by {
        lemma_lex_total(lowercase_of(a.name), lowercase_of(b.name));
    }
    assert forall|a: FileEntryView, b: FileEntryView, c: FileEntryView| #[trigger]
        leq(a, b) && #[trigger] leq(b, c) implies leq(a, c) by {
        if a.is_directory == b.is_directory && b.is_directory == c.is_directory {
            lemma_lex_transitive(
                lowercase_of(a.name),
                lowercase_of(b.name),
                lowercase_of(c.name),
            );
        }
    }
}

/// A listing is in display order, so that every directory stands before
/// every file and each group is ordered by lower-cased name; and it holds the
/// shown entries and nothing else, each as often as it was read.
pub proof fn law_listing_is_ordered(raw: Seq<RawEntryView>, show_hidden: bool)
    ensures
        sorted_by(listing_of(raw, show_hidden), display_order()),
        listing_of(raw, show_hidden).to_multiset() == raw.filter(shown(show_hidden)).map_values(
            |r: RawEntryView| entry_of(r),
        ).to_multiset(),
        listing_of(raw, show_hidden).len() == raw.filter(shown(show_hidden)).len(),
        forall|i: int, j: int|
            0 <= i <= j < listing_of(raw, show_hidden).len() && (#[trigger] listing_of(
                raw,
                show_hidden,
            )[j]).is_directory ==> (#[trigger] listing_of(raw, show_hidden)[i]).is_directory,
{
    let kept = raw.filter(shown(show_hidden)).map_values(|r: RawEntryView| entry_of(r));
    let listing = listing_of(raw, show_hidden);
    lemma_display_order();
    lemma_sort_by(kept, display_order());
    assert forall|i: int, j: int|
        0 <= i <= j < listing.len() && (#[trigger] listing[j]).is_directory implies (
        #[trigger] listing[i]).is_directory by {
        assert(display_order()(listing[i], listing[j]));
    }
}

/// A listing entry together with the key that it is sorted by.
struct Keyed {
    key: Vec<char>,
    entry: FileEntry,
}

impl Keyed {
    spec fn wf(self) -> bool {
        self.key@ == lowercase_of(self.entry.name@)
    }
}

spec fn keyed_views(list: Seq<Keyed>) -> Seq<FileEntryView> {
    list.map_values(|k: Keyed| k.entry@)
}

/// Tells whether `a` does not come after `b` in display order.
fn not_after(a: &Keyed, b: &Keyed) -> (r: bool)
    requires
        a.wf(),
        b.wf(),
    ensures
        r == display_order()(a.entry@, b.entry@),
{
    if a.entry.is_directory != b.entry.is_directory {
        a.entry.is_directory
    } else {
        chars_leq(&a.key, &b.key)
    }
}

/// The listing of a directory from what a read of it returned: the entries
/// whose metadata could be read, without the hidden ones unless
/// `show_hidden` is set, directories first and then by lower-cased name.
pub fn read_directory_sync(raw: &Vec<RawEntry>, show_hidden: bool) -> (listing: Vec<FileEntry>)
    ensures
        listing_view(listing@) == listing_of(raw_views(raw@), show_hidden),
{
    let ghost all = raw_views(raw@);
    let ghost to_entry = |r: RawEntryView| entry_of(r);
    let mut kept: Vec<Keyed> = Vec::new();
    let mut i: usize = 0;
    proof {
        reveal(Seq::filter);
        assert(all.take(0) =~= Seq::<RawEntryView>::empty());
        assert(keyed_views(kept@) =~= all.take(0).filter(shown(show_hidden)).map_values(to_entry));
    }
    while i < raw.len()
        invariant
            i <= raw.len(),
            all == raw_views(raw@),
            to_entry == |r: RawEntryView| entry_of(r),
            keyed_views(kept@) == all.take(i as int).filter(shown(show_hidden)).map_values(
                to_entry,
            ),
            forall|j: int| 0 <= j < kept.len() ==> (#[trigger] kept@[j]).wf(),
        decreases raw.len() - i,
    {
        let r = &raw[i];
        let ghost before = all.take(i as int).filter(shown(show_hidden));
        proof {
            reveal(Seq::filter);
            assert(all.take(i + 1).drop_last() =~= all.take(i as int));
            assert(all.take(i + 1).last() == r@);
        }
        match r.metadata {
            Some(m) => {
                if show_hidden || !name_is_hidden(&r.name) {
                    let entry = FileEntry {
                        name: r.name.clone(),
                        path: r.path.clone(),
                        size_bytes: if m.is_dir {
                            0
                        } else {
                            m.len
                        },
                        modified: match m.modified {
                            Some(t) => t,
                            None => 0,
                        },
                        is_directory: m.is_dir,
                    };
                    let lower = lowercase(&r.name);
                    let key = chars_of(lower.as_str());
                    let ghost old_views = keyed_views(kept@);
                    kept.push(Keyed { key, entry });
                    proof {
                        assert(keyed_views(kept@) =~= old_views.push(entry_of(r@)));
                        assert(before.push(r@).map_values(to_entry) =~= before.map_values(
                            to_entry,
                        ).push(entry_of(r@)));
                    }
                }
            },
            None => {},
        }
        i = i + 1;
    }
    assert(all.take(raw.len() as int) =~= all);
    let ghost unsorted = keyed_views(kept@);
    let mut sorted: Vec<Keyed> = Vec::new();
    let mut n: usize = 0;
    assert(unsorted.take(0) =~= Seq::<FileEntryView>::empty());
    while n < kept.len()
        invariant
            n <= kept.len(),
            unsorted == keyed_views(kept@),
            keyed_views(sorted@) == sort_by(unsorted.take(n as int), display_order()),
            forall|j: int| 0 <= j < kept.len() ==> (#[trigger] kept@[j]).wf(),
            forall|j: int| 0 <= j < sorted.len() ==> (#[trigger] sorted@[j]).wf(),
        decreases kept.len() - n,
    {
        let item = Keyed { key: kept[n].key.clone(), entry: kept[n].entry.clone() };
        assert(item.key@ == kept@[n as int].key@);
        let ghost front = keyed_views(sorted@);
        let mut k: usize = sorted.len();
        while k > 0 && !not_after(&sorted[k - 1], &item)
            invariant
                k <= sorted.len(),
                item.wf(),
                front == keyed_views(sorted@),
                forall|j: int| 0 <= j < sorted.len() ==> (#[trigger] sorted@[j]).wf(),
                forall|j: int|
                    k <= j < front.len() ==> !display_order()(#[trigger] front[j], item.entry@),
            decreases k,
        {
            k = k - 1;
        }
        proof {
            lemma_insert_pos_take(front, item.entry@, display_order(), k as int);
            let head = front.take(k as int);
            if k > 0 {
                assert(head.last() == front[k - 1]);
            }
            assert(insert_pos(head, item.entry@, display_order()) == k);
            assert(unsorted.take(n + 1).drop_last() =~= unsorted.take(n as int));
            assert(unsorted.take(n + 1).last() == item.entry@);
        }
        let ghost placed = item.entry@;
        sorted.insert(k, item);
        proof {
            assert(keyed_views(sorted@) =~= front.insert(k as int, placed));
        }
        n = n + 1;
    }
    assert(unsorted.take(kept.len() as int) =~= unsorted);
    let mut listing: Vec<FileEntry> = Vec::new();
    let mut m: usize = 0;
    while m < sorted.len()
        invariant
            m <= sorted.len(),
            listing.len() == m,
            forall|j: int| 0 <= j < m ==> listing@[j]@ == sorted@[j].entry@,
        decreases sorted.len() - m,
    {
        listing.push(sorted[m].entry.clone());
        m = m + 1;
    }
    assert(listing_view(listing@) =~= keyed_views(sorted@));
    listing
}

/// The listing of `path` if the cache holds one that is not too old.
/// `None` asks the caller to read the directory and to hand the result to
/// `store_directory`.
pub fn read_directory(path: &String, cache: &mut DirectoryCache) -> (listing: Option<
    Vec<FileEntry>,
>)
    ensures
        exists|now: u128|
            {
                &&& final(cache)@ == #[trigger] old(cache)@.after_lookup(path@, now)
                &&& match listing {
                    Some(found) => old(cache)@.lookup(path@, now) == Some(listing_view(found@)),
                    None => old(cache)@.lookup(path@, now) is None,
                }
            },
        old(cache)@.wf() ==> final(cache)@.wf(),
{
    cache.get(path)
}

/// The listing of `path` from what a read of the directory returned, stored
/// in the cache on the way.
pub fn store_directory(
    path: &String,
    raw: &Vec<RawEntry>,
    show_hidden: bool,
    cache: &mut DirectoryCache,
) -> (listing: Vec<FileEntry>)
    ensures
        listing_view(listing@) == listing_of(raw_views(raw@), show_hidden),
        exists|now: u128| #[trigger]
            old(cache)@.after_insert(path@, listing_of(raw_views(raw@), show_hidden), now)
                == final(cache)@,
        old(cache)@.wf() ==> final(cache)@.wf(),
{
    let listing = read_directory_sync(raw, show_hidden);
    let copy = crate::cache::clone_listing(&listing);
    cache.insert(path.clone(), copy);
    listing
}

/// Number of children of a directory that are shown, from their names.
pub fn count_directory_items(names: &Vec<String>, show_hidden: bool) -> (count: usize)
    ensures
        count == crate::text::string_views(names@).filter(counted(show_hidden)).len(),
{
    let ghost all = crate::text::string_views(names@);
    let mut count: usize = 0;
    let mut i: usize = 0;
    proof {
        reveal(Seq::filter);
        assert(all.take(0) =~= Seq::<Seq<char>>::empty());
    }
    while i < names.len()
        invariant
            i <= names.len(),
            all == crate::text::string_views(names@),
            count == all.take(i as int).filter(counted(show_hidden)).len(),
            count <= i,
        decreases names.len() - i,
    {
        proof {
            reveal(Seq::filter);
            assert(all.take(i + 1).drop_last() =~= all.take(i as int));
            assert(all.take(i + 1).last() == names@[i as int]@);
        }
        if show_hidden || !name_is_hidden(&names[i]) {
            count = count + 1;
        }
        i = i + 1;
    }
    assert(all.take(names.len() as int) =~= all);
    count
}

/// Bytes that the regular files among `children` hold. An entry whose
/// metadata could not be read counts zero.
pub open spec fn file_bytes(children: Seq<RawEntryView>) -> nat
    decreases children.len(),
{
    if children.len() == 0 {
        0
    } else {
        let last = children.last();
        file_bytes(children.drop_last()) + (match last.metadata {
            Some(m) => if m.is_file {
                m.len as nat
            } else {
                0
            },
            None => 0,
        })
    }
}

/// The entries among `children` that a traversal descends into: the
/// directories that are no regular files.
pub open spec fn descends() -> spec_fn(RawEntryView) -> bool {
    |r: RawEntryView| r.metadata matches Some(m) && !m.is_file && m.is_dir
}

/// The paths of the directories among `children`, in order.
pub open spec fn subdirectories(children: Seq<RawEntryView>) -> Seq<Seq<char>> {
    children.filter(descends()).map_values(|r: RawEntryView| r.path)
}

/// The files of two listings hold together what they hold apart.
pub proof fn lemma_file_bytes_add(a: Seq<RawEntryView>, b: Seq<RawEntryView>)
    ensures
        file_bytes(a + b) == file_bytes(a) + file_bytes(b),
    decreases b.len(),
{
    if b.len() == 0 {
        assert(a + b =~= a);
    } else {
        assert((a + b).drop_last() =~= a + b.drop_last());
        assert((a + b).last() == b.last());
        lemma_file_bytes_add(a, b.drop_last());
    }
}

/// Total size of the regular files among `entries`, as a walk over a whole
/// tree lists them. The result is clamped to `u64::MAX`.
pub fn total_file_bytes(entries: &Vec<RawEntry>) -> (total: u64)
    ensures
        total == saturate(file_bytes(raw_views(entries@))),
{
    let ghost all = raw_views(entries@);
    let mut total: u64 = 0;
    let mut i: usize = 0;
    assert(all.take(0) =~= Seq::<RawEntryView>::empty());
    while i < entries.len()
        invariant
            i <= entries.len(),
            all == raw_views(entries@),
            total == saturate(file_bytes(all.take(i as int))),
        decreases entries.len() - i,
    {
        proof {
            assert(all.take(i + 1).drop_last() =~= all.take(i as int));
            assert(all.take(i + 1).last() == entries@[i as int]@);
        }
        match entries[i].metadata {
            Some(m) => {
                if m.is_file {
                    total = total.saturating_add(m.len);
                }
            },
            None => {},
        }
        i = i + 1;
    }
    assert(all.take(entries.len() as int) =~= all);
    total
}

/// A traversal of a directory tree that adds up the sizes of its files: the
/// bytes counted so far and the directories that are still to be read.
#[derive(Debug)]
pub struct SizeWalk {
    total: u64,
    pending: Vec<String>,
}

/// A `SizeWalk` as a mathematical value.
pub struct SizeWalkModel {
    /// Bytes counted so far, clamped to `u64::MAX`.
    pub total: u64,
    /// Directories still to be read; the next one is the last.
    pub pending: Seq<Seq<char>>,
}

impl View for SizeWalk {
    type V = SizeWalkModel;

    closed spec fn view(&self) -> SizeWalkModel {
        SizeWalkModel { total: self.total, pending: crate::text::string_views(self.pending@) }
    }
}

impl SizeWalk {
    /// A traversal that has counted nothing and has `root` to read.
    pub fn start(root: String) -> (walk: SizeWalk)
        ensures
            walk@ == (SizeWalkModel { total: 0, pending: seq![root@] }),
    {
        let mut pending: Vec<String> = Vec::new();
        pending.push(root);
        let walk = SizeWalk { total: 0, pending };
        assert(walk@.pending =~= seq![root@]);
        walk
    }

    /// The directory to read next, taken off the traversal; `None` when the
    /// traversal is complete.
    pub fn next_directory(&mut self) -> (next: Option<String>)
        ensures
            final(self)@.total == old(self)@.total,
            match next {
                Some(path) => old(self)@.pending.len() > 0 && path@ == old(self)@.pending.last()
                    && final(self)@.pending == old(self)@.pending.drop_last(),
                None => old(self)@.pending.len() == 0 && final(self)@ == old(self)@,
            },
    {
        let ghost before = self@;
        let next = self.pending.pop();
        proof {
            if before.pending.len() > 0 {
                assert(self@.pending =~= before.pending.drop_last());
            }
        }
        next
    }

    /// Takes in what a read of a directory returned: the sizes of its
    /// regular files are added to the total, which is clamped to `u64::MAX`,
    /// and its directories are still to be read.
    pub fn absorb(&mut self, children: &Vec<RawEntry>)
        ensures
            final(self)@.total == saturate(
                old(self)@.total as nat + file_bytes(raw_views(children@)),
            ),
            final(self)@.pending == old(self)@.pending + subdirectories(raw_views(children@)),
    {
        let ghost all = raw_views(children@);
        let ghost before = self@;
        let ghost to_path = |r: RawEntryView| r.path;
        let mut i: usize = 0;
        proof {
            reveal(Seq::filter);
            assert(all.take(0) =~= Seq::<RawEntryView>::empty());
            assert(self@.pending =~= before.pending + subdirectories(all.take(0)));
        }
        while i < children.len()
            invariant
                i <= children.len(),
                all == raw_views(children@),
                to_path == |r: RawEntryView| r.path,
                self@.total == saturate(before.total as nat + file_bytes(all.take(i as int))),
                self@.pending == before.pending + subdirectories(all.take(i as int)),
            decreases children.len() - i,
        {
            let ghost seen = all.take(i as int).filter(descends());
            let ghost pending = self@.pending;
            proof {
                reveal(Seq::filter);
                assert(all.take(i + 1).drop_last() =~= all.take(i as int));
                assert(all.take(i + 1).last() == children@[i as int]@);
            }
            match children[i].metadata {
                Some(m) => {
                    if m.is_file {
                        self.total = self.total.saturating_add(m.len);
                    } else if m.is_dir {
                        self.pending.push(children[i].path.clone());
                        proof {
                            assert(self@.pending =~= pending.push(children@[i as int]@.path));
                            assert(seen.push(children@[i as int]@).map_values(to_path)
                                =~= seen.map_values(to_path).push(children@[i as int]@.path));
                        }
                    }
                },
                None => {},
            }
            proof {
                assert(self@.pending =~= before.pending + subdirectories(all.take(i + 1)));
            }
            i = i + 1;
        }
        assert(all.take(children.len() as int) =~= all);
    }

    /// Bytes counted so far.
    pub fn total(&self) -> (total: u64)
        ensures
            total == self@.total,
    {
        self.total
    }

    /// Tells whether nothing is left to read.
    pub fn is_complete(&self) -> (done: bool)
        ensures
            done == (self@.pending.len() == 0),
    {
        self.pending.len() == 0
    }
}

/// The total after a traversal has taken in `listings` one after another,
/// starting from `total`.
pub open spec fn absorbed_total(total: u64, listings: Seq<Seq<RawEntryView>>) -> u64
    decreases listings.len(),
{
    if listings.len() == 0 {
        total
    } else {
        saturate(
            absorbed_total(total, listings.drop_last()) as nat + file_bytes(listings.last()),
        )
    }
}

/// Traversal and flat walk agree: a traversal that reads a tree directory by
/// directory counts the bytes that a walk counts which lists the entries of
/// all these directories at once.
pub proof fn law_traversal_matches_flat_walk(listings: Seq<Seq<RawEntryView>>)
    ensures
        absorbed_total(0, listings) == saturate(file_bytes(listings.flatten())),
    decreases listings.len(),
{
    if listings.len() == 0 {
        assert(listings.flatten() =~= Seq::<RawEntryView>::empty());
    } else {
        let front = listings.drop_last();
        law_traversal_matches_flat_walk(front);
        assert(listings =~= front.push(listings.last()));
        front.lemma_flatten_push(listings.last());
        lemma_file_bytes_add(front.flatten(), listings.last());
    }
}

} // verus!

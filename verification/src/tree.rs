//! The directory tree: one level of it in order, and the tree behind the open
//! directories flattened into the rows that are on show.
//!
//! The file system is read by the caller, who hands over what it found: the
//! entries of the root, and a snapshot with the listing of each directory
//! that is open. A directory without a listing in the snapshot has no entries.

use vstd::prelude::*;
use crate::order::{
    Entry,
    entry_before,
    insertion_point,
    is_sorted,
    lemma_sorted_entries_sorted,
    order_from,
    sorted_entries,
    text_order,
};
use crate::text::{chars_of, lowercase_of, to_lowercase};

verus! {

/// The deepest level whose entries are shown; what lies deeper is left out.
pub const MAX_TREE_DEPTH: usize = 50;

/// One entry of a directory as the file system gave it.
#[derive(Debug)]
pub struct RawEntry {
    pub name: String,
    pub path: String,
    pub is_directory: bool,
    pub is_symlink: bool,
}

impl View for RawEntry {
    type V = Entry;

    open spec fn view(&self) -> Entry {
        Entry {
            name: self.name@,
            path: self.path@,
            is_directory: self.is_directory,
            is_symlink: self.is_symlink,
        }
    }
}

/// The entries that a vector of raw entries holds.
pub open spec fn raw_entries(raw: Seq<RawEntry>) -> Seq<Entry> {
    raw.map_values(|e: RawEntry| e@)
}

/// One entry of the tree. `children` is `None` until they are loaded.
#[derive(Debug)]
pub struct TreeNode {
    pub name: String,
    pub path: String,
    pub is_directory: bool,
    pub is_symlink: bool,
    pub children: Option<Vec<TreeNode>>,
}

impl TreeNode {
    /// What the file system said of this node.
    pub open spec fn entry(&self) -> Entry {
        Entry {
            name: self.name@,
            path: self.path@,
            is_directory: self.is_directory,
            is_symlink: self.is_symlink,
        }
    }
}

/// The entries that a level of the tree holds.
pub open spec fn entries_of(nodes: Seq<TreeNode>) -> Seq<Entry> {
    nodes.map_values(|node: TreeNode| node.entry())
}

/// True of a level none of whose nodes has its children loaded.
pub open spec fn unloaded(nodes: Seq<TreeNode>) -> bool {
    forall|k: int| 0 <= k < nodes.len() ==> (#[trigger] nodes[k]).children is None
}

/// One row of the tree as it is on show.
#[derive(Debug)]
pub struct VisibleRow {
    pub name: String,
    pub path: String,
    pub is_directory: bool,
    pub is_symlink: bool,
    pub depth: usize,
    pub is_expanded: bool,
}

/// The model of a `VisibleRow`.
pub struct RowModel {
    pub name: Seq<char>,
    pub path: Seq<char>,
    pub is_directory: bool,
    pub is_symlink: bool,
    pub depth: nat,
    pub is_expanded: bool,
}

impl View for VisibleRow {
    type V = RowModel;

    open spec fn view(&self) -> RowModel {
        RowModel {
            name: self.name@,
            path: self.path@,
            is_directory: self.is_directory,
            is_symlink: self.is_symlink,
            depth: self.depth as nat,
            is_expanded: self.is_expanded,
        }
    }
}

/// The rows that a vector of rows stands for.
pub open spec fn rows_model(rows: Seq<VisibleRow>) -> Seq<RowModel> {
    rows.map_values(|row: VisibleRow| row@)
}

/// Tells whether an entry with its name in lower case as key has to stand
/// before another.
fn key_before(a_directory: bool, a_key: &Vec<char>, b_directory: bool, b_key: &Vec<char>) -> (b:
    bool)
    ensures
        b == if a_directory != b_directory {
            a_directory
        } else {
            order_from(a_key@, b_key@, 0) < 0
        },
{
    if a_directory != b_directory {
        a_directory
    } else {
        text_order(a_key, b_key) < 0
    }
}

/// Puts the entries of one directory in order: directories first, then by
/// name without regard to case. The children of the nodes are not loaded.
pub fn build_tree(entries: &Vec<RawEntry>) -> (nodes: Vec<TreeNode>)
    ensures
        entries_of(nodes@) == sorted_entries(raw_entries(entries@)),
        is_sorted(entries_of(nodes@)),
        nodes.len() == entries.len(),
        unloaded(nodes@),
{
    let ghost raw = raw_entries(entries@);
    let mut nodes: Vec<TreeNode> = Vec::new();
    let mut keys: Vec<Vec<char>> = Vec::new();
    let mut i: usize = 0;
    assert(raw.take(0) =~= Seq::<Entry>::empty());
    assert(entries_of(nodes@) =~= sorted_entries(raw.take(0)));
    while i < entries.len()
        invariant
            i <= entries.len(),
            raw == raw_entries(entries@),
            nodes.len() == i,
            keys.len() == i,
            entries_of(nodes@) == sorted_entries(raw.take(i as int)),
            forall|k: int|
                0 <= k < i ==> (#[trigger] keys[k])@ == lowercase_of(nodes[k].name@),
            unloaded(nodes@),
        decreases entries.len() - i,
    {
        let entry = &entries[i];
        let ghost e = entry@;
        let ghost sorted = entries_of(nodes@);
        let lower = to_lowercase(entry.name.as_str());
        let key = chars_of(lower.as_str());
        let mut p: usize = nodes.len();
        assert(sorted.take(p as int) =~= sorted);
        while p > 0 && key_before(
            entry.is_directory,
            &key,
            nodes[p - 1].is_directory,
            &keys[p - 1],
        )
            invariant
                p <= nodes.len(),
                nodes.len() == keys.len(),
                sorted == entries_of(nodes@),
                e == entry@,
                key@ == lowercase_of(e.name),
                forall|k: int|
                    0 <= k < nodes.len() ==> (#[trigger] keys[k])@ == lowercase_of(
                        nodes[k].name@,
                    ),
                insertion_point(sorted, e) == insertion_point(sorted.take(p as int), e),
            decreases p,
        {
            proof {
                let part = sorted.take(p as int);
                assert(part.last() == nodes[p - 1].entry());
                assert(entry_before(e, part.last()));
                assert(part.drop_last() =~= sorted.take(p - 1));
            }
            p -= 1;
        }
        proof {
            let part = sorted.take(p as int);
            if p > 0 {
                assert(part.last() == nodes[p - 1].entry());
                assert(!entry_before(e, part.last()));
            }
            assert(insertion_point(sorted, e) == p);
        }
        let node = TreeNode {
            name: entry.name.clone(),
            path: entry.path.clone(),
            is_directory: entry.is_directory,
            is_symlink: entry.is_symlink,
            children: None,
        };
        nodes.insert(p, node);
        keys.insert(p, key);
        proof {
            let longer = raw.take(i + 1);
            assert(longer.drop_last() =~= raw.take(i as int));
            assert(longer.last() == e);
            assert(entries_of(nodes@) =~= sorted.insert(p as int, e));
        }
        i += 1;
    }
    proof {
        assert(raw.take(i as int) =~= raw);
        lemma_sorted_entries_sorted(raw);
    }
    nodes
}

/// The listing of one directory as it was read.
#[derive(Debug)]
pub struct Listing {
    pub path: String,
    pub entries: Vec<RawEntry>,
}

/// The map that the first `count` of `listings` make: a later listing of a
/// path replaces an earlier one.
pub open spec fn listings_map(listings: Seq<Listing>, count: int) -> Map<Seq<char>, Seq<Entry>>
    decreases count,
{
    if count <= 0 {
        Map::empty()
    } else {
        listings_map(listings, count - 1).insert(
            listings[count - 1].path@,
            raw_entries(listings[count - 1].entries@),
        )
    }
}

/// What was read of the file system: the listing of each directory that was
/// read, by its path.
#[derive(Debug)]
pub struct Snapshot {
    listings: Vec<Listing>,
}

impl Snapshot {
    /// The listings of this snapshot, by path.
    pub closed spec fn as_map(&self) -> Map<Seq<char>, Seq<Entry>> {
        listings_map(self.listings@, self.listings.len() as int)
    }

    /// A snapshot without listings.
    pub fn new() -> (snapshot: Snapshot)
        ensures
            snapshot@ == Map::<Seq<char>, Seq<Entry>>::empty(),
    {
        Snapshot { listings: Vec::new() }
    }

    /// Records the listing of the directory at `path`.
    pub fn record(&mut self, path: String, entries: Vec<RawEntry>)
        ensures
            final(self)@ == old(self)@.insert(path@, raw_entries(entries@)),
    {
        let ghost before = self.listings@;
        self.listings.push(Listing { path, entries });
        proof {
            let after = self.listings@;
            lemma_listings_prefix(before, after, before.len() as int);
        }
    }

    /// Looks up the listing of the directory at `path`.
    pub fn listing(&self, path: &String) -> (found: Option<&Vec<RawEntry>>)
        ensures
            match found {
                Some(entries) => self@.dom().contains(path@) && self@[path@] == raw_entries(
                    entries@,
                ),
                None => !self@.dom().contains(path@),
            },
    {
        let mut i: usize = self.listings.len();
        while i > 0
            invariant
                i <= self.listings.len(),
                self@.dom().contains(path@) == listings_map(
                    self.listings@,
                    i as int,
                ).dom().contains(path@),
                self@.dom().contains(path@) ==> self@[path@] == listings_map(
                    self.listings@,
                    i as int,
                )[path@],
            decreases i,
        {
            if self.listings[i - 1].path == *path {
                return Some(&self.listings[i - 1].entries);
            }
            i -= 1;
        }
        None
    }
}

impl View for Snapshot {
    type V = Map<Seq<char>, Seq<Entry>>;

    open spec fn view(&self) -> Map<Seq<char>, Seq<Entry>> {
        self.as_map()
    }
}

/// The map of the first listings does not depend on those that follow.
proof fn lemma_listings_prefix(shorter: Seq<Listing>, longer: Seq<Listing>, count: int)
    requires
        0 <= count <= shorter.len() <= longer.len(),
        forall|k: int| 0 <= k < shorter.len() ==> shorter[k] == longer[k],
    ensures
        listings_map(shorter, count) == listings_map(longer, count),
    decreases count,
{
    if count > 0 {
        lemma_listings_prefix(shorter, longer, count - 1);
    }
}

/// The entries of the directory at `path` as the snapshot has them: none
/// where it has no listing of it.
pub open spec fn listed(fs: Map<Seq<char>, Seq<Entry>>, path: Seq<char>) -> Seq<Entry> {
    if fs.dom().contains(path) {
        fs[path]
    } else {
        Seq::empty()
    }
}

/// The entries of the directory at `path`, in order.
pub open spec fn children_of(fs: Map<Seq<char>, Seq<Entry>>, path: Seq<char>) -> Seq<Entry> {
    sorted_entries(listed(fs, path))
}

/// The level of the tree below the directory at `path`, from the snapshot.
fn read_children(path: &String, fs: &Snapshot) -> (nodes: Vec<TreeNode>)
    ensures
        entries_of(nodes@) == children_of(fs@, path@),
        unloaded(nodes@),
{
    match fs.listing(path) {
        Some(entries) => build_tree(entries),
        None => {
            let nodes: Vec<TreeNode> = Vec::new();
            assert(entries_of(nodes@) =~= sorted_entries(Seq::<Entry>::empty()));
            nodes
        },
    }
}

/// Loads the children of a directory from the snapshot, in place of any that
/// were loaded before. A node that is no directory is left as it is.
pub fn load_children(node: &mut TreeNode, fs: &Snapshot)
    ensures
        final(node).entry() == old(node).entry(),
        old(node).is_directory ==> final(node).children is Some && entries_of(
            final(node).children->0@,
        ) == children_of(fs@, old(node).path@) && unloaded(final(node).children->0@),
        !old(node).is_directory ==> final(node).children == old(node).children,
{
    if !node.is_directory {
        return;
    }
    let nodes = read_children(&node.path, fs);
    node.children = Some(nodes);
}

/// The paths of the directories that are open.
#[derive(Debug)]
pub struct ExpandedSet {
    paths: Vec<String>,
}

impl ExpandedSet {
    /// The paths of this set.
    pub closed spec fn as_set(&self) -> Set<Seq<char>> {
        Set::new(
            |path: Seq<char>|
                exists|k: int| 0 <= k < self.paths.len() && (#[trigger] self.paths[k])@ == path,
        )
    }

    /// The set without paths.
    pub fn new() -> (set: ExpandedSet)
        ensures
            set@ == Set::<Seq<char>>::empty(),
    {
        let set = ExpandedSet { paths: Vec::new() };
        assert(set.as_set() =~= Set::<Seq<char>>::empty());
        set
    }

    /// Tells whether `path` is in the set.
    pub fn contains(&self, path: &String) -> (b: bool)
        ensures
            b == self@.contains(path@),
    {
        let mut i: usize = 0;
        while i < self.paths.len()
            invariant
                i <= self.paths.len(),
                forall|k: int| 0 <= k < i ==> (#[trigger] self.paths[k])@ != path@,
            decreases self.paths.len() - i,
        {
            if self.paths[i] == *path {
                return true;
            }
            i += 1;
        }
        false
    }

    /// The paths of the set, each at least once, in no order that a caller
    /// can count on.
    pub fn to_vec(&self) -> (paths: Vec<String>)
        ensures
            forall|path: Seq<char>|
                self@.contains(path) <==> exists|k: int|
                    0 <= k < paths.len() && (#[trigger] paths[k])@ == path,
    {
        let mut paths: Vec<String> = Vec::new();
        let mut i: usize = 0;
        while i < self.paths.len()
            invariant
                i <= self.paths.len(),
                paths.len() == i,
                forall|k: int| 0 <= k < i ==> (#[trigger] paths[k])@ == self.paths[k]@,
            decreases self.paths.len() - i,
        {
            paths.push(self.paths[i].clone());
            i += 1;
        }
        assert forall|path: Seq<char>| self.as_set().contains(path) <==> exists|k: int|
            0 <= k < paths.len() && (#[trigger] paths[k])@ == path by {
            if self.as_set().contains(path) {
                let k = choose|k: int|
                    0 <= k < self.paths.len() && (#[trigger] self.paths[k])@ == path;
                assert(paths[k]@ == path);
            }
            if exists|k: int| 0 <= k < paths.len() && (#[trigger] paths[k])@ == path {
                let k = choose|k: int| 0 <= k < paths.len() && (#[trigger] paths[k])@ == path;
                assert(self.paths[k]@ == path);
            }
        }
        paths
    }

    /// Puts `path` into the set, where it is not in it yet.
    pub fn insert(&mut self, path: String)
        ensures
            final(self)@ == old(self)@.insert(path@),
    {
        if self.contains(&path) {
            assert(self.as_set() =~= old(self).as_set().insert(path@));
            return;
        }
        let ghost before = self.paths@;
        self.paths.push(path);
        proof {
            let after = self.paths@;
            assert forall|p: Seq<char>| self.as_set().contains(p) == old(self).as_set().insert(
                path@,
            ).contains(p) by {
                if old(self).as_set().contains(p) {
                    let k = choose|k: int| 0 <= k < before.len() && (#[trigger] before[k])@ == p;
                    assert(after[k]@ == p);
                }
                if p == path@ {
                    assert(after[before.len() as int]@ == p);
                }
            }
            assert(self.as_set() =~= old(self).as_set().insert(path@));
        }
    }

    /// Takes `path` out of the set.
    pub fn remove(&mut self, path: &String)
        ensures
            final(self)@ == old(self)@.remove(path@),
    {
        let mut kept: Vec<String> = Vec::new();
        let mut i: usize = 0;
        while i < self.paths.len()
            invariant
                i <= self.paths.len(),
                forall|k: int|
                    0 <= k < i && (#[trigger] self.paths[k])@ != path@ ==> exists|m: int|
                        0 <= m < kept.len() && (#[trigger] kept[m])@ == self.paths[k]@,
                forall|m: int|
                    0 <= m < kept.len() ==> (#[trigger] kept[m])@ != path@ && exists|k: int|
                        0 <= k < i && (#[trigger] self.paths[k])@ == kept[m]@,
            decreases self.paths.len() - i,
        {
            if self.paths[i] != *path {
                let ghost before = kept@;
                kept.push(self.paths[i].clone());
                proof {
                    assert forall|k: int|
                        0 <= k < i + 1 && (#[trigger] self.paths[k])@ != path@ implies exists|
                        m: int,
                    |
                        0 <= m < kept.len() && (#[trigger] kept[m])@ == self.paths[k]@ by {
                        if k < i {
                            let m = choose|m: int|
                                0 <= m < before.len() && (#[trigger] before[m])@ == self.paths[k]@;
                            assert(kept[m]@ == self.paths[k]@);
                        } else {
                            assert(kept[before.len() as int]@ == self.paths[k]@);
                        }
                    }
                    assert forall|m: int| 0 <= m < kept.len() implies (#[trigger] kept[m])@
                        != path@ && exists|k: int|
                        0 <= k < i + 1 && (#[trigger] self.paths[k])@ == kept[m]@ by {
                        if m < before.len() {
                            assert(kept[m] == before[m]);
                            let k = choose|k: int|
                                0 <= k < i && (#[trigger] self.paths[k])@ == before[m]@;
                            assert(self.paths[k]@ == kept[m]@);
                        } else {
                            assert(self.paths[i as int]@ == kept[m]@);
                        }
                    }
                }
            }
            i += 1;
        }
        let ghost old_paths = self.paths@;
        self.paths = kept;
        proof {
            let new_paths = self.paths@;
            assert forall|p: Seq<char>| self.as_set().contains(p) == old(self).as_set().remove(
                path@,
            ).contains(p) by {
                if self.as_set().contains(p) {
                    let m = choose|m: int|
                        0 <= m < new_paths.len() && (#[trigger] new_paths[m])@ == p;
                    let k = choose|k: int|
                        0 <= k < old_paths.len() && (#[trigger] old_paths[k])@ == new_paths[m]@;
                    assert(old_paths[k]@ == p);
                }
                if old(self).as_set().remove(path@).contains(p) {
                    let k = choose|k: int|
                        0 <= k < old_paths.len() && (#[trigger] old_paths[k])@ == p;
                    let m = choose|m: int|
                        0 <= m < new_paths.len() && (#[trigger] new_paths[m])@ == old_paths[k]@;
                    assert(new_paths[m]@ == p);
                }
            }
            assert(self.as_set() =~= old(self).as_set().remove(path@));
        }
    }
}

impl View for ExpandedSet {
    type V = Set<Seq<char>>;

    open spec fn view(&self) -> Set<Seq<char>> {
        self.as_set()
    }
}

/// True of the names of hidden entries: those that start with a dot.
pub open spec fn is_hidden(name: Seq<char>) -> bool {
    name.len() > 0 && name[0] == '.'
}

/// True of an entry that is shown open: a directory whose path is in the set
/// of open ones.
pub open spec fn is_open(e: Entry, expanded: Set<Seq<char>>) -> bool {
    e.is_directory && expanded.contains(e.path)
}

/// The row that shows the entry `e` at `depth`.
pub open spec fn row_of(e: Entry, depth: nat, expanded: Set<Seq<char>>) -> RowModel {
    RowModel {
        name: e.name,
        path: e.path,
        is_directory: e.is_directory,
        is_symlink: e.is_symlink,
        depth,
        is_expanded: is_open(e, expanded),
    }
}

/// The rows that show `entries[at..]` at `depth`: each entry that is not
/// hidden gets a row, and an open directory is followed by the rows of its
/// own entries, one level deeper. Below the deepest level there are no rows.
pub open spec fn rows_from(
    entries: Seq<Entry>,
    at: int,
    fs: Map<Seq<char>, Seq<Entry>>,
    expanded: Set<Seq<char>>,
    show_hidden: bool,
    depth: nat,
) -> Seq<RowModel>
    decreases 51 - depth, entries.len() - at,
{
    if depth > 50 || at < 0 || at >= entries.len() {
        Seq::empty()
    } else {
        let e = entries[at];
        let rest = rows_from(entries, at + 1, fs, expanded, show_hidden, depth);
        if !show_hidden && is_hidden(e.name) {
            rest
        } else if is_open(e, expanded) {
            seq![row_of(e, depth, expanded)] + rows_from(
                children_of(fs, e.path),
                0,
                fs,
                expanded,
                show_hidden,
                depth + 1,
            ) + rest
        } else {
            seq![row_of(e, depth, expanded)] + rest
        }
    }
}

/// True of an entry that has a row and is shown open.
pub open spec fn is_shown_open(e: Entry, expanded: Set<Seq<char>>, show_hidden: bool) -> bool {
    (show_hidden || !is_hidden(e.name)) && is_open(e, expanded)
}

/// True of a level of the tree that holds what the snapshot has: each
/// directory that is shown open has its entries as children, in order, and so
/// have those below it, down to the deepest level.
pub open spec fn level_loaded(
    nodes: Seq<TreeNode>,
    fs: Map<Seq<char>, Seq<Entry>>,
    expanded: Set<Seq<char>>,
    show_hidden: bool,
    depth: nat,
) -> bool
    decreases 51 - depth,
{
    depth > 50 || forall|i: int|
        0 <= i < nodes.len() && is_shown_open((#[trigger] nodes[i]).entry(), expanded, show_hidden)
            ==> {
            &&& nodes[i].children is Some
            &&& entries_of(nodes[i].children->0@) == children_of(fs, nodes[i].path@)
            &&& level_loaded(nodes[i].children->0@, fs, expanded, show_hidden, depth + 1)
        }
}

/// True where the nodes of `after` that are not shown open hold the children
/// that they hold in `before`.
pub open spec fn others_kept(
    before: Seq<TreeNode>,
    after: Seq<TreeNode>,
    expanded: Set<Seq<char>>,
    show_hidden: bool,
) -> bool {
    forall|i: int|
        0 <= i < before.len() && i < after.len() && !is_shown_open(
            (#[trigger] before[i]).entry(),
            expanded,
            show_hidden,
        ) ==> after[i].children == before[i].children
}

/// The rows that are on show for the root entries `roots`.
pub open spec fn flattened(
    roots: Seq<Entry>,
    fs: Map<Seq<char>, Seq<Entry>>,
    expanded: Set<Seq<char>>,
    show_hidden: bool,
) -> Seq<RowModel> {
    rows_from(roots, 0, fs, expanded, show_hidden, 0)
}

/// Tells whether a name is that of a hidden entry.
pub fn is_hidden_name(name: &String) -> (b: bool)
    ensures
        b == is_hidden(name@),
{
    let text = name.as_str();
    !text.is_empty() && text.get_char(0) == '.'
}

/// Appends to `rows` the rows of the level `nodes`, which stands at `depth`,
/// and of what lies below its open directories, whose children it loads.
fn flatten_recursive(
    nodes: &mut Vec<TreeNode>,
    expanded: &ExpandedSet,
    show_hidden: bool,
    depth: usize,
    rows: &mut Vec<VisibleRow>,
    fs: &Snapshot,
)
    ensures
        rows_model(final(rows)@) == rows_model(old(rows)@) + rows_from(
            entries_of(old(nodes)@),
            0,
            fs@,
            expanded@,
            show_hidden,
            depth as nat,
        ),
        entries_of(final(nodes)@) == entries_of(old(nodes)@),
        level_loaded(final(nodes)@, fs@, expanded@, show_hidden, depth as nat),
        depth <= 50 ==> others_kept(old(nodes)@, final(nodes)@, expanded@, show_hidden),
        depth > 50 ==> final(nodes)@ == old(nodes)@,
    decreases 51 - depth,
{
    let ghost all = entries_of(nodes@);
    let ghost first = rows_model(rows@);
    if depth > MAX_TREE_DEPTH {
        assert(rows_model(rows@) =~= first + rows_from(
            all,
            0,
            fs@,
            expanded@,
            show_hidden,
            depth as nat,
        ));
        return;
    }
    let n = nodes.len();
    let mut i: usize = 0;
    while i < n
        invariant
            depth <= 50,
            i <= n,
            n == nodes.len(),
            n == old(nodes).len(),
            all == entries_of(nodes@),
            all == entries_of(old(nodes)@),
            rows_model(rows@) + rows_from(all, i as int, fs@, expanded@, show_hidden, depth as nat)
                == first + rows_from(all, 0, fs@, expanded@, show_hidden, depth as nat),
            forall|k: int| i <= k < n ==> nodes[k] == old(nodes)[k],
            forall|k: int|
                0 <= k < i && is_shown_open((#[trigger] nodes[k]).entry(), expanded@, show_hidden)
                    ==> {
                    &&& nodes[k].children is Some
                    &&& entries_of(nodes[k].children->0@) == children_of(fs@, nodes[k].path@)
                    &&& level_loaded(
                        nodes[k].children->0@,
                        fs@,
                        expanded@,
                        show_hidden,
                        (depth + 1) as nat,
                    )
                },
            forall|k: int|
                0 <= k < i && !is_shown_open(
                    (#[trigger] old(nodes)[k]).entry(),
                    expanded@,
                    show_hidden,
                ) ==> nodes[k].children == old(nodes)[k].children,
        decreases n - i,
    {
        let ghost before = rows_model(rows@);
        let ghost e = all[i as int];
        let ghost here = rows_from(all, i as int, fs@, expanded@, show_hidden, depth as nat);
        let ghost rest = rows_from(all, i + 1, fs@, expanded@, show_hidden, depth as nat);
        assert(e == nodes[i as int].entry());
        assert(e == old(nodes)[i as int].entry());
        if !show_hidden && is_hidden_name(&nodes[i].name) {
            assert(here == rest);
        } else {
            let is_expanded = nodes[i].is_directory && expanded.contains(&nodes[i].path);
            let row = VisibleRow {
                name: nodes[i].name.clone(),
                path: nodes[i].path.clone(),
                is_directory: nodes[i].is_directory,
                is_symlink: nodes[i].is_symlink,
                depth,
                is_expanded,
            };
            assert(row@ == row_of(e, depth as nat, expanded@));
            rows.push(row);
            assert(rows_model(rows@) =~= before + seq![row_of(e, depth as nat, expanded@)]);
            if is_expanded {
                let mut children = read_children(&nodes[i].path, fs);
                let ghost below = rows_from(
                    children_of(fs@, e.path),
                    0,
                    fs@,
                    expanded@,
                    show_hidden,
                    (depth + 1) as nat,
                );
                flatten_recursive(&mut children, expanded, show_hidden, depth + 1, rows, fs);
                let ghost level = nodes@;
                nodes[i].children = Some(children);
                proof {
                    assert(forall|k: int| 0 <= k < n && k != i ==> nodes[k] == level[k]);
                    assert(entries_of(nodes@) =~= entries_of(level));
                    let piece = seq![row_of(e, depth as nat, expanded@)] + below;
                    assert(here == piece + rest);
                    assert(rows_model(rows@) =~= before + piece);
                    assert((before + piece) + rest =~= before + (piece + rest));
                }
            } else {
                proof {
                    let piece = seq![row_of(e, depth as nat, expanded@)];
                    assert(here == piece + rest);
                    assert((before + piece) + rest =~= before + (piece + rest));
                }
            }
        }
        i += 1;
    }
    assert(rows_model(rows@) + rows_from(all, i as int, fs@, expanded@, show_hidden, depth as nat)
        =~= rows_model(rows@));
}

/// Flattens the tree into the rows that are on show. The children of each
/// open directory that is shown are loaded from the snapshot on the way, in
/// place of any that were loaded before; the other nodes keep theirs.
pub fn flatten_tree(
    nodes: &mut Vec<TreeNode>,
    expanded: &ExpandedSet,
    show_hidden: bool,
    fs: &Snapshot,
) -> (rows: Vec<VisibleRow>)
    ensures
        rows_model(rows@) == flattened(entries_of(old(nodes)@), fs@, expanded@, show_hidden),
        entries_of(final(nodes)@) == entries_of(old(nodes)@),
        level_loaded(final(nodes)@, fs@, expanded@, show_hidden, 0),
        others_kept(old(nodes)@, final(nodes)@, expanded@, show_hidden),
{
    let mut rows: Vec<VisibleRow> = Vec::new();
    flatten_recursive(nodes, expanded, show_hidden, 0, &mut rows, fs);
    assert(rows_model(rows@) =~= flattened(
        entries_of(old(nodes)@),
        fs@,
        expanded@,
        show_hidden,
    ));
    rows
}

/// True where `parent` is the row to go to from the row at `index`: the
/// nearest row before it that is less deep; the row itself where it is at
/// depth 0, where no row before it is less deep, or where there is no row at
/// `index`.
pub open spec fn is_parent_row(rows: Seq<RowModel>, index: int, parent: int) -> bool {
    if 0 <= index < rows.len() && rows[index].depth > 0 {
        ||| {
            &&& 0 <= parent < index
            &&& rows[parent].depth < rows[index].depth
            &&& forall|k: int|
                parent < k < index ==> (#[trigger] rows[k]).depth >= rows[index].depth
        }
        ||| {
            &&& parent == index
            &&& forall|k: int| 0 <= k < index ==> (#[trigger] rows[k]).depth >= rows[index].depth
        }
    } else {
        parent == index
    }
}

/// Finds the row to go to from the row at `index` when moving to its parent.
pub fn find_parent_row(rows: &[VisibleRow], index: usize) -> (parent: usize)
    ensures
        is_parent_row(rows_model(rows@), index as int, parent as int),
        index < rows.len() && rows[index as int].depth == 0 ==> parent == index,
{
    if index >= rows.len() {
        return index;
    }
    let current = rows[index].depth;
    if current == 0 {
        return index;
    }
    let mut i: usize = index;
    while i > 0
        invariant
            i <= index < rows.len(),
            current == rows[index as int].depth,
            current > 0,
            forall|k: int| i <= k < index ==> (#[trigger] rows[k]).depth >= current,
        decreases i,
    {
        if rows[i - 1].depth < current {
            assert forall|k: int| i - 1 < k < index implies (#[trigger] rows_model(
                rows@,
            )[k]).depth >= rows_model(rows@)[index as int].depth by {
                assert(rows[k].depth >= current);
            }
            return i - 1;
        }
        i -= 1;
    }
    assert forall|k: int| 0 <= k < index implies (#[trigger] rows_model(rows@)[k]).depth
        >= rows_model(rows@)[index as int].depth by {
        assert(rows[k].depth >= current);
    }
    index
}

/// True of rows that are nested well from `base` on: the first is at `base`,
/// none is less deep than `base`, and none is more than one level deeper than
/// the row before it.
pub open spec fn well_nested(rows: Seq<RowModel>, base: nat) -> bool {
    &&& rows.len() > 0 ==> rows[0].depth == base
    &&& forall|k: int| 0 <= k < rows.len() ==> (#[trigger] rows[k]).depth >= base
    &&& forall|k: int| 0 < k < rows.len() ==> (#[trigger] rows[k]).depth <= rows[k - 1].depth + 1
}

/// Well-nested rows followed by well-nested rows that start at the same
/// depth or one level below the first of them are well nested.
proof fn lemma_nested_append(a: Seq<RowModel>, b: Seq<RowModel>, base: nat, below: nat)
    requires
        well_nested(a, base),
        well_nested(b, below),
        a.len() > 0,
        below == base || (below == base + 1 && a.len() == 1),
    ensures
        well_nested(a + b, base),
{
    let all = a + b;
    assert forall|k: int| 0 <= k < all.len() implies (#[trigger] all[k]).depth >= base by {
        if k >= a.len() {
            assert(all[k] == b[k - a.len()]);
        } else {
            assert(all[k] == a[k]);
        }
    }
    assert forall|k: int| 0 < k < all.len() implies (#[trigger] all[k]).depth <= all[k - 1].depth
        + 1 by {
        if k > a.len() {
            assert(all[k] == b[k - a.len()]);
            assert(all[k - 1] == b[k - 1 - a.len()]);
        } else if k == a.len() {
            assert(all[k] == b[0]);
            assert(all[k - 1] == a[k - 1]);
        } else {
            assert(all[k] == a[k]);
            assert(all[k - 1] == a[k - 1]);
        }
    }
    assert(all[0] == a[0]);
}

/// The rows of a level and of what lies below it are well nested.
pub proof fn lemma_rows_well_nested(
    entries: Seq<Entry>,
    at: int,
    fs: Map<Seq<char>, Seq<Entry>>,
    expanded: Set<Seq<char>>,
    show_hidden: bool,
    depth: nat,
)
    ensures
        well_nested(rows_from(entries, at, fs, expanded, show_hidden, depth), depth),
    decreases 51 - depth, entries.len() - at,
{
    if depth > 50 || at < 0 || at >= entries.len() {
    } else {
        let e = entries[at];
        let rest = rows_from(entries, at + 1, fs, expanded, show_hidden, depth);
        lemma_rows_well_nested(entries, at + 1, fs, expanded, show_hidden, depth);
        if !show_hidden && is_hidden(e.name) {
        } else {
            let row = seq![row_of(e, depth, expanded)];
            assert(well_nested(row, depth));
            if is_open(e, expanded) {
                let below = rows_from(
                    children_of(fs, e.path),
                    0,
                    fs,
                    expanded,
                    show_hidden,
                    depth + 1,
                );
                lemma_rows_well_nested(
                    children_of(fs, e.path),
                    0,
                    fs,
                    expanded,
                    show_hidden,
                    depth + 1,
                );
                lemma_nested_append(row, below, depth, depth + 1);
                lemma_nested_append(row + below, rest, depth, depth);
            } else {
                lemma_nested_append(row, rest, depth, depth);
            }
        }
    }
}

/// True where `child` shows one of the entries that the snapshot lists under
/// the path of `parent`.
pub open spec fn shows_entry_of(
    child: RowModel,
    parent: RowModel,
    fs: Map<Seq<char>, Seq<Entry>>,
    expanded: Set<Seq<char>>,
) -> bool {
    exists|j: int|
        0 <= j < children_of(fs, parent.path).len() && child == row_of(
            #[trigger] children_of(fs, parent.path)[j],
            child.depth,
            expanded,
        )
}

/// True of rows in which each row that is deeper than the row before it
/// follows an open directory and shows one of its entries.
pub open spec fn steps_into_open(
    rows: Seq<RowModel>,
    fs: Map<Seq<char>, Seq<Entry>>,
    expanded: Set<Seq<char>>,
) -> bool {
    forall|k: int|
        0 < k < rows.len() && (#[trigger] rows[k]).depth == rows[k - 1].depth + 1 ==> {
            &&& rows[k - 1].is_directory
            &&& rows[k - 1].is_expanded
            &&& shows_entry_of(rows[k], rows[k - 1], fs, expanded)
        }
}

/// The first row of a level shows one of its entries.
proof fn lemma_first_row(
    entries: Seq<Entry>,
    at: int,
    fs: Map<Seq<char>, Seq<Entry>>,
    expanded: Set<Seq<char>>,
    show_hidden: bool,
    depth: nat,
)
    requires
        0 <= at,
        rows_from(entries, at, fs, expanded, show_hidden, depth).len() > 0,
    ensures
        exists|j: int|
            at <= j < entries.len() && rows_from(entries, at, fs, expanded, show_hidden, depth)[0]
                == row_of(#[trigger] entries[j], depth, expanded),
    decreases entries.len() - at,
{
    let rows = rows_from(entries, at, fs, expanded, show_hidden, depth);
    let e = entries[at];
    if !show_hidden && is_hidden(e.name) {
        lemma_first_row(entries, at + 1, fs, expanded, show_hidden, depth);
        let j = choose|j: int|
            at + 1 <= j < entries.len() && rows_from(
                entries,
                at + 1,
                fs,
                expanded,
                show_hidden,
                depth,
            )[0] == row_of(#[trigger] entries[j], depth, expanded);
        assert(rows[0] == row_of(entries[j], depth, expanded));
    } else {
        assert(rows[0] == row_of(entries[at], depth, expanded));
    }
}

/// In the rows of a level and of what lies below it, each row that is deeper
/// than the row before it follows an open directory and shows one of its
/// entries.
pub proof fn lemma_rows_step_into_open(
    entries: Seq<Entry>,
    at: int,
    fs: Map<Seq<char>, Seq<Entry>>,
    expanded: Set<Seq<char>>,
    show_hidden: bool,
    depth: nat,
)
    ensures
        steps_into_open(rows_from(entries, at, fs, expanded, show_hidden, depth), fs, expanded),
    decreases 51 - depth, entries.len() - at,
{
    if depth > 50 || at < 0 || at >= entries.len() {
    } else {
        let all = rows_from(entries, at, fs, expanded, show_hidden, depth);
        let e = entries[at];
        let rest = rows_from(entries, at + 1, fs, expanded, show_hidden, depth);
        lemma_rows_step_into_open(entries, at + 1, fs, expanded, show_hidden, depth);
        lemma_rows_well_nested(entries, at + 1, fs, expanded, show_hidden, depth);
        if !show_hidden && is_hidden(e.name) {
        } else {
            let row = seq![row_of(e, depth, expanded)];
            let kids = children_of(fs, e.path);
            let below = if is_open(e, expanded) {
                rows_from(kids, 0, fs, expanded, show_hidden, depth + 1)
            } else {
                Seq::empty()
            };
            if is_open(e, expanded) {
                lemma_rows_step_into_open(kids, 0, fs, expanded, show_hidden, depth + 1);
                lemma_rows_well_nested(kids, 0, fs, expanded, show_hidden, depth + 1);
                if below.len() > 0 {
                    lemma_first_row(kids, 0, fs, expanded, show_hidden, depth + 1);
                }
            }
            assert(all =~= row + below + rest);
            assert forall|k: int|
                0 < k < all.len() && (#[trigger] all[k]).depth == all[k - 1].depth + 1 implies {
                &&& all[k - 1].is_directory
                &&& all[k - 1].is_expanded
                &&& shows_entry_of(all[k], all[k - 1], fs, expanded)
            } by {
                if k == 1 && below.len() > 0 {
                    assert(all[1] == below[0]);
                    assert(all[0] == row[0]);
                    let j = choose|j: int|
                        0 <= j < kids.len() && below[0] == row_of(
                            #[trigger] kids[j],
                            depth + 1,
                            expanded,
                        );
                    assert(all[1] == row_of(
                        children_of(fs, all[0].path)[j],
                        all[1].depth,
                        expanded,
                    ));
                } else if k <= below.len() {
                    assert(all[k] == below[k - 1]);
                    assert(all[k - 1] == below[k - 2]);
                } else if k == 1 + below.len() {
                    assert(all[k] == rest[0]);
                    if below.len() > 0 {
                        assert(all[k - 1] == below[below.len() - 1]);
                    } else {
                        assert(all[k - 1] == row[0]);
                    }
                } else {
                    assert(all[k] == rest[k - 1 - below.len()]);
                    assert(all[k - 1] == rest[k - 2 - below.len()]);
                }
            }
        }
    }
}

/// In the rows of a flattened tree the first row is at depth 0, no row is
/// more than one level deeper than the row before it, and a row that is
/// deeper follows an open directory and shows one of the entries that the
/// snapshot lists under it.
pub proof fn lemma_flattened_is_nested(
    roots: Seq<Entry>,
    fs: Map<Seq<char>, Seq<Entry>>,
    expanded: Set<Seq<char>>,
    show_hidden: bool,
)
    ensures
        well_nested(flattened(roots, fs, expanded, show_hidden), 0),
        steps_into_open(flattened(roots, fs, expanded, show_hidden), fs, expanded),
{
    lemma_rows_well_nested(roots, 0, fs, expanded, show_hidden, 0);
    lemma_rows_step_into_open(roots, 0, fs, expanded, show_hidden, 0);
}

/// In the rows of a flattened tree, the row to go to from a row at a depth
/// above 0 stands before it, is exactly one level less deep, and no row
/// between the two is less deep than the row itself.
pub proof fn lemma_parent_in_flattened(
    roots: Seq<Entry>,
    fs: Map<Seq<char>, Seq<Entry>>,
    expanded: Set<Seq<char>>,
    show_hidden: bool,
    index: int,
    parent: int,
)
    requires
        0 <= index < flattened(roots, fs, expanded, show_hidden).len(),
        flattened(roots, fs, expanded, show_hidden)[index].depth > 0,
        is_parent_row(flattened(roots, fs, expanded, show_hidden), index, parent),
    ensures
        0 <= parent < index,
        flattened(roots, fs, expanded, show_hidden)[parent].depth + 1 == flattened(
            roots,
            fs,
            expanded,
            show_hidden,
        )[index].depth,
        forall|k: int|
            parent < k < index ==> (#[trigger] flattened(roots, fs, expanded, show_hidden)[k]).depth
                >= flattened(roots, fs, expanded, show_hidden)[index].depth,
{
    let rows = flattened(roots, fs, expanded, show_hidden);
    lemma_rows_well_nested(roots, 0, fs, expanded, show_hidden, 0);
    assert(rows[0].depth == 0);
    if parent == index {
        assert(rows[0].depth >= rows[index].depth);
    } else {
        assert(rows[parent + 1].depth <= rows[parent].depth + 1);
        if parent + 1 < index {
            assert(rows[parent + 1].depth >= rows[index].depth);
        }
    }
}

/// How many rows at the start of `rows` are deeper than `depth`.
pub open spec fn deeper_rows(rows: Seq<RowModel>, depth: nat) -> nat
    decreases rows.len(),
{
    if rows.len() > 0 && rows[0].depth > depth {
        1 + deeper_rows(rows.drop_first(), depth)
    } else {
        0
    }
}

/// No more rows are deeper than there are rows.
proof fn lemma_deeper_rows_bound(rows: Seq<RowModel>, depth: nat)
    ensures
        deeper_rows(rows, depth) <= rows.len(),
    decreases rows.len(),
{
    if rows.len() > 0 && rows[0].depth > depth {
        lemma_deeper_rows_bound(rows.drop_first(), depth);
    }
}

/// `rows` without the rows of hidden entries and without the rows that lie
/// below them: those that follow a hidden row and are deeper than it.
pub open spec fn without_hidden(rows: Seq<RowModel>) -> Seq<RowModel>
    decreases rows.len(),
    via without_hidden_terminates
{
    if rows.len() == 0 {
        Seq::empty()
    } else if is_hidden(rows[0].name) {
        without_hidden(rows.skip(1 + deeper_rows(rows.drop_first(), rows[0].depth) as int))
    } else {
        seq![rows[0]] + without_hidden(rows.drop_first())
    }
}

/// Each step of `without_hidden` goes on with fewer rows.
#[via_fn]
proof fn without_hidden_terminates(rows: Seq<RowModel>) {
    if rows.len() > 0 {
        lemma_deeper_rows_bound(rows.drop_first(), rows[0].depth);
    }
}

/// Rows that are all deeper than `depth`, followed by a row that is not or
/// by none, are the deeper rows at the start.
proof fn lemma_deeper_rows_of_block(a: Seq<RowModel>, b: Seq<RowModel>, depth: nat)
    requires
        forall|i: int| 0 <= i < a.len() ==> (#[trigger] a[i]).depth > depth,
        b.len() == 0 || b[0].depth <= depth,
    ensures
        deeper_rows(a + b, depth) == a.len(),
    decreases a.len(),
{
    if a.len() > 0 {
        assert((a + b)[0] == a[0]);
        assert((a + b).drop_first() =~= a.drop_first() + b);
        assert forall|i: int| 0 <= i < a.drop_first().len() implies (#[trigger] a.drop_first()[
            i
        ]).depth > depth by {
            assert(a.drop_first()[i] == a[i + 1]);
        }
        lemma_deeper_rows_of_block(a.drop_first(), b, depth);
    } else {
        assert(a + b =~= b);
    }
}

/// The rows of a level with its hidden entries shown, less the rows of hidden
/// entries and what lies below them, are the rows of the level without them;
/// whatever rows follow that are not deeper than the level are dealt with in
/// the same way.
pub proof fn lemma_hidden_rows_removed(
    entries: Seq<Entry>,
    at: int,
    fs: Map<Seq<char>, Seq<Entry>>,
    expanded: Set<Seq<char>>,
    depth: nat,
    tail: Seq<RowModel>,
)
    requires
        tail.len() == 0 || tail[0].depth <= depth,
    ensures
        without_hidden(rows_from(entries, at, fs, expanded, true, depth) + tail) == rows_from(
            entries,
            at,
            fs,
            expanded,
            false,
            depth,
        ) + without_hidden(tail),
    decreases 51 - depth, entries.len() - at,
{
    let shown = rows_from(entries, at, fs, expanded, true, depth);
    let kept = rows_from(entries, at, fs, expanded, false, depth);
    if depth > 50 || at < 0 || at >= entries.len() {
        assert(shown + tail =~= tail);
        assert(kept + without_hidden(tail) =~= without_hidden(tail));
    } else {
        let e = entries[at];
        let row = row_of(e, depth, expanded);
        let kids = children_of(fs, e.path);
        let rest_shown = rows_from(entries, at + 1, fs, expanded, true, depth);
        let rest_kept = rows_from(entries, at + 1, fs, expanded, false, depth);
        let below_shown = if is_open(e, expanded) {
            rows_from(kids, 0, fs, expanded, true, depth + 1)
        } else {
            Seq::empty()
        };
        let below_kept = if is_open(e, expanded) {
            rows_from(kids, 0, fs, expanded, false, depth + 1)
        } else {
            Seq::empty()
        };
        lemma_rows_well_nested(entries, at + 1, fs, expanded, true, depth);
        if is_open(e, expanded) {
            lemma_rows_well_nested(kids, 0, fs, expanded, true, depth + 1);
        }
        let after = rest_shown + tail;
        assert(after.len() == 0 || after[0].depth <= depth) by {
            if rest_shown.len() > 0 {
                assert(after[0] == rest_shown[0]);
            } else {
                assert(after =~= tail);
            }
        }
        let all = shown + tail;
        assert(shown =~= seq![row] + below_shown + rest_shown);
        assert(all =~= seq![row] + (below_shown + after));
        assert(all[0] == row);
        assert(all.drop_first() =~= below_shown + after);
        lemma_hidden_rows_removed(entries, at + 1, fs, expanded, depth, tail);
        if is_hidden(e.name) {
            lemma_deeper_rows_of_block(below_shown, after, depth);
            assert(all.skip(1 + below_shown.len() as int) =~= after);
            assert(kept == rest_kept);
        } else {
            if is_open(e, expanded) {
                lemma_hidden_rows_removed(kids, 0, fs, expanded, depth + 1, after);
            } else {
                assert(below_shown + after =~= after);
                assert(below_kept + without_hidden(after) =~= without_hidden(after));
            }
            assert(kept =~= seq![row] + below_kept + rest_kept);
            assert(seq![row] + (below_kept + (rest_kept + without_hidden(tail))) =~= (seq![row]
                + below_kept + rest_kept) + without_hidden(tail));
        }
    }
}

/// The rows without hidden entries are the rows with hidden entries, less the
/// rows of hidden entries and what lies below them: the other rows are the
/// same, in the same order.
pub proof fn lemma_hiding_removes_hidden_rows(
    roots: Seq<Entry>,
    fs: Map<Seq<char>, Seq<Entry>>,
    expanded: Set<Seq<char>>,
)
    ensures
        flattened(roots, fs, expanded, false) == without_hidden(
            flattened(roots, fs, expanded, true),
        ),
{
    lemma_hidden_rows_removed(roots, 0, fs, expanded, 0, Seq::empty());
    assert(flattened(roots, fs, expanded, true) + Seq::<RowModel>::empty() =~= flattened(
        roots,
        fs,
        expanded,
        true,
    ));
    assert(flattened(roots, fs, expanded, false) + without_hidden(Seq::<RowModel>::empty())
        =~= flattened(roots, fs, expanded, false));
}

/// While hidden entries are not shown, no row has a hidden name.
pub proof fn lemma_hidden_left_out(
    entries: Seq<Entry>,
    at: int,
    fs: Map<Seq<char>, Seq<Entry>>,
    expanded: Set<Seq<char>>,
    depth: nat,
)
    ensures
        forall|k: int|
            0 <= k < rows_from(entries, at, fs, expanded, false, depth).len() ==> !is_hidden(
                (#[trigger] rows_from(entries, at, fs, expanded, false, depth)[k]).name,
            ),
    decreases 51 - depth, entries.len() - at,
{
    if depth > 50 || at < 0 || at >= entries.len() {
    } else {
        let e = entries[at];
        let all = rows_from(entries, at, fs, expanded, false, depth);
        let rest = rows_from(entries, at + 1, fs, expanded, false, depth);
        lemma_hidden_left_out(entries, at + 1, fs, expanded, depth);
        if is_hidden(e.name) {
        } else {
            let row = seq![row_of(e, depth, expanded)];
            let below = if is_open(e, expanded) {
                rows_from(children_of(fs, e.path), 0, fs, expanded, false, depth + 1)
            } else {
                Seq::empty()
            };
            if is_open(e, expanded) {
                lemma_hidden_left_out(children_of(fs, e.path), 0, fs, expanded, depth + 1);
            }
            assert(all =~= row + below + rest);
            assert forall|k: int| 0 <= k < all.len() implies !is_hidden(
                (#[trigger] all[k]).name,
            ) by {
                if k == 0 {
                    assert(all[k] == row[0]);
                } else if k < 1 + below.len() {
                    assert(all[k] == below[k - 1]);
                } else {
                    assert(all[k] == rest[k - 1 - below.len()]);
                }
            }
        }
    }
}

} // verus!

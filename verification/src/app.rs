//! The state of the browser and what each command does to it.
//!
//! A command changes the state and answers with what the caller has to do
//! next: nothing, load the preview of a path and hand it to `set_preview`, or
//! read the file system again and hand it to `refresh`.

use vstd::prelude::*;
use crate::highlight::theme_by_name;
use crate::order::{Entry, sorted_entries};
use crate::preview::{ContentModel, PreviewContent, Previewer};
use crate::text::{append_range, chars_of, string_of};
use crate::tree::{
    build_tree,
    entries_of,
    find_parent_row,
    flatten_tree,
    flattened,
    is_parent_row,
    is_shown_open,
    level_loaded,
    raw_entries,
    rows_model,
    ExpandedSet,
    RawEntry,
    RowModel,
    Snapshot,
    TreeNode,
    VisibleRow,
};
use crate::window::{clicked_row, row_at};

verus! {

/// What the caller has to do after a command.
#[derive(Debug)]
pub enum Action {
    Nothing,
    /// Load the preview of the file at this path.
    LoadPreview(String),
    /// Read the root directory and the open directories again.
    Reload,
}

/// The model of an `Action`.
pub enum ActionModel {
    Nothing,
    LoadPreview(Seq<char>),
    Reload,
}

impl View for Action {
    type V = ActionModel;

    open spec fn view(&self) -> ActionModel {
        match self {
            Action::Nothing => ActionModel::Nothing,
            Action::LoadPreview(path) => ActionModel::LoadPreview(path@),
            Action::Reload => ActionModel::Reload,
        }
    }
}

/// The state of the browser.
pub struct App {
    pub root_path: String,
    pub tree: Vec<TreeNode>,
    pub expanded: ExpandedSet,
    pub visible_rows: Vec<VisibleRow>,
    pub selected_index: usize,
    pub show_hidden: bool,
    pub preview_scroll: usize,
    pub preview_cache: (PreviewContent, usize),
    pub should_quit: bool,
    pub previewer: Previewer,
    /// The path whose preview the cache holds or is about to hold.
    pub last_preview_path: Option<String>,
}

/// The model of the state.
pub struct AppModel {
    pub root: Seq<char>,
    /// The root level of the tree, with the children that are loaded.
    pub tree: Seq<TreeNode>,
    pub expanded: Set<Seq<char>>,
    pub rows: Seq<RowModel>,
    pub selected: nat,
    pub show_hidden: bool,
    pub scroll: nat,
    pub cache: (ContentModel, nat),
    pub should_quit: bool,
    /// The path whose preview the cache holds or is about to hold.
    pub last_path: Option<Seq<char>>,
    pub previewer: Previewer,
}

/// The path of the selected row, if there is one.
pub open spec fn current_path(m: AppModel) -> Option<Seq<char>> {
    if m.selected < m.rows.len() {
        Some(m.rows[m.selected as int].path)
    } else {
        None
    }
}

/// The state after the preview has been checked against the selection: where
/// the selected path is the one of the last preview, nothing changes; else
/// that path is noted, and without a selection the cache is emptied.
pub open spec fn after_preview_check(m: AppModel) -> AppModel {
    if current_path(m) == m.last_path {
        m
    } else {
        AppModel {
            last_path: current_path(m),
            cache: if current_path(m) is None {
                (ContentModel::Empty, 0)
            } else {
                m.cache
            },
            ..m
        }
    }
}

/// What the check of the preview asks for: the preview of the selected path
/// where that is not the path of the last preview.
pub open spec fn preview_action(m: AppModel) -> ActionModel {
    match current_path(m) {
        Some(path) => if current_path(m) == m.last_path {
            ActionModel::Nothing
        } else {
            ActionModel::LoadPreview(path)
        },
        None => ActionModel::Nothing,
    }
}

/// The state with the row `index` selected and the preview scrolled back.
pub open spec fn selecting(m: AppModel, index: nat) -> AppModel {
    AppModel { selected: index, scroll: 0, ..m }
}

/// The index of the last row, or 0 where there is none.
pub open spec fn last_row(m: AppModel) -> nat {
    if m.rows.len() > 0 {
        (m.rows.len() - 1) as nat
    } else {
        0
    }
}

/// True of the tree as it stands after the file system was read again: its
/// root level holds the entries of the root in order; each directory that is
/// shown open has its entries as children, in order, and so have those below
/// it; no other node of the root level has children.
pub open spec fn tree_read(
    tree: Seq<TreeNode>,
    roots: Seq<Entry>,
    fs: Map<Seq<char>, Seq<Entry>>,
    expanded: Set<Seq<char>>,
    show_hidden: bool,
) -> bool {
    &&& entries_of(tree) == sorted_entries(roots)
    &&& level_loaded(tree, fs, expanded, show_hidden, 0)
    &&& forall|i: int|
        0 <= i < tree.len() && !is_shown_open((#[trigger] tree[i]).entry(), expanded, show_hidden)
            ==> tree[i].children is None
}

/// The state after the file system was read again and `tree` was built from
/// it: the rows are the tree flattened, and the selection is kept inside the
/// rows.
pub open spec fn reloaded(
    m: AppModel,
    tree: Seq<TreeNode>,
    roots: Seq<Entry>,
    fs: Map<Seq<char>, Seq<Entry>>,
) -> AppModel {
    let rows = flattened(sorted_entries(roots), fs, m.expanded, m.show_hidden);
    AppModel {
        tree,
        rows,
        selected: if rows.len() == 0 {
            0
        } else if m.selected >= rows.len() {
            (rows.len() - 1) as nat
        } else {
            m.selected
        },
        ..m
    }
}

/// The root as it is shown: `~` in place of the home directory.
pub open spec fn shown_root(root: Seq<char>, home: Option<Seq<char>>) -> Seq<char> {
    match home {
        None => root,
        Some(h) => {
            if root == h {
                seq!['~']
            } else if h.len() > 0 && h.len() < root.len() && root.subrange(0, h.len() as int) == h
                && (h.last() == '/' || root[h.len() as int] == '/') {
                seq!['~', '/'] + root.subrange(
                    if h.last() == '/' {
                        h.len() as int
                    } else {
                        h.len() as int + 1
                    },
                    root.len() as int,
                )
            } else {
                root
            }
        },
    }
}

/// Tells whether `text` starts with `prefix`.
fn starts_with(text: &Vec<char>, prefix: &Vec<char>) -> (b: bool)
    requires
        prefix.len() <= text.len(),
    ensures
        b == (text@.subrange(0, prefix.len() as int) == prefix@),
{
    let mut i: usize = 0;
    while i < prefix.len()
        invariant
            i <= prefix.len() <= text.len(),
            forall|k: int| 0 <= k < i ==> text@[k] == prefix@[k],
        decreases prefix.len() - i,
    {
        if text[i] != prefix[i] {
            assert(text@.subrange(0, prefix.len() as int)[i as int] != prefix@[i as int]);
            return false;
        }
        i += 1;
    }
    assert(text@.subrange(0, prefix.len() as int) =~= prefix@);
    true
}

impl App {
    /// The path whose preview the cache holds or is about to hold.
    pub open spec fn last_path(&self) -> Option<Seq<char>> {
        match self.last_preview_path {
            Some(path) => Some(path@),
            None => None,
        }
    }

    /// An empty browser on `root_path`: nothing has been read yet. Its
    /// previewer is a new one, with the theme that highlighting uses.
    pub fn new(root_path: String) -> (app: App)
        ensures
            app@ == (AppModel {
                root: root_path@,
                tree: Seq::empty(),
                expanded: Set::empty(),
                rows: Seq::empty(),
                selected: 0,
                show_hidden: false,
                scroll: 0,
                cache: (ContentModel::Empty, 0),
                should_quit: false,
                last_path: None,
                previewer: app.previewer,
            }),
            theme_by_name(app.previewer.themes(), "base16-ocean.dark"@) is Some,
    {
        let app = App {
            root_path,
            tree: Vec::new(),
            expanded: ExpandedSet::new(),
            visible_rows: Vec::new(),
            selected_index: 0,
            show_hidden: false,
            preview_scroll: 0,
            preview_cache: (PreviewContent::Empty, 0),
            should_quit: false,
            previewer: Previewer::new(),
            last_preview_path: None,
        };
        assert(app.tree@ =~= Seq::<TreeNode>::empty());
        assert(rows_model(app.visible_rows@) =~= Seq::<RowModel>::empty());
        app
    }

    /// The path of the selected row, if there is one.
    pub fn selected_path(&self) -> (path: Option<&String>)
        ensures
            match path {
                Some(p) => current_path(self@) == Some(p@),
                None => current_path(self@) is None,
            },
    {
        if self.selected_index < self.visible_rows.len() {
            assert(rows_model(self.visible_rows@)[self.selected_index as int]
                == self.visible_rows[self.selected_index as int]@);
            Some(&self.visible_rows[self.selected_index].path)
        } else {
            None
        }
    }

    /// The root as it is shown, given the home directory.
    pub fn display_root(&self, home: Option<&str>) -> (shown: String)
        ensures
            shown@ == shown_root(
                self@.root,
                match home {
                    Some(h) => Some(h@),
                    None => None,
                },
            ),
    {
        let h = match home {
            Some(h) => chars_of(h),
            None => {
                return self.root_path.clone();
            },
        };
        let root = chars_of(self.root_path.as_str());
        if h.len() == 0 || h.len() > root.len() {
            if h.len() == 0 && root.len() == 0 {
                assert(root@ =~= h@);
                return string_of(&vec!['~']);
            }
            assert(root@ != h@);
            return self.root_path.clone();
        }
        if !starts_with(&root, &h) {
            assert(root@.subrange(0, root.len() as int) =~= root@);
            return self.root_path.clone();
        }
        if h.len() == root.len() {
            assert(root@ =~= h@);
            return string_of(&vec!['~']);
        }
        let slash_in_home = h[h.len() - 1] == '/';
        if !slash_in_home && root[h.len()] != '/' {
            return self.root_path.clone();
        }
        let from: usize = if slash_in_home { h.len() } else { h.len() + 1 };
        let mut out: Vec<char> = Vec::new();
        out.push('~');
        out.push('/');
        append_range(&mut out, &root, from, root.len());
        assert(out@ =~= seq!['~', '/'] + root@.subrange(from as int, root.len() as int));
        string_of(&out)
    }

    /// Checks the preview against the selection.
    pub fn update_preview(&mut self) -> (action: Action)
        ensures
            final(self)@ == after_preview_check(old(self)@),
            action@ == preview_action(old(self)@),
    {
        if self.selected_index < self.visible_rows.len() {
            assert(rows_model(self.visible_rows@)[self.selected_index as int]
                == self.visible_rows[self.selected_index as int]@);
            let same = match &self.last_preview_path {
                Some(last) => *last == self.visible_rows[self.selected_index].path,
                None => false,
            };
            if same {
                Action::Nothing
            } else {
                let path = self.visible_rows[self.selected_index].path.clone();
                self.last_preview_path = Some(path.clone());
                Action::LoadPreview(path)
            }
        } else {
            if self.last_preview_path.is_some() {
                self.last_preview_path = None;
                self.preview_cache = (PreviewContent::Empty, 0);
            }
            Action::Nothing
        }
    }

    /// Stores the preview that was loaded.
    pub fn set_preview(&mut self, preview: (PreviewContent, usize))
        ensures
            final(self)@ == (AppModel {
                cache: (preview.0@, preview.1 as nat),
                ..old(self)@
            }),
    {
        self.preview_cache = preview;
    }

    /// Takes in the file system as it was read again: builds the tree from
    /// the entries of the root, flattens it, which loads the children of the
    /// open directories, keeps the selection inside the rows and checks the
    /// preview.
    pub fn refresh(&mut self, roots: &Vec<RawEntry>, fs: &Snapshot) -> (action: Action)
        ensures
            final(self)@ == after_preview_check(
                reloaded(old(self)@, final(self).tree@, raw_entries(roots@), fs@),
            ),
            action@ == preview_action(
                reloaded(old(self)@, final(self).tree@, raw_entries(roots@), fs@),
            ),
            tree_read(
                final(self).tree@,
                raw_entries(roots@),
                fs@,
                old(self)@.expanded,
                old(self)@.show_hidden,
            ),
    {
        self.tree = build_tree(roots);
        let ghost built = self.tree@;
        self.visible_rows = flatten_tree(&mut self.tree, &self.expanded, self.show_hidden, fs);
        if self.visible_rows.len() == 0 {
            self.selected_index = 0;
        } else if self.selected_index >= self.visible_rows.len() {
            self.selected_index = self.visible_rows.len() - 1;
        }
        proof {
            assert forall|i: int|
                0 <= i < self.tree.len() && !is_shown_open(
                    (#[trigger] self.tree@[i]).entry(),
                    self.expanded@,
                    self.show_hidden,
                ) implies self.tree@[i].children is None by {
                assert(entries_of(self.tree@)[i] == entries_of(built)[i]);
                assert(built[i].children is None);
            }
            assert(self@ == reloaded(old(self)@, self.tree@, raw_entries(roots@), fs@));
        }
        let ghost tree = self.tree@;
        let action = self.update_preview();
        assert(self.tree@ == tree);
        action
    }

    /// Selects the row `index`, scrolls the preview back and checks the
    /// preview.
    fn select(&mut self, index: usize) -> (action: Action)
        ensures
            final(self)@ == after_preview_check(selecting(old(self)@, index as nat)),
            action@ == preview_action(selecting(old(self)@, index as nat)),
    {
        self.selected_index = index;
        self.preview_scroll = 0;
        assert(self@ == selecting(old(self)@, index as nat));
        self.update_preview()
    }

    /// Moves the selection one row down, where there is one.
    pub fn move_down(&mut self) -> (action: Action)
        ensures
            old(self)@.selected + 1 < old(self)@.rows.len() ==> {
                &&& final(self)@ == after_preview_check(
                    selecting(old(self)@, old(self)@.selected + 1),
                )
                &&& action@ == preview_action(selecting(old(self)@, old(self)@.selected + 1))
            },
            old(self)@.selected + 1 >= old(self)@.rows.len() ==> final(self)@ == old(self)@
                && action@ == ActionModel::Nothing,
    {
        if self.visible_rows.len() > 0 && self.selected_index < self.visible_rows.len() - 1 {
            let next = self.selected_index + 1;
            self.select(next)
        } else {
            Action::Nothing
        }
    }

    /// Moves the selection one row up, where there is one.
    pub fn move_up(&mut self) -> (action: Action)
        ensures
            old(self)@.selected > 0 ==> {
                &&& final(self)@ == after_preview_check(
                    selecting(old(self)@, (old(self)@.selected - 1) as nat),
                )
                &&& action@ == preview_action(
                    selecting(old(self)@, (old(self)@.selected - 1) as nat),
                )
            },
            old(self)@.selected == 0 ==> final(self)@ == old(self)@ && action@
                == ActionModel::Nothing,
    {
        if self.selected_index > 0 {
            let previous = self.selected_index - 1;
            self.select(previous)
        } else {
            Action::Nothing
        }
    }

    /// Selects the first row.
    pub fn jump_top(&mut self) -> (action: Action)
        ensures
            final(self)@ == after_preview_check(selecting(old(self)@, 0)),
            action@ == preview_action(selecting(old(self)@, 0)),
    {
        self.select(0)
    }

    /// Selects the last row.
    pub fn jump_bottom(&mut self) -> (action: Action)
        ensures
            final(self)@ == after_preview_check(selecting(old(self)@, last_row(old(self)@))),
            action@ == preview_action(selecting(old(self)@, last_row(old(self)@))),
    {
        let last: usize = if self.visible_rows.len() > 0 {
            self.visible_rows.len() - 1
        } else {
            0
        };
        self.select(last)
    }

    /// Opens the selected directory, or closes it where it is open. Without a
    /// selected directory nothing happens.
    pub fn toggle_expand(&mut self) -> (action: Action)
        ensures
            match current_path(old(self)@) {
                Some(path) if old(self)@.rows[old(self)@.selected as int].is_directory => {
                    &&& final(self)@ == (AppModel {
                        expanded: if old(self)@.expanded.contains(path) {
                            old(self)@.expanded.remove(path)
                        } else {
                            old(self)@.expanded.insert(path)
                        },
                        scroll: 0,
                        ..old(self)@
                    })
                    &&& action@ == ActionModel::Reload
                },
                _ => final(self)@ == old(self)@ && action@ == ActionModel::Nothing,
            },
    {
        if self.selected_index >= self.visible_rows.len() {
            return Action::Nothing;
        }
        assert(rows_model(self.visible_rows@)[self.selected_index as int]
            == self.visible_rows[self.selected_index as int]@);
        if !self.visible_rows[self.selected_index].is_directory {
            return Action::Nothing;
        }
        let path = self.visible_rows[self.selected_index].path.clone();
        if self.expanded.contains(&path) {
            self.expanded.remove(&path);
        } else {
            self.expanded.insert(path);
        }
        self.preview_scroll = 0;
        Action::Reload
    }

    /// Closes the selected directory where it is shown open; else selects the
    /// row to go to from the selected one, where that is another.
    pub fn collapse_or_parent(&mut self) -> (action: Action)
        ensures
            current_path(old(self)@) is None ==> final(self)@ == old(self)@ && action@
                == ActionModel::Nothing,
            current_path(old(self)@) is Some && old(self)@.rows[old(
                self,
            )@.selected as int].is_expanded ==> {
                &&& final(self)@ == (AppModel {
                    expanded: old(self)@.expanded.remove(current_path(old(self)@)->0),
                    scroll: 0,
                    ..old(self)@
                })
                &&& action@ == ActionModel::Reload
            },
            current_path(old(self)@) is Some && !old(self)@.rows[old(
                self,
            )@.selected as int].is_expanded ==> exists|parent: nat|
                {
                    &&& is_parent_row(
                        old(self)@.rows,
                        old(self)@.selected as int,
                        parent as int,
                    )
                    &&& if parent == old(self)@.selected {
                        final(self)@ == old(self)@ && action@ == ActionModel::Nothing
                    } else {
                        final(self)@ == after_preview_check(selecting(old(self)@, parent))
                            && action@ == preview_action(selecting(old(self)@, parent))
                    }
                },
    {
        if self.selected_index >= self.visible_rows.len() {
            return Action::Nothing;
        }
        assert(rows_model(self.visible_rows@)[self.selected_index as int]
            == self.visible_rows[self.selected_index as int]@);
        if self.visible_rows[self.selected_index].is_expanded {
            let path = self.visible_rows[self.selected_index].path.clone();
            self.expanded.remove(&path);
            self.preview_scroll = 0;
            return Action::Reload;
        }
        let parent = find_parent_row(self.visible_rows.as_slice(), self.selected_index);
        if parent != self.selected_index {
            let action = self.select(parent);
            assert(is_parent_row(old(self)@.rows, old(self)@.selected as int, parent as int));
            action
        } else {
            assert(is_parent_row(old(self)@.rows, old(self)@.selected as int, parent as int));
            Action::Nothing
        }
    }

    /// Shows hidden entries, or hides them where they are shown, and selects
    /// the first row.
    pub fn toggle_hidden(&mut self) -> (action: Action)
        ensures
            final(self)@ == (AppModel {
                show_hidden: !old(self)@.show_hidden,
                selected: 0,
                scroll: 0,
                ..old(self)@
            }),
            action@ == ActionModel::Reload,
    {
        self.show_hidden = !self.show_hidden;
        self.selected_index = 0;
        self.preview_scroll = 0;
        Action::Reload
    }

    /// Scrolls the preview down by `amount` lines.
    pub fn scroll_preview_down(&mut self, amount: usize)
        ensures
            final(self)@ == (AppModel {
                scroll: if old(self)@.scroll + amount <= usize::MAX {
                    (old(self)@.scroll + amount) as nat
                } else {
                    usize::MAX as nat
                },
                ..old(self)@
            }),
    {
        self.preview_scroll = if amount <= usize::MAX - self.preview_scroll {
            self.preview_scroll + amount
        } else {
            usize::MAX
        };
    }

    /// Scrolls the preview up by `amount` lines, to the top at most.
    pub fn scroll_preview_up(&mut self, amount: usize)
        ensures
            final(self)@ == (AppModel {
                scroll: if old(self)@.scroll >= amount {
                    (old(self)@.scroll - amount) as nat
                } else {
                    0
                },
                ..old(self)@
            }),
    {
        self.preview_scroll = if self.preview_scroll >= amount {
            self.preview_scroll - amount
        } else {
            0
        };
    }

    /// Takes a click on the row `y` of a tree panel `area_height` high: the
    /// entry shown there is selected; a directory is opened or closed as
    /// well. A click that hits no entry does nothing.
    pub fn click_tree(&mut self, y: u16, area_height: u16) -> (action: Action)
        ensures
            match row_at(
                old(self)@.rows.len(),
                old(self)@.selected,
                area_height as nat,
                y as nat,
            ) {
                None => final(self)@ == old(self)@ && action@ == ActionModel::Nothing,
                Some(hit) => if old(self)@.rows[hit as int].is_directory {
                    &&& final(self)@ == (AppModel {
                        selected: hit,
                        scroll: 0,
                        expanded: if old(self)@.expanded.contains(
                            old(self)@.rows[hit as int].path,
                        ) {
                            old(self)@.expanded.remove(old(self)@.rows[hit as int].path)
                        } else {
                            old(self)@.expanded.insert(old(self)@.rows[hit as int].path)
                        },
                        ..old(self)@
                    })
                    &&& action@ == ActionModel::Reload
                } else {
                    &&& final(self)@ == after_preview_check(selecting(old(self)@, hit))
                    &&& action@ == preview_action(selecting(old(self)@, hit))
                },
            },
    {
        let hit = match clicked_row(
            self.visible_rows.len(),
            self.selected_index,
            y,
            area_height,
        ) {
            Some(hit) => hit,
            None => {
                return Action::Nothing;
            },
        };
        assert(rows_model(self.visible_rows@)[hit as int] == self.visible_rows[hit as int]@);
        if self.visible_rows[hit].is_directory {
            self.selected_index = hit;
            self.toggle_expand()
        } else {
            self.select(hit)
        }
    }
}

impl View for App {
    type V = AppModel;

    open spec fn view(&self) -> AppModel {
        AppModel {
            root: self.root_path@,
            tree: self.tree@,
            expanded: self.expanded@,
            rows: rows_model(self.visible_rows@),
            selected: self.selected_index as nat,
            show_hidden: self.show_hidden,
            scroll: self.preview_scroll as nat,
            cache: (self.preview_cache.0@, self.preview_cache.1 as nat),
            should_quit: self.should_quit,
            last_path: self.last_path(),
            previewer: self.previewer,
        }
    }
}

} // verus!

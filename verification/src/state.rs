//! The browsing state of the analyzer: which tree is shown, where in it the
//! user stands, what is selected and marked, and how each user action changes it.
use vstd::prelude::*;
use crate::tree::{DirNode, arranged};
use crate::text::utf8_bytes;
use crate::order::{SortMode, listed, listing_order, lemma_listing_order_of};

verus! {

/// The node that `path` leads to from `node`, one child position per step.
pub open spec fn node_at(node: DirNode, path: Seq<usize>) -> Option<DirNode>
    decreases path.len(),
{
    if path.len() == 0 {
        Some(node)
    } else if path[0] < node.children@.len() {
        node_at(node.children@[path[0] as int], path.drop_first())
    } else {
        None
    }
}

/// The position of the first node in `nodes` named `name`.
pub open spec fn first_named(nodes: Seq<DirNode>, name: Seq<char>) -> Option<int>
    decreases nodes.len(),
{
    if nodes.len() == 0 {
        None
    } else if nodes[0].name@ == name {
        Some(0)
    } else {
        match first_named(nodes.drop_first(), name) {
            Some(i) => Some(i + 1),
            None => None,
        }
    }
}

/// `s` with every element equal to `x` left out, the rest in order.
pub open spec fn without(s: Seq<Seq<usize>>, x: Seq<usize>) -> Seq<Seq<usize>>
    decreases s.len(),
{
    if s.len() == 0 {
        s
    } else if s.last() == x {
        without(s.drop_last(), x)
    } else {
        without(s.drop_last(), x).push(s.last())
    }
}

/// The names along `path` below `node`, each after a `/`; a position with no
/// child there is passed over.
pub open spec fn display_names(node: DirNode, path: Seq<usize>) -> Seq<char>
    decreases path.len(),
{
    if path.len() == 0 {
        Seq::empty()
    } else if path[0] < node.children@.len() {
        let c = node.children@[path[0] as int];
        seq!['/'] + c.name@ + display_names(c, path.drop_first())
    } else {
        display_names(node, path.drop_first())
    }
}

/// `name` appended to the filesystem path `base`, with a `/` between them
/// unless `base` is empty or already ends with one.
pub open spec fn join_name(base: Seq<char>, name: Seq<char>) -> Seq<char> {
    if utf8_bytes(base).len() == 0 || utf8_bytes(base).last() == 0x2f {
        base + name
    } else {
        base + seq!['/'] + name
    }
}

/// The filesystem path of the node that `path` leads to below `node`, whose
/// own path is `base`.
pub open spec fn fs_path(base: Seq<char>, node: DirNode, path: Seq<usize>) -> Option<Seq<char>>
    decreases path.len(),
{
    if path.len() == 0 {
        Some(base)
    } else if path[0] < node.children@.len() {
        let c = node.children@[path[0] as int];
        fs_path(join_name(base, c.name@), c, path.drop_first())
    } else {
        None
    }
}

/// The filesystem paths of those of `targets` that lead to a node of `tree`, in order.
pub open spec fn existing_paths(base: Seq<char>, tree: DirNode, targets: Seq<Seq<usize>>) -> Seq<Seq<char>>
    decreases targets.len(),
{
    if targets.len() == 0 {
        Seq::empty()
    } else {
        let earlier = existing_paths(base, tree, targets.drop_last());
        match fs_path(base, tree, targets.last()) {
            Some(p) => earlier.push(p),
            None => earlier,
        }
    }
}

/// The abstract state of the browser.
pub ghost struct AppView {
    pub root_path: Seq<char>,
    pub tree: Option<DirNode>,
    pub path: Seq<usize>,
    pub selected: int,
    pub awaiting_scan: bool,
    pub scanning: bool,
    pub show_help: bool,
    pub no_delete: bool,
    pub confirm_delete: bool,
    pub marked: Seq<Seq<usize>>,
    pub sort_mode: SortMode,
}

impl AppView {
    /// The node currently displayed, if the path leads anywhere.
    pub open spec fn current(self) -> Option<DirNode> {
        match self.tree {
            Some(t) => node_at(t, self.path),
            None => None,
        }
    }

    /// The children of the current node in display order.
    pub open spec fn listing(self) -> Seq<DirNode> {
        match self.current() {
            Some(n) => listed(n.children@, self.sort_mode),
            None => Seq::empty(),
        }
    }

    /// The state hangs together: where there is a tree, the current path leads
    /// to a node of it; the selection is the first row or a row of the list;
    /// a tree is shown only when no scan runs, and a scan runs exactly while
    /// its result is awaited, with nothing shown yet and the top selected;
    /// with deletions switched off nothing is marked or up for confirmation.
    pub open spec fn well_formed(self) -> bool {
        &&& (self.tree is Some ==> self.current() is Some)
        &&& 0 <= self.selected
        &&& (self.selected == 0 || self.selected < self.listing().len())
        &&& (self.tree is Some ==> !self.scanning)
        &&& self.scanning == self.awaiting_scan
        &&& (self.awaiting_scan ==> self.tree is None && self.path.len() == 0 && self.selected == 0)
        &&& (self.no_delete ==> self.marked.len() == 0 && !self.confirm_delete)
    }

    /// The selection moves one row down, stopping at the last row.
    pub open spec fn after_select_next(self) -> AppView {
        let count = self.listing().len();
        if count == 0 {
            self
        } else {
            AppView {
                selected: if self.selected + 1 < count - 1 { self.selected + 1 } else { count - 1 },
                ..self
            }
        }
    }

    /// The selection moves one row up, stopping at the first row.
    pub open spec fn after_select_prev(self) -> AppView {
        if self.selected > 0 {
            AppView { selected: self.selected - 1, ..self }
        } else {
            self
        }
    }

    /// Back to the parent directory, with the first row selected; at the top nothing changes.
    pub open spec fn after_go_up(self) -> AppView {
        if self.path.len() > 0 {
            AppView { path: self.path.drop_last(), selected: 0, ..self }
        } else {
            self
        }
    }

    /// The help overlay is shown or hidden.
    pub open spec fn after_toggle_help(self) -> AppView {
        AppView { show_help: !self.show_help, ..self }
    }

    /// The list is ordered by the next sort mode.
    pub open spec fn after_cycle_sort_mode(self) -> AppView {
        AppView { sort_mode: self.sort_mode.following(), ..self }
    }

    /// The position, from the root, of the selected child of the current node:
    /// the first child that carries the selected entry's name.
    pub open spec fn entry_target(self) -> Option<Seq<usize>> {
        if 0 <= self.selected < self.listing().len() {
            match self.current() {
                Some(n) => match first_named(n.children@, self.listing()[self.selected].name@) {
                    Some(i) => Some(self.path.push(i as usize)),
                    None => None,
                },
                None => None,
            }
        } else {
            None
        }
    }

    /// Drilling into the selected entry, if it is a directory with something in it.
    pub open spec fn after_enter(self) -> AppView {
        match self.entry_target() {
            Some(t) => if self.listing()[self.selected].children@.len() > 0 {
                AppView { path: t, selected: 0, ..self }
            } else {
                self
            },
            None => self,
        }
    }

    /// Marking the selected entry for deletion, or unmarking it if it is marked.
    pub open spec fn after_toggle_mark(self) -> AppView {
        if self.no_delete {
            self
        } else {
            match self.entry_target() {
                Some(t) => AppView {
                    marked: if self.marked.contains(t) {
                        without(self.marked, t)
                    } else {
                        self.marked.push(t)
                    },
                    ..self
                },
                None => self,
            }
        }
    }

    /// Asking for confirmation, when there is something to delete.
    pub open spec fn after_prompt_delete(self) -> AppView {
        if !self.no_delete && (self.marked.len() > 0 || self.entry_target() is Some) {
            AppView { confirm_delete: true, ..self }
        } else {
            self
        }
    }

    /// What a deletion removes: the marked entries, or else the selected one.
    pub open spec fn deletion_targets(self) -> Seq<Seq<usize>> {
        if self.marked.len() > 0 {
            self.marked
        } else {
            match self.entry_target() {
                Some(t) => seq![t],
                None => Seq::empty(),
            }
        }
    }

    /// The filesystem paths of the deletion targets that exist in the tree.
    pub open spec fn deletion_paths(self) -> Seq<Seq<char>> {
        match self.tree {
            Some(t) => existing_paths(self.root_path, t, self.deletion_targets()),
            None => Seq::empty(),
        }
    }

    /// After a confirmed deletion the tree is out of date, so a fresh scan starts.
    pub open spec fn after_delete(self) -> AppView {
        if self.no_delete || self.deletion_paths().len() == 0 {
            AppView { confirm_delete: false, ..self }
        } else {
            self.after_start_scan()
        }
    }

    /// The display path of the current node.
    pub open spec fn path_display(self) -> Seq<char> {
        match self.tree {
            Some(t) => t.name@ + display_names(t, self.path),
            None => self.root_path,
        }
    }

    /// The display paths of the marked entries (none while there is no tree).
    pub open spec fn marked_shown(self) -> Seq<Seq<char>> {
        match self.tree {
            Some(t) => self.marked.map_values(|m: Seq<usize>| t.name@ + display_names(t, m)),
            None => Seq::empty(),
        }
    }

    /// The list row under a click at terminal row `row` in a terminal of
    /// `height` rows: the list sits below a border line, above another border
    /// line and the status bar, and is scrolled just far enough to show the
    /// selected row.
    pub open spec fn clicked_index(self, row: u16, height: u16) -> Option<int> {
        let list_height: int = if height >= 3 { height - 3 } else { 0 };
        let offset: int = if self.selected >= list_height { self.selected + 1 - list_height } else { 0 };
        if 1 <= row <= list_height && offset + row - 1 < self.listing().len() {
            Some(offset + row - 1)
        } else {
            None
        }
    }

    /// A click selects the row under it and drills into it.
    pub open spec fn after_click(self, row: u16, height: u16) -> AppView {
        match self.clicked_index(row, height) {
            Some(i) => AppView { selected: i, ..self }.after_enter(),
            None => self,
        }
    }

    /// A fresh scan starts: the old tree, position and marks are dropped.
    pub open spec fn after_start_scan(self) -> AppView {
        AppView {
            tree: None,
            path: Seq::empty(),
            selected: 0,
            scanning: true,
            awaiting_scan: true,
            confirm_delete: false,
            marked: Seq::empty(),
            ..self
        }
    }

    /// A finished scan, if one was awaited and has arrived, becomes the tree.
    pub open spec fn after_poll_scan(self, received: Option<DirNode>) -> AppView {
        if self.awaiting_scan && received is Some {
            AppView { tree: received, scanning: false, awaiting_scan: false, ..self }
        } else {
            self
        }
    }
}

/// `o` with `k` added to the position it holds.
pub open spec fn shifted(o: Option<int>, k: int) -> Option<int> {
    match o {
        Some(i) => Some(i + k),
        None => None,
    }
}

/// The position of the first node in `nodes` named `name`.
fn first_named_index(nodes: &Vec<DirNode>, name: &String) -> (r: Option<usize>)
    ensures
        match first_named(nodes@, name@) {
            Some(i) => r == Some(i as usize),
            None => r is None,
        },
{
    let mut i: usize = 0;
    assert(nodes@.skip(0) =~= nodes@);
    while i < nodes.len()
        invariant
            i <= nodes@.len(),
            first_named(nodes@, name@) == shifted(first_named(nodes@.skip(i as int), name@), i as int),
        decreases nodes@.len() - i,
    {
        assert(nodes@.skip(i as int)[0] == nodes@[i as int]);
        if nodes[i].name == *name {
            return Some(i);
        }
        assert(nodes@.skip(i as int).drop_first() =~= nodes@.skip(i + 1));
        i += 1;
    }
    None
}

/// A copy of a sequence of child positions.
fn copy_positions(v: &Vec<usize>) -> (c: Vec<usize>)
    ensures
        c@ == v@,
{
    let mut c: Vec<usize> = Vec::new();
    let mut i: usize = 0;
    while i < v.len()
        invariant
            i <= v@.len(),
            c@ == v@.take(i as int),
        decreases v@.len() - i,
    {
        c.push(v[i]);
        i += 1;
        assert(c@ =~= v@.take(i as int));
    }
    assert(v@.take(v@.len() as int) =~= v@);
    c
}

/// Whether two sequences of child positions are the same.
fn same_positions(a: &Vec<usize>, b: &Vec<usize>) -> (r: bool)
    ensures
        r == (a@ == b@),
{
    if a.len() != b.len() {
        return false;
    }
    let mut i: usize = 0;
    while i < a.len()
        invariant
            i <= a@.len(),
            a@.len() == b@.len(),
            forall|j: int| 0 <= j < i ==> a@[j] == b@[j],
        decreases a@.len() - i,
    {
        if a[i] != b[i] {
            return false;
        }
        i += 1;
    }
    assert(a@ =~= b@);
    true
}

/// The views of a sequence of position sequences.
pub open spec fn positions_view(v: Seq<Vec<usize>>) -> Seq<Seq<usize>> {
    v.map_values(|m: Vec<usize>| m@)
}

/// The views of a sequence of strings.
pub open spec fn strings_view(v: Seq<String>) -> Seq<Seq<char>> {
    v.map_values(|s: String| s@)
}

/// A copy of a sequence of position sequences.
fn copy_marks(v: &Vec<Vec<usize>>) -> (c: Vec<Vec<usize>>)
    ensures
        positions_view(c@) == positions_view(v@),
{
    let mut c: Vec<Vec<usize>> = Vec::new();
    let mut i: usize = 0;
    while i < v.len()
        invariant
            i <= v@.len(),
            positions_view(c@) == positions_view(v@).take(i as int),
        decreases v@.len() - i,
    {
        let m = copy_positions(&v[i]);
        let ghost before = c@;
        assert(before.len() == i) by {
            assert(positions_view(before).len() == before.len());
        }
        c.push(m);
        assert forall|j: int| 0 <= j <= i implies #[trigger] positions_view(c@)[j] == positions_view(v@)[j] by {
            if j < i {
                assert(positions_view(before)[j] == positions_view(v@).take(i as int)[j]);
            }
        }
        i += 1;
        assert(positions_view(c@) =~= positions_view(v@).take(i as int));
    }
    assert(positions_view(v@).take(v@.len() as int) =~= positions_view(v@));
    c
}

/// Appends `name` to the filesystem path `base`.
fn push_name(base: &mut String, name: &String)
    ensures
        final(base)@ == join_name(old(base)@, name@),
{
    let needs_separator = {
        let bytes = base.as_str().as_bytes();
        bytes.len() > 0 && bytes[bytes.len() - 1] != 0x2fu8
    };
    if needs_separator {
        let slash = "/";
        proof {
            reveal_strlit("/");
        }
        base.append(slash);
    }
    base.append(name.as_str());
}

/// The filesystem path of the node that `path` leads to below `tree`, whose own path is `base`.
fn node_fs_path(base: &String, tree: &DirNode, path: &Vec<usize>) -> (p: Option<String>)
    ensures
        match fs_path(base@, *tree, path@) {
            Some(q) => p is Some && p->0@ == q,
            None => p is None,
        },
{
    let mut acc = base.clone();
    let mut node = tree;
    let mut k: usize = 0;
    assert(path@.skip(0) =~= path@);
    while k < path.len()
        invariant
            k <= path@.len(),
            fs_path(base@, *tree, path@) == fs_path(acc@, *node, path@.skip(k as int)),
        decreases path@.len() - k,
    {
        let idx = path[k];
        assert(path@.skip(k as int).drop_first() =~= path@.skip(k + 1));
        if idx >= node.children.len() {
            return None;
        }
        let child = &node.children[idx];
        push_name(&mut acc, &child.name);
        node = child;
        k += 1;
    }
    Some(acc)
}

/// The display path of the node that `p` leads to below `tree`: the root's
/// name, then `/` and the name of each node passed.
fn display_path(tree: &DirNode, p: &Vec<usize>) -> (s: String)
    ensures
        s@ == tree.name@ + display_names(*tree, p@),
{
    let mut path = tree.name.clone();
    let mut node = tree;
    let mut k: usize = 0;
    assert(p@.skip(0) =~= p@);
    assert(path@ + Seq::<char>::empty() =~= path@);
    while k < p.len()
        invariant
            k <= p@.len(),
            tree.name@ + display_names(*tree, p@) == path@ + display_names(*node, p@.skip(k as int)),
        decreases p@.len() - k,
    {
        let idx = p[k];
        assert(p@.skip(k as int).drop_first() =~= p@.skip(k + 1));
        if idx < node.children.len() {
            let child = &node.children[idx];
            let ghost before = path@;
            let slash = "/";
            proof {
                reveal_strlit("/");
            }
            path.append(slash);
            path.append(child.name.as_str());
            assert(before + (seq!['/'] + child.name@ + display_names(*child, p@.skip(k + 1)))
                =~= path@ + display_names(*child, p@.skip(k + 1)));
            node = child;
        }
        k += 1;
    }
    assert(path@ + display_names(*node, p@.skip(p@.len() as int)) =~= path@);
    path
}

/// The complete application state.
pub struct App {
    /// The path we were invoked with.
    pub root_path: String,
    /// The fully-built filesystem tree (None while scanning).
    pub tree: Option<DirNode>,
    /// Current node being viewed in the file list: child positions from the root.
    pub current_node_path: Vec<usize>,
    /// Selected row in the current file list.
    pub selected: usize,
    /// Whether a scan has been started whose result has not arrived yet.
    pub awaiting_scan: bool,
    /// True while the background scan is running.
    pub scanning: bool,
    /// Show the help overlay.
    pub show_help: bool,
    /// Deletions are switched off.
    pub no_delete: bool,
    /// The deletion confirmation is shown.
    pub show_delete_confirm: bool,
    /// Items marked for deletion, each as child positions from the root.
    pub marked: Vec<Vec<usize>>,
    /// How the file list is ordered.
    pub sort_mode: SortMode,
}

impl View for App {
    type V = AppView;

    open spec fn view(&self) -> AppView {
        AppView {
            root_path: self.root_path@,
            tree: self.tree,
            path: self.current_node_path@,
            selected: self.selected as int,
            awaiting_scan: self.awaiting_scan,
            scanning: self.scanning,
            show_help: self.show_help,
            no_delete: self.no_delete,
            confirm_delete: self.show_delete_confirm,
            marked: self.marked@.map_values(|m: Vec<usize>| m@),
            sort_mode: self.sort_mode,
        }
    }
}

impl App {
    /// An idle browser for `root_path` with nothing scanned yet.
    pub fn new(root_path: String, no_delete: bool) -> (app: App)
        ensures
            app@ == (AppView {
                root_path: root_path@,
                tree: None,
                path: Seq::empty(),
                selected: 0,
                awaiting_scan: false,
                scanning: false,
                show_help: false,
                no_delete,
                confirm_delete: false,
                marked: Seq::empty(),
                sort_mode: SortMode::SizeDesc,
            }),
            app@.well_formed(),
    {
        let app = App {
            root_path,
            tree: None,
            current_node_path: Vec::new(),
            selected: 0,
            awaiting_scan: false,
            scanning: false,
            show_help: false,
            no_delete,
            show_delete_confirm: false,
            marked: Vec::new(),
            sort_mode: SortMode::SizeDesc,
        };
        assert(app@.marked =~= Seq::<Seq<usize>>::empty());
        app
    }

    /// Resets the state for a background scan; the caller starts the scan
    /// itself and hands its result to `poll_scan`.
    pub fn start_scan(&mut self)
        ensures
            final(self)@ == old(self)@.after_start_scan(),
    {
        self.tree = None;
        self.current_node_path = Vec::new();
        self.selected = 0;
        self.scanning = true;
        self.awaiting_scan = true;
        self.show_delete_confirm = false;
        self.marked = Vec::new();
        assert(self@.marked =~= Seq::<Seq<usize>>::empty());
    }

    /// Takes in the result of the background scan, if one was awaited and has arrived.
    pub fn poll_scan(&mut self, received: Option<DirNode>)
        ensures
            final(self)@ == old(self)@.after_poll_scan(received),
    {
        if self.awaiting_scan {
            if let Some(node) = received {
                self.tree = Some(node);
                self.scanning = false;
                self.awaiting_scan = false;
            }
        }
    }

    /// Returns a reference to the node currently displayed in the file list.
    pub fn current_node(&self) -> (node: Option<&DirNode>)
        ensures
            match node {
                Some(n) => self@.current() == Some(*n),
                None => self@.current() is None,
            },
    {
        let root = match &self.tree {
            Some(t) => t,
            None => return None,
        };
        let mut node = root;
        let mut k: usize = 0;
        assert(self.current_node_path@.skip(0) =~= self.current_node_path@);
        while k < self.current_node_path.len()
            invariant
                k <= self.current_node_path@.len(),
                self.tree == Some(*root),
                node_at(*root, self.current_node_path@) == node_at(*node, self.current_node_path@.skip(k as int)),
            decreases self.current_node_path@.len() - k,
        {
            let idx = self.current_node_path[k];
            assert(self.current_node_path@.skip(k as int).drop_first() =~= self.current_node_path@.skip(k + 1));
            if idx < node.children.len() {
                node = &node.children[idx];
            } else {
                return None;
            }
            k += 1;
        }
        Some(node)
    }

    /// Children of the current node in the current sort order.
    pub fn current_children(&self) -> (children: Vec<&DirNode>)
        ensures
            children@.len() == self@.listing().len(),
            forall|i: int| 0 <= i < children@.len() ==> *children@[i] == #[trigger] self@.listing()[i],
    {
        let node = match self.current_node() {
            Some(n) => n,
            None => return Vec::new(),
        };
        let order = listing_order(&node.children, self.sort_mode);
        proof {
            lemma_listing_order_of(node.children@, self.sort_mode, order@);
        }
        let mut children: Vec<&DirNode> = Vec::new();
        let mut k: usize = 0;
        while k < order.len()
            invariant
                k <= order@.len(),
                order@.len() == node.children@.len(),
                forall|m: int| 0 <= m < order@.len() ==> #[trigger] order@[m] < node.children@.len(),
                self@.listing() == arranged(node.children@, order@),
                children@.len() == k,
                forall|i: int| 0 <= i < k ==> *children@[i] == #[trigger] self@.listing()[i],
            decreases order@.len() - k,
        {
            children.push(&node.children[order[k]]);
            k += 1;
        }
        children
    }

    /// The position, from the root, of the selected child of the current node.
    fn entry_target(&self) -> (t: Option<Vec<usize>>)
        ensures
            match self@.entry_target() {
                Some(p) => t is Some && t->0@ == p,
                None => t is None,
            },
    {
        let children = self.current_children();
        if self.selected >= children.len() {
            return None;
        }
        let child = children[self.selected];
        let node = match self.current_node() {
            Some(n) => n,
            None => return None,
        };
        match first_named_index(&node.children, &child.name) {
            Some(i) => {
                let mut p = copy_positions(&self.current_node_path);
                p.push(i);
                Some(p)
            },
            None => None,
        }
    }

    /// Drill into the selected directory.
    pub fn enter_selected(&mut self)
        ensures
            final(self)@ == old(self)@.after_enter(),
            0 <= old(self)@.selected < old(self)@.listing().len() && old(self)@.listing()[old(self)@.selected].children@.len()
                > 0 ==> final(self)@.path.drop_last() == old(self)@.path && final(self)@.path.len() == old(self)@.path.len() + 1
                && final(self)@.selected == 0,
    {
        proof {
            if 0 <= self@.selected < self@.listing().len() {
                crate::laws::lemma_enter_drills_into_selected_row(self@);
            }
        }
        let has_children = {
            let children = self.current_children();
            if self.selected < children.len() {
                children[self.selected].children.len() > 0
            } else {
                false
            }
        };
        if !has_children {
            return;
        }
        match self.entry_target() {
            Some(p) => {
                self.current_node_path = p;
                self.selected = 0;
            },
            None => {},
        }
    }

    /// Marks the selected entry for deletion, or unmarks it if it is marked.
    pub fn toggle_mark(&mut self)
        ensures
            final(self)@ == old(self)@.after_toggle_mark(),
    {
        if self.no_delete {
            return;
        }
        let target = match self.entry_target() {
            Some(t) => t,
            None => return,
        };
        let ghost marks = positions_view(self.marked@);
        let mut found = false;
        let mut i: usize = 0;
        while i < self.marked.len()
            invariant
                i <= self.marked@.len(),
                marks == positions_view(self.marked@),
                found ==> marks.contains(target@),
                !found ==> forall|j: int| 0 <= j < i ==> marks[j] != target@,
            decreases self.marked@.len() - i,
        {
            if same_positions(&self.marked[i], &target) {
                assert(marks[i as int] == target@);
                found = true;
            }
            i += 1;
        }
        if found {
            let mut kept: Vec<Vec<usize>> = Vec::new();
            let mut i: usize = 0;
            assert(marks.take(0) =~= Seq::<Seq<usize>>::empty());
            while i < self.marked.len()
                invariant
                    i <= self.marked@.len(),
                    marks == positions_view(self.marked@),
                    positions_view(kept@) == without(marks.take(i as int), target@),
                decreases self.marked@.len() - i,
            {
                assert(marks.take(i + 1).drop_last() =~= marks.take(i as int));
                if !same_positions(&self.marked[i], &target) {
                    let m = copy_positions(&self.marked[i]);
                    kept.push(m);
                    assert(positions_view(kept@) =~= without(marks.take(i as int), target@).push(marks[i as int]));
                }
                i += 1;
            }
            assert(marks.take(marks.len() as int) =~= marks);
            self.marked = kept;
        } else {
            self.marked.push(target);
            assert(positions_view(self.marked@) =~= marks.push(target@));
        }
    }

    /// Asks for confirmation before deleting the marked entries, or the
    /// selected one when nothing is marked.
    pub fn prompt_delete(&mut self)
        ensures
            final(self)@ == old(self)@.after_prompt_delete(),
    {
        if self.no_delete {
            return;
        }
        if self.marked.len() > 0 {
            self.show_delete_confirm = true;
            return;
        }
        if self.entry_target().is_some() {
            self.show_delete_confirm = true;
        }
    }

    /// Closes the confirmation and, unless deletions are switched off, hands
    /// back the filesystem paths of the entries to delete (the marked ones, or
    /// else the selected one); when there are any, the marks are dropped and a
    /// fresh scan starts, which the caller runs once it has deleted them.
    pub fn delete_marked(&mut self) -> (paths: Vec<String>)
        ensures
            strings_view(paths@) == (if old(self)@.no_delete {
                Seq::<Seq<char>>::empty()
            } else {
                old(self)@.deletion_paths()
            }),
            final(self)@ == old(self)@.after_delete(),
            !old(self)@.no_delete && old(self)@.marked.len() > 0 && old(self)@.tree is Some ==> strings_view(paths@)
                == existing_paths(old(self)@.root_path, old(self)@.tree->0, old(self)@.marked),
    {
        if self.no_delete {
            self.show_delete_confirm = false;
            let none: Vec<String> = Vec::new();
            assert(strings_view(none@) =~= Seq::<Seq<char>>::empty());
            return none;
        }
        let targets: Vec<Vec<usize>> = if self.marked.len() > 0 {
            copy_marks(&self.marked)
        } else {
            match self.entry_target() {
                Some(t) => {
                    let mut v: Vec<Vec<usize>> = Vec::new();
                    v.push(t);
                    v
                },
                None => Vec::new(),
            }
        };
        assert(positions_view(targets@) =~= self@.deletion_targets());
        let mut paths: Vec<String> = Vec::new();
        match &self.tree {
            Some(t) => {
                let mut i: usize = 0;
                assert(positions_view(targets@).take(0) =~= Seq::<Seq<usize>>::empty());
                while i < targets.len()
                    invariant
                        i <= targets@.len(),
                        strings_view(paths@) == existing_paths(self.root_path@, *t, positions_view(targets@).take(i as int)),
                    decreases targets@.len() - i,
                {
                    assert(positions_view(targets@).take(i + 1).drop_last() =~= positions_view(targets@).take(i as int));
                    match node_fs_path(&self.root_path, t, &targets[i]) {
                        Some(p) => {
                            paths.push(p);
                            assert(strings_view(paths@) =~= strings_view(paths@).drop_last().push(paths@.last()@));
                        },
                        None => {},
                    }
                    i += 1;
                }
                assert(positions_view(targets@).take(targets@.len() as int) =~= positions_view(targets@));
            },
            None => {
                assert(strings_view(paths@) =~= Seq::<Seq<char>>::empty());
            },
        }
        if paths.len() == 0 {
            self.show_delete_confirm = false;
        } else {
            self.start_scan();
        }
        paths
    }

    /// The display path of the current node.
    pub fn current_path_display(&self) -> (s: String)
        ensures
            s@ == self@.path_display(),
    {
        match &self.tree {
            Some(t) => display_path(t, &self.current_node_path),
            None => self.root_path.clone(),
        }
    }

    /// The display paths of the marked entries, in the order they were marked.
    pub fn marked_display(&self) -> (shown: Vec<String>)
        ensures
            strings_view(shown@) == self@.marked_shown(),
    {
        let mut shown: Vec<String> = Vec::new();
        let t = match &self.tree {
            Some(t) => t,
            None => {
                assert(strings_view(shown@) =~= Seq::<Seq<char>>::empty());
                return shown;
            },
        };
        let ghost marks = self@.marked;
        let mut i: usize = 0;
        while i < self.marked.len()
            invariant
                i <= self.marked@.len(),
                marks == positions_view(self.marked@),
                self.tree == Some(*t),
                strings_view(shown@) == marks.take(i as int).map_values(|m: Seq<usize>| t.name@ + display_names(*t, m)),
            decreases self.marked@.len() - i,
        {
            let d = display_path(t, &self.marked[i]);
            let ghost before = shown@;
            let ghost f = |m: Seq<usize>| t.name@ + display_names(*t, m);
            assert(marks[i as int] == self.marked@[i as int]@);
            assert(strings_view(before).len() == before.len());
            assert(before.len() == i);
            shown.push(d);
            assert(shown@ == before.push(d));
            assert forall|j: int| 0 <= j <= i implies #[trigger] strings_view(shown@)[j] == marks.take(i + 1).map_values(f)[j] by {
                assert(strings_view(shown@)[j] == shown@[j]@);
                if j < i {
                    assert(strings_view(before)[j] == before[j]@);
                    assert(strings_view(before)[j] == marks.take(i as int).map_values(f)[j]);
                }
            }
            i += 1;
            assert(strings_view(shown@) =~= marks.take(i as int).map_values(f));
        }
        assert(marks.take(marks.len() as int) =~= marks);
        shown
    }

    /// How many entries a confirmed deletion would remove.
    pub fn deletion_count(&self) -> (n: usize)
        ensures
            n == self@.deletion_targets().len(),
            self@.marked.len() > 0 ==> n == self@.marked.len(),
            self@.marked.len() == 0 ==> n <= 1,
    {
        if self.marked.len() > 0 {
            self.marked.len()
        } else if self.entry_target().is_some() {
            1
        } else {
            0
        }
    }

    /// Selects the list row under a click at terminal row `row` of a terminal
    /// `height` rows high and drills into it.
    pub fn handle_click(&mut self, row: u16, height: u16)
        ensures
            final(self)@ == old(self)@.after_click(row, height),
    {
        let count = self.current_children().len();
        let list_height: usize = if height >= 3 { (height - 3) as usize } else { 0 };
        if row < 1 || (row as usize) > list_height {
            return;
        }
        let offset: usize = if self.selected >= list_height {
            self.selected - list_height + 1
        } else {
            0
        };
        let r: usize = (row - 1) as usize;
        if offset >= count || r >= count - offset {
            return;
        }
        self.selected = offset + r;
        self.enter_selected();
    }

    /// Move selection down.
    pub fn select_next(&mut self)
        ensures
            final(self)@ == old(self)@.after_select_next(),
    {
        let count = self.current_children().len();
        if count == 0 {
            return;
        }
        if self.selected < count - 1 {
            self.selected = self.selected + 1;
        } else {
            self.selected = count - 1;
        }
    }

    /// Move selection up.
    pub fn select_prev(&mut self)
        ensures
            final(self)@ == old(self)@.after_select_prev(),
    {
        if self.selected > 0 {
            self.selected -= 1;
        }
    }

    /// Navigate to the parent directory.
    pub fn go_up(&mut self)
        ensures
            final(self)@ == old(self)@.after_go_up(),
    {
        if self.current_node_path.pop().is_some() {
            self.selected = 0;
        }
    }

    /// Show or hide the help overlay.
    pub fn toggle_help(&mut self)
        ensures
            final(self)@ == old(self)@.after_toggle_help(),
    {
        self.show_help = !self.show_help;
    }

    /// Moves on to the next sort mode.
    pub fn cycle_sort_mode(&mut self)
        ensures
            final(self)@ == old(self)@.after_cycle_sort_mode(),
    {
        self.sort_mode = self.sort_mode.next();
    }
}

} // verus!

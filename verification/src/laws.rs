//! Properties of the browser that span several operations.
use vstd::prelude::*;
use crate::tree::DirNode;
use crate::order::{SortMode, listed, listing_order_of, lemma_listing_shows_each_child, lemma_listing_len};
use crate::state::{AppView, node_at, first_named, without, existing_paths};
use crate::input::{EffectView, InputEvent, Key, on_event, is_interrupt};

verus! {

/// Following one more position from a path goes to that child of where the path leads.
pub proof fn lemma_node_at_push(t: DirNode, p: Seq<usize>, i: usize)
    ensures
        node_at(t, p.push(i)) == match node_at(t, p) {
            Some(n) => if i < n.children@.len() { Some(n.children@[i as int]) } else { None },
            None => None,
        },
    decreases p.len(),
{
    if p.len() == 0 {
        assert(p.push(i).drop_first() =~= Seq::<usize>::empty());
        assert(p.push(i)[0] == i);
        if i < t.children@.len() {
            assert(node_at(t.children@[i as int], Seq::<usize>::empty()) == Some(t.children@[i as int]));
        }
    } else {
        assert(p.push(i).drop_first() =~= p.drop_first().push(i));
        assert(p.push(i)[0] == p[0]);
        if p[0] < t.children@.len() {
            lemma_node_at_push(t.children@[p[0] as int], p.drop_first(), i);
        }
    }
}

/// In a tree whose totals agree at every level, so do they in every node a
/// path leads to: the size and item count shown for the current directory
/// are those of its children together.
pub proof fn lemma_consistent_subtree(t: DirNode, p: Seq<usize>)
    requires
        t.consistent(),
        node_at(t, p) is Some,
    ensures
        node_at(t, p)->0.consistent(),
        node_at(t, p)->0.totals_agree(),
    decreases p.len(),
{
    if p.len() > 0 {
        lemma_consistent_subtree(t.children@[p[0] as int], p.drop_first());
    }
}

/// `first_named` finds a node that carries the name, and the first one.
pub proof fn lemma_first_named(nodes: Seq<DirNode>, name: Seq<char>)
    ensures
        match first_named(nodes, name) {
            Some(i) => 0 <= i < nodes.len() && nodes[i].name@ == name && forall|j: int|
                0 <= j < i ==> #[trigger] nodes[j].name@ != name,
            None => forall|j: int| 0 <= j < nodes.len() ==> #[trigger] nodes[j].name@ != name,
        },
    decreases nodes.len(),
{
    if nodes.len() > 0 && nodes[0].name@ != name {
        lemma_first_named(nodes.drop_first(), name);
        assert forall|j: int| 0 < j < nodes.len() implies nodes[j].name@ == nodes.drop_first()[j - 1].name@ by {}
    }
}

/// Going up after drilling into a directory comes back to where one was.
pub proof fn lemma_enter_then_go_up(s: AppView)
    requires
        s.after_enter().path != s.path,
    ensures
        s.after_enter().after_go_up().path == s.path,
        s.after_enter().after_go_up().current() == s.current(),
{
    let t = s.entry_target()->0;
    assert(t.drop_last() =~= s.path);
}

/// Drilling in leads to a child of the current directory that carries the
/// selected entry's name, and to the selected entry itself when the names of
/// the children are distinct.
pub proof fn lemma_enter_reaches_selected(s: AppView)
    requires
        s.after_enter().path != s.path,
    ensures
        s.after_enter().current() is Some,
        s.after_enter().current()->0.name@ == s.listing()[s.selected].name@,
        (forall|a: int, b: int|
            0 <= a < s.current()->0.children@.len() && 0 <= b < s.current()->0.children@.len()
                && #[trigger] s.current()->0.children@[a].name@ == #[trigger] s.current()->0.children@[b].name@
                ==> a == b) ==> s.after_enter().current()->0 == s.listing()[s.selected],
{
    let n = s.current()->0;
    let entry = s.listing()[s.selected];
    lemma_first_named(n.children@, entry.name@);
    let i = first_named(n.children@, entry.name@)->0;
    lemma_node_at_push(s.tree->0, s.path, i as usize);
    assert(n.children@.len() <= usize::MAX) by {
        assert(n.children@.len() == n.children.len());
    }
    lemma_listing_len(n.children@, s.sort_mode);
    lemma_listing_shows_each_child(n.children@, s.sort_mode, s.selected);
    let o = listing_order_of(n.children@, s.sort_mode);
    assert(entry == n.children@[o[s.selected] as int]);
    assert(entry.children@.len() > 0);
}

/// Moving the selection down keeps it on a row of a non-empty list, and
/// moving it back up returns to the row one started from.
pub proof fn lemma_selection_moves(s: AppView)
    requires
        0 <= s.selected,
    ensures
        s.listing().len() > 0 ==> 0 <= s.after_select_next().selected < s.listing().len(),
        s.selected < s.listing().len() - 1 ==> s.after_select_next().after_select_prev() == s,
        0 < s.selected < s.listing().len() ==> s.after_select_prev().after_select_next() == s,
        s.after_select_prev().selected >= 0,
{
}

proof fn lemma_without_push(s: Seq<Seq<usize>>, t: Seq<usize>)
    ensures
        without(s.push(t), t) == without(s, t),
{
    assert(s.push(t).drop_last() =~= s);
}

proof fn lemma_without_absent(s: Seq<Seq<usize>>, t: Seq<usize>)
    requires
        !s.contains(t),
    ensures
        without(s, t) == s,
    decreases s.len(),
{
    if s.len() > 0 {
        assert(!s.drop_last().contains(t)) by {
            if s.drop_last().contains(t) {
                let k = choose|k: int| 0 <= k < s.drop_last().len() && s.drop_last()[k] == t;
                assert(s[k] == t);
            }
        }
        lemma_without_absent(s.drop_last(), t);
        assert(s.drop_last().push(s.last()) =~= s);
    }
}

proof fn lemma_without_contains(s: Seq<Seq<usize>>, t: Seq<usize>, x: Seq<usize>)
    ensures
        without(s, t).contains(x) <==> s.contains(x) && x != t,
    decreases s.len(),
{
    if s.len() > 0 {
        lemma_without_contains(s.drop_last(), t, x);
        let r = without(s.drop_last(), t);
        if s.drop_last().contains(x) {
            let k = choose|k: int| 0 <= k < s.drop_last().len() && s.drop_last()[k] == x;
            assert(s[k] == x);
        }
        if s.contains(x) {
            let k = choose|k: int| 0 <= k < s.len() && s[k] == x;
            if k < s.len() - 1 {
                assert(s.drop_last()[k] == x);
            }
        }
        if s.last() != t {
            if r.contains(x) {
                let k = choose|k: int| 0 <= k < r.len() && r[k] == x;
                assert(r.push(s.last())[k] == x);
            }
            if r.push(s.last()).contains(x) {
                let k = choose|k: int| 0 <= k < r.push(s.last()).len() && r.push(s.last())[k] == x;
                if k < r.len() {
                    assert(r[k] == x);
                }
            }
            assert(r.push(s.last())[r.len() as int] == s.last());
        }
    }
}

/// Marking an entry twice leaves the same set of marks, and the very same
/// marks when the entry was not marked to begin with.
pub proof fn lemma_toggle_mark_twice(s: AppView)
    ensures
        s.after_toggle_mark().after_toggle_mark().marked.to_set() == s.marked.to_set(),
        (s.entry_target() matches Some(t) && !s.marked.contains(t)) || s.entry_target() is None
            ==> s.after_toggle_mark().after_toggle_mark().marked == s.marked,
        s.after_toggle_mark().after_toggle_mark().path == s.path,
        s.after_toggle_mark().after_toggle_mark().tree == s.tree,
{
    let s1 = s.after_toggle_mark();
    let s2 = s1.after_toggle_mark();
    assert(s1.entry_target() == s.entry_target());
    if !s.no_delete && s.entry_target() is Some {
        let t = s.entry_target()->0;
        if s.marked.contains(t) {
            lemma_without_contains(s.marked, t, t);
            assert(!s1.marked.contains(t));
            assert(s2.marked == without(s.marked, t).push(t));
            assert forall|x: Seq<usize>| s2.marked.to_set().contains(x) == s.marked.to_set().contains(x) by {
                lemma_without_contains(s.marked, t, x);
                let w = without(s.marked, t);
                if w.contains(x) {
                    let k = choose|k: int| 0 <= k < w.len() && w[k] == x;
                    assert(w.push(t)[k] == x);
                }
                if w.push(t).contains(x) && x != t {
                    let k = choose|k: int| 0 <= k < w.push(t).len() && w.push(t)[k] == x;
                    assert(k < w.len());
                    assert(w[k] == x);
                }
                assert(w.push(t)[w.len() as int] == t);
            }
            lemma_without_contains(s.marked, t, t);
            assert(s2.marked.to_set() =~= s.marked.to_set());
        } else {
            assert(s.marked.push(t)[s.marked.len() as int] == t);
            lemma_without_push(s.marked, t);
            lemma_without_absent(s.marked, t);
        }
    }
}

/// Showing the help twice over leaves everything as it was.
pub proof fn lemma_toggle_help_twice(s: AppView)
    ensures
        s.after_toggle_help().after_toggle_help() == s,
{
}

/// A scan's result, once it arrives, is what is shown, from the top.
pub proof fn lemma_scan_result_shown(s: AppView, n: DirNode)
    ensures
        s.after_start_scan().after_poll_scan(Some(n)).tree == Some(n),
        !s.after_start_scan().after_poll_scan(Some(n)).scanning,
        s.after_start_scan().after_poll_scan(Some(n)).current() == Some(n),
        s.after_start_scan().after_poll_scan(Some(n)).selected == 0,
        s.after_start_scan().after_poll_scan(None) == s.after_start_scan(),
{
}

/// Control-C quits whatever is on screen, changing nothing.
pub proof fn lemma_interrupt_quits(s: AppView, ev: InputEvent)
    requires
        is_interrupt(ev),
    ensures
        on_event(s, ev) == (s, EffectView::Quit),
{
}

/// Nothing is deleted without a confirmation on screen.
pub proof fn lemma_delete_needs_confirmation(s: AppView, ev: InputEvent)
    requires
        on_event(s, ev).1 is Delete,
    ensures
        s.confirm_delete,
        !s.no_delete,
{
}

/// With deletions switched off, no event asks for a confirmation, marks an
/// entry or deletes anything.
pub proof fn lemma_no_delete_is_kept(s: AppView, ev: InputEvent)
    requires
        s.no_delete,
        !s.confirm_delete,
        s.marked.len() == 0,
    ensures
        on_event(s, ev).0.no_delete,
        !on_event(s, ev).0.confirm_delete,
        on_event(s, ev).0.marked.len() == 0,
        !(on_event(s, ev).1 is Delete),
{
}

proof fn lemma_node_at_prefix(t: DirNode, p: Seq<usize>)
    requires
        p.len() > 0,
        node_at(t, p) is Some,
    ensures
        node_at(t, p.drop_last()) is Some,
{
    lemma_node_at_push(t, p.drop_last(), p.last());
    assert(p.drop_last().push(p.last()) =~= p);
}

proof fn lemma_listing_len_of(s: AppView, mode: SortMode)
    requires
        s.current() is Some,
    ensures
        listed(s.current()->0.children@, mode).len() == s.current()->0.children@.len(),
{
    let n = s.current()->0;
    assert(n.children@.len() <= usize::MAX) by {
        assert(n.children@.len() == n.children.len());
    }
    lemma_listing_len(n.children@, mode);
}

proof fn lemma_enter_keeps_well_formed(s: AppView)
    requires
        s.well_formed(),
    ensures
        s.after_enter().well_formed(),
{
    if s.after_enter() != s {
        let n = s.current()->0;
        let entry = s.listing()[s.selected];
        lemma_first_named(n.children@, entry.name@);
        let i = first_named(n.children@, entry.name@)->0;
        lemma_node_at_push(s.tree->0, s.path, i as usize);
    }
}

/// Every action keeps the state well formed.
pub proof fn lemma_actions_keep_well_formed(
    s: AppView,
    received: Option<DirNode>,
    row: u16,
    height: u16,
)
    requires
        s.well_formed(),
    ensures
        s.after_select_next().well_formed(),
        s.after_select_prev().well_formed(),
        s.after_go_up().well_formed(),
        s.after_toggle_help().well_formed(),
        s.after_cycle_sort_mode().well_formed(),
        s.after_enter().well_formed(),
        s.after_toggle_mark().well_formed(),
        s.after_prompt_delete().well_formed(),
        s.after_delete().well_formed(),
        s.after_click(row, height).well_formed(),
        s.after_start_scan().well_formed(),
        s.after_poll_scan(received).well_formed(),
{
    if s.current() is Some {
        lemma_listing_len_of(s, s.sort_mode);
        lemma_listing_len_of(s, s.sort_mode.following());
    }
    if s.path.len() > 0 && s.tree is Some {
        lemma_node_at_prefix(s.tree->0, s.path);
    }
    lemma_enter_keeps_well_formed(s);
    match s.clicked_index(row, height) {
        Some(i) => {
            let t = AppView { selected: i, ..s };
            assert(t.well_formed());
            lemma_enter_keeps_well_formed(t);
        },
        None => {},
    }
    let p = s.after_poll_scan(received);
    if s.awaiting_scan && received is Some {
        assert(p.path =~= Seq::<usize>::empty());
        assert(p.current() == received);
    }
}

/// Every event keeps the state well formed, so from `App::new` on the
/// current path always leads to a node of the tree when there is one, the
/// selection always names a row of a non-empty list, and a tree is shown
/// exactly when no scan runs.
pub proof fn lemma_event_keeps_well_formed(s: AppView, ev: InputEvent)
    requires
        s.well_formed(),
    ensures
        on_event(s, ev).0.well_formed(),
{
    match ev {
        InputEvent::LeftClick { row, height } => lemma_actions_keep_well_formed(s, None, row, height),
        _ => lemma_actions_keep_well_formed(s, None, 0, 0),
    }
}

/// A key pressed, with or without Control held.
pub open spec fn pressed(key: Key, ctrl: bool) -> InputEvent {
    InputEvent::Key { key, press: true, ctrl }
}

/// The selected row names a child of the current directory: the target of
/// an action on it is the current path followed by the position of a child
/// that carries the selected entry's name.
pub proof fn lemma_selected_row_has_target(s: AppView)
    requires
        0 <= s.selected < s.listing().len(),
    ensures
        s.current() is Some,
        s.entry_target() is Some,
        s.entry_target()->0.len() == s.path.len() + 1,
        s.entry_target()->0.drop_last() == s.path,
        s.entry_target()->0.last() < s.current()->0.children@.len(),
        s.current()->0.children@[s.entry_target()->0.last() as int].name@ == s.listing()[s.selected].name@,
{
    let n = s.current()->0;
    assert(n.children@.len() <= usize::MAX) by {
        assert(n.children@.len() == n.children.len());
    }
    lemma_listing_len(n.children@, s.sort_mode);
    lemma_listing_shows_each_child(n.children@, s.sort_mode, s.selected);
    let o = listing_order_of(n.children@, s.sort_mode);
    let entry = s.listing()[s.selected];
    assert(entry == n.children@[o[s.selected] as int]);
    lemma_first_named(n.children@, entry.name@);
    let i = first_named(n.children@, entry.name@)->0;
    assert(s.entry_target()->0 == s.path.push(i as usize));
    assert(s.path.push(i as usize).drop_last() =~= s.path);
}

/// In every sort mode, entering the selected row drills into the entry drawn
/// on that row when it is a directory with something in it: the path grows
/// by one step, to a child of the current directory that carries that
/// entry's name, and the first row is selected. An entry with nothing in it
/// is not entered, and nothing changes.
pub proof fn lemma_enter_drills_into_selected_row(s: AppView)
    requires
        0 <= s.selected < s.listing().len(),
    ensures
        s.listing()[s.selected].children@.len() > 0 ==> {
            &&& s.after_enter().path == s.entry_target()->0
            &&& s.after_enter().path.len() == s.path.len() + 1
            &&& s.after_enter().path.drop_last() == s.path
            &&& s.after_enter().selected == 0
            &&& s.after_enter().current() is Some
            &&& s.after_enter().current()->0.name@ == s.listing()[s.selected].name@
            &&& s.after_enter() == AppView { path: s.after_enter().path, selected: 0, ..s }
        },
        s.listing()[s.selected].children@.len() == 0 ==> s.after_enter() == s,
{
    lemma_selected_row_has_target(s);
    let t = s.entry_target()->0;
    assert(t.drop_last().push(t.last()) =~= t);
    lemma_node_at_push(s.tree->0, s.path, t.last());
}

/// A click on a row of the list selects the entry drawn on that row, and
/// drills into it. The list shows `height - 3` rows, scrolled by `off`
/// entries: the least scroll that keeps the selected row in view, so the
/// selection lies among the rows shown and is the last of them whenever the
/// list is scrolled at all. A row past the end of the list selects nothing.
pub proof fn lemma_click_selects_drawn_row(s: AppView, row: u16, height: u16, off: int)
    requires
        1 <= row,
        row + 3 <= height,
        0 <= off <= s.selected < off + (height - 3),
        off == 0 || s.selected == off + (height - 3) - 1,
    ensures
        s.clicked_index(row, height) == (if off + row - 1 < s.listing().len() {
            Some(off + row - 1)
        } else {
            None::<int>
        }),
        off + row - 1 < s.listing().len() ==> s.after_click(row, height) == (AppView {
            selected: off + row - 1,
            ..s
        }).after_enter(),
        off + row - 1 >= s.listing().len() ==> s.after_click(row, height) == s,
{
}

/// A click outside the rows of the list changes nothing.
pub proof fn lemma_click_outside_list(s: AppView, row: u16, height: u16)
    requires
        row == 0 || row + 3 > height,
    ensures
        s.clicked_index(row, height) is None,
        s.after_click(row, height) == s,
{
}

/// When entries are marked, a deletion removes exactly the marked entries,
/// in the order they were marked, whichever row is selected; only when
/// nothing is marked is the selected entry removed, and then it alone.
pub proof fn lemma_deletion_removes_marked(s: AppView, ctrl: bool)
    ensures
        s.marked.len() > 0 ==> s.deletion_targets() == s.marked,
        s.marked.len() > 0 && s.tree is Some ==> s.deletion_paths() == existing_paths(
            s.root_path,
            s.tree->0,
            s.marked,
        ),
        s.marked.len() == 0 && s.entry_target() is Some ==> s.deletion_targets() == seq![s.entry_target()->0],
        s.marked.len() == 0 && s.entry_target() is None ==> s.deletion_targets().len() == 0,
        s.confirm_delete && !s.no_delete && s.marked.len() > 0 && s.tree is Some && existing_paths(
            s.root_path,
            s.tree->0,
            s.marked,
        ).len() > 0 ==> on_event(s, pressed(Key::Char('y'), ctrl)).1 == EffectView::Delete(
            existing_paths(s.root_path, s.tree->0, s.marked),
        ),
{
}

/// While the deletion confirmation is shown, `y` and `Y` both confirm: the
/// prompt closes and the paths of the deletion targets are handed out to be
/// deleted, with a fresh scan started, unless there are none or deletions
/// are switched off. `n`, `N` and Esc close the prompt and change nothing else.
pub proof fn lemma_confirmation_answers(s: AppView, ctrl: bool)
    requires
        s.confirm_delete,
    ensures
        on_event(s, pressed(Key::Char('y'), ctrl)) == on_event(s, pressed(Key::Char('Y'), ctrl)),
        !on_event(s, pressed(Key::Char('y'), ctrl)).0.confirm_delete,
        !s.no_delete && s.deletion_paths().len() > 0 ==> on_event(s, pressed(Key::Char('y'), ctrl)) == (
            s.after_start_scan(),
            EffectView::Delete(s.deletion_paths()),
        ),
        s.no_delete || s.deletion_paths().len() == 0 ==> on_event(s, pressed(Key::Char('y'), ctrl)) == (
            AppView { confirm_delete: false, ..s },
            EffectView::Continue,
        ),
        on_event(s, pressed(Key::Char('n'), ctrl)) == (AppView { confirm_delete: false, ..s }, EffectView::Continue),
        on_event(s, pressed(Key::Char('N'), ctrl)) == (AppView { confirm_delete: false, ..s }, EffectView::Continue),
        on_event(s, pressed(Key::Esc, ctrl)) == (AppView { confirm_delete: false, ..s }, EffectView::Continue),
{
}

/// While the help is shown, and no confirmation, any key or mouse event but
/// Control-C only closes the help: nothing else changes and the browser
/// goes on.
pub proof fn lemma_help_closes_on_any_input(s: AppView, ev: InputEvent)
    requires
        s.show_help,
        !s.confirm_delete,
        !is_interrupt(ev),
        !(ev is Other),
    ensures
        on_event(s, ev) == (AppView { show_help: false, ..s }, EffectView::Continue),
{
}

/// A terminal event that is neither a key nor a mouse event changes nothing.
pub proof fn lemma_other_events_change_nothing(s: AppView)
    ensures
        on_event(s, InputEvent::Other) == (s, EffectView::Continue),
{
}

/// Outside the help overlay, releasing or repeating a key changes nothing.
pub proof fn lemma_key_release_changes_nothing(s: AppView, key: Key, ctrl: bool)
    requires
        !s.show_help || s.confirm_delete,
    ensures
        on_event(s, InputEvent::Key { key, press: false, ctrl }) == (s, EffectView::Continue),
{
}

/// While browsing, the keys that share a binding do the same: `j`, Down and
/// scrolling down; `k`, Up and scrolling up; Enter and Right; Backspace, Left
/// and Esc; `d` and `D`.
pub proof fn lemma_browse_bindings_agree(s: AppView, ctrl: bool)
    requires
        !s.confirm_delete,
        !s.show_help,
    ensures
        on_event(s, pressed(Key::Char('j'), ctrl)) == on_event(s, pressed(Key::Down, ctrl)),
        on_event(s, pressed(Key::Char('j'), ctrl)) == on_event(s, InputEvent::ScrollDown),
        on_event(s, pressed(Key::Char('k'), ctrl)) == on_event(s, pressed(Key::Up, ctrl)),
        on_event(s, pressed(Key::Char('k'), ctrl)) == on_event(s, InputEvent::ScrollUp),
        on_event(s, pressed(Key::Enter, ctrl)) == on_event(s, pressed(Key::Right, ctrl)),
        on_event(s, pressed(Key::Backspace, ctrl)) == on_event(s, pressed(Key::Left, ctrl)),
        on_event(s, pressed(Key::Backspace, ctrl)) == on_event(s, pressed(Key::Esc, ctrl)),
        on_event(s, pressed(Key::Char('d'), ctrl)) == on_event(s, pressed(Key::Char('D'), ctrl)),
{
}

/// While browsing: `q` quits with nothing changed; `j` moves the selection
/// one row down unless it is on the last row, and `k` one row up unless it
/// is on the first; Esc goes to the parent directory with the first row
/// selected, and does nothing at the top; `?` shows the help; `s` lists by
/// the next sort mode; `r` drops the tree and the marks and asks for a
/// fresh scan; `d` asks for confirmation exactly when deletions are allowed
/// and something is marked or selected.
pub proof fn lemma_browse_keys(s: AppView, ctrl: bool)
    requires
        !s.confirm_delete,
        !s.show_help,
        0 <= s.selected,
    ensures
        on_event(s, pressed(Key::Char('q'), ctrl)) == (s, EffectView::Quit),
        s.selected + 1 < s.listing().len() ==> on_event(s, pressed(Key::Char('j'), ctrl)) == (
            AppView { selected: s.selected + 1, ..s },
            EffectView::Continue,
        ),
        s.selected + 1 == s.listing().len() ==> on_event(s, pressed(Key::Char('j'), ctrl)) == (s, EffectView::Continue),
        s.selected > 0 ==> on_event(s, pressed(Key::Char('k'), ctrl)) == (
            AppView { selected: s.selected - 1, ..s },
            EffectView::Continue,
        ),
        s.selected == 0 ==> on_event(s, pressed(Key::Char('k'), ctrl)) == (s, EffectView::Continue),
        s.path.len() > 0 ==> on_event(s, pressed(Key::Esc, ctrl)) == (
            AppView { path: s.path.drop_last(), selected: 0, ..s },
            EffectView::Continue,
        ),
        s.path.len() == 0 ==> on_event(s, pressed(Key::Esc, ctrl)) == (s, EffectView::Continue),
        on_event(s, pressed(Key::Char('?'), ctrl)) == (AppView { show_help: true, ..s }, EffectView::Continue),
        on_event(s, pressed(Key::Char('s'), ctrl)).0 == (AppView { sort_mode: s.sort_mode.following(), ..s }),
        on_event(s, pressed(Key::Char('r'), ctrl)).1 == EffectView::Rescan,
        on_event(s, pressed(Key::Char('r'), ctrl)).0.tree is None,
        on_event(s, pressed(Key::Char('r'), ctrl)).0.scanning,
        on_event(s, pressed(Key::Char('r'), ctrl)).0.marked.len() == 0,
        on_event(s, pressed(Key::Char('d'), ctrl)).0.confirm_delete <==> !s.no_delete && (s.marked.len() > 0
            || 0 <= s.selected < s.listing().len()),
        on_event(s, pressed(Key::Char('d'), ctrl)).0 == (AppView {
            confirm_delete: on_event(s, pressed(Key::Char('d'), ctrl)).0.confirm_delete,
            ..s
        }),
{
    if 0 <= s.selected < s.listing().len() {
        lemma_selected_row_has_target(s);
    }
}

/// Marking with the space key flips whether the selected entry is marked
/// and leaves every other mark as it was; with deletions switched off, or
/// nothing selected, it changes nothing.
pub proof fn lemma_space_flips_mark(s: AppView, ctrl: bool, x: Seq<usize>)
    requires
        !s.confirm_delete,
        !s.show_help,
    ensures
        !s.no_delete && 0 <= s.selected < s.listing().len() ==> {
            &&& on_event(s, pressed(Key::Char(' '), ctrl)).0.marked.contains(s.entry_target()->0)
                == !s.marked.contains(s.entry_target()->0)
            &&& x != s.entry_target()->0 ==> on_event(s, pressed(Key::Char(' '), ctrl)).0.marked.contains(x)
                == s.marked.contains(x)
        },
        s.no_delete || !(0 <= s.selected < s.listing().len()) ==> on_event(s, pressed(Key::Char(' '), ctrl)) == (
            s,
            EffectView::Continue,
        ),
        on_event(s, pressed(Key::Char(' '), ctrl)).1 == EffectView::Continue,
{
    if 0 <= s.selected < s.listing().len() {
        lemma_selected_row_has_target(s);
        let t = s.entry_target()->0;
        lemma_without_contains(s.marked, t, x);
        lemma_without_contains(s.marked, t, t);
        assert(s.marked.push(t)[s.marked.len() as int] == t);
        if s.marked.contains(x) {
            let k = choose|k: int| 0 <= k < s.marked.len() && s.marked[k] == x;
            assert(s.marked.push(t)[k] == x);
        }
        if s.marked.push(t).contains(x) && x != t {
            let k = choose|k: int| 0 <= k < s.marked.push(t).len() && s.marked.push(t)[k] == x;
            assert(s.marked[k] == x);
        }
    }
}

} // verus!

//! User input: what each key press or mouse action does to the browser state,
//! and what the caller has to do about it.
use vstd::prelude::*;
use crate::state::{App, AppView, strings_view};

verus! {

/// A key as the browser sees it.
#[derive(Debug, Clone, Copy, PartialEq, Eq, Structural)]
pub enum Key {
    Char(char),
    Up,
    Down,
    Left,
    Right,
    Enter,
    Backspace,
    Esc,
    Other,
}

/// A terminal event as the browser sees it.
#[derive(Debug, Clone, Copy, PartialEq, Eq, Structural)]
pub enum InputEvent {
    /// A key event: `press` is false for releases and repeats; `ctrl` tells
    /// whether Control was held.
    Key { key: Key, press: bool, ctrl: bool },
    ScrollDown,
    ScrollUp,
    /// A left-button click at terminal row `row`, the terminal being `height` rows high.
    LeftClick { row: u16, height: u16 },
    /// Any other mouse event.
    OtherMouse,
    /// Any other terminal event (resize, focus, paste).
    Other,
}

/// What the caller has to do after an event.
#[derive(Debug)]
pub enum Effect {
    Continue,
    Quit,
    /// A fresh scan was requested: run it and hand its result to `poll_scan`.
    Rescan,
    /// Delete these filesystem paths, then run a fresh scan as for `Rescan`.
    Delete(Vec<String>),
}

/// The abstract counterpart of `Effect`.
pub ghost enum EffectView {
    Continue,
    Quit,
    Rescan,
    Delete(Seq<Seq<char>>),
}

impl View for Effect {
    type V = EffectView;

    open spec fn view(&self) -> EffectView {
        match self {
            Effect::Continue => EffectView::Continue,
            Effect::Quit => EffectView::Quit,
            Effect::Rescan => EffectView::Rescan,
            Effect::Delete(paths) => EffectView::Delete(strings_view(paths@)),
        }
    }
}

/// Control-C quits whatever is on screen.
pub open spec fn is_interrupt(ev: InputEvent) -> bool {
    ev matches InputEvent::Key { key: Key::Char(c), press: true, ctrl: true } && c == 'c'
}

/// The effect that follows a confirmed deletion.
pub open spec fn deletion_effect(s: AppView) -> EffectView {
    if !s.no_delete && s.deletion_paths().len() > 0 {
        EffectView::Delete(s.deletion_paths())
    } else {
        EffectView::Continue
    }
}

/// While the deletion confirmation is shown: `y` deletes, `n` or Esc cancels.
pub open spec fn on_confirm_event(s: AppView, ev: InputEvent) -> (AppView, EffectView) {
    match ev {
        InputEvent::Key { key, press: true, ctrl: _ } => match key {
            Key::Char(c) => if c == 'y' || c == 'Y' {
                (s.after_delete(), deletion_effect(s))
            } else if c == 'n' || c == 'N' {
                (AppView { confirm_delete: false, ..s }, EffectView::Continue)
            } else {
                (s, EffectView::Continue)
            },
            Key::Esc => (AppView { confirm_delete: false, ..s }, EffectView::Continue),
            _ => (s, EffectView::Continue),
        },
        _ => (s, EffectView::Continue),
    }
}

/// While the help is shown: any key or mouse event closes it.
pub open spec fn on_help_event(s: AppView, ev: InputEvent) -> (AppView, EffectView) {
    match ev {
        InputEvent::Other => (s, EffectView::Continue),
        _ => (AppView { show_help: false, ..s }, EffectView::Continue),
    }
}

/// While browsing: the key bindings and mouse actions.
pub open spec fn on_browse_event(s: AppView, ev: InputEvent) -> (AppView, EffectView) {
    match ev {
        InputEvent::Key { key, press: true, ctrl: _ } => match key {
            Key::Char(c) => if c == 'q' {
                (s, EffectView::Quit)
            } else if c == 'j' {
                (s.after_select_next(), EffectView::Continue)
            } else if c == 'k' {
                (s.after_select_prev(), EffectView::Continue)
            } else if c == 's' {
                (s.after_cycle_sort_mode(), EffectView::Continue)
            } else if c == 'r' {
                (s.after_start_scan(), EffectView::Rescan)
            } else if c == '?' {
                (s.after_toggle_help(), EffectView::Continue)
            } else if c == ' ' {
                (s.after_toggle_mark(), EffectView::Continue)
            } else if c == 'd' || c == 'D' {
                (s.after_prompt_delete(), EffectView::Continue)
            } else {
                (s, EffectView::Continue)
            },
            Key::Down => (s.after_select_next(), EffectView::Continue),
            Key::Up => (s.after_select_prev(), EffectView::Continue),
            Key::Enter | Key::Right => (s.after_enter(), EffectView::Continue),
            Key::Backspace | Key::Left | Key::Esc => (s.after_go_up(), EffectView::Continue),
            Key::Other => (s, EffectView::Continue),
        },
        InputEvent::ScrollDown => (s.after_select_next(), EffectView::Continue),
        InputEvent::ScrollUp => (s.after_select_prev(), EffectView::Continue),
        InputEvent::LeftClick { row, height } => (s.after_click(row, height), EffectView::Continue),
        _ => (s, EffectView::Continue),
    }
}

/// The state after an event, and what the caller has to do.
pub open spec fn on_event(s: AppView, ev: InputEvent) -> (AppView, EffectView) {
    if is_interrupt(ev) {
        (s, EffectView::Quit)
    } else if s.confirm_delete {
        on_confirm_event(s, ev)
    } else if s.show_help {
        on_help_event(s, ev)
    } else {
        on_browse_event(s, ev)
    }
}

impl App {
    /// Applies one terminal event to the state and tells the caller what to do next.
    pub fn handle_event(&mut self, ev: InputEvent) -> (effect: Effect)
        ensures
            (final(self)@, effect@) == on_event(old(self)@, ev),
    {
        if let InputEvent::Key { key: Key::Char(c), press: true, ctrl: true } = ev {
            if c == 'c' {
                return Effect::Quit;
            }
        }
        if self.show_delete_confirm {
            if let InputEvent::Key { key, press: true, ctrl: _ } = ev {
                match key {
                    Key::Char(c) => {
                        if c == 'y' || c == 'Y' {
                            let ghost before = self@;
                            let paths = self.delete_marked();
                            assert(strings_view(paths@).len() == paths@.len());
                            if paths.len() > 0 {
                                assert(!before.no_delete);
                                assert(before.deletion_paths().len() > 0);
                                return Effect::Delete(paths);
                            }
                            return Effect::Continue;
                        } else if c == 'n' || c == 'N' {
                            self.show_delete_confirm = false;
                        }
                    },
                    Key::Esc => {
                        self.show_delete_confirm = false;
                    },
                    _ => {},
                }
            }
            return Effect::Continue;
        }
        if self.show_help {
            match ev {
                InputEvent::Other => {},
                _ => {
                    self.show_help = false;
                },
            }
            return Effect::Continue;
        }
        match ev {
            InputEvent::Key { key, press: true, ctrl: _ } => match key {
                Key::Char(c) => {
                    if c == 'q' {
                        return Effect::Quit;
                    } else if c == 'j' {
                        self.select_next();
                    } else if c == 'k' {
                        self.select_prev();
                    } else if c == 's' {
                        self.cycle_sort_mode();
                    } else if c == 'r' {
                        self.start_scan();
                        return Effect::Rescan;
                    } else if c == '?' {
                        self.toggle_help();
                    } else if c == ' ' {
                        self.toggle_mark();
                    } else if c == 'd' || c == 'D' {
                        self.prompt_delete();
                    }
                },
                Key::Down => self.select_next(),
                Key::Up => self.select_prev(),
                Key::Enter | Key::Right => self.enter_selected(),
                Key::Backspace | Key::Left | Key::Esc => self.go_up(),
                Key::Other => {},
            },
            InputEvent::ScrollDown => self.select_next(),
            InputEvent::ScrollUp => self.select_prev(),
            InputEvent::LeftClick { row, height } => self.handle_click(row, height),
            _ => {},
        }
        Effect::Continue
    }
}

} // verus!

//! State of the terminal UI: the scrollback model, scrolling arithmetic and
//! key handling.
//!
//! Rendering itself (terminal drawing, text layout) lives outside the
//! library; what is here is every decision the UI makes — how far each key
//! scrolls, when the view follows fresh output, when the UI quits, and
//! which action a number key triggers.  All scroll arithmetic saturates.

use vstd::prelude::*;

use crate::opts::actions_view;
use crate::opts::TuiAction;
use crate::opts::TuiActionCommand;

verus! {

/// How far a mouse wheel event scrolls.
pub const SCROLL_AMOUNT: usize = 3;

/// Modifier of a key press.
#[derive(Clone, Copy, Debug, PartialEq, Eq, Structural)]
pub enum KeyMods {
    Plain,
    Shift,
    Control,
}

/// A terminal input event, reduced to what the UI state reacts to.
#[derive(Clone, Copy, Debug, PartialEq, Eq, Structural)]
pub enum TuiInput {
    MouseScrollUp,
    MouseScrollDown,
    Key(KeyMods, char),
    Other,
}

/// `a - b`, stopping at zero.
pub open spec fn sat_sub(a: nat, b: nat) -> nat {
    if a >= b {
        (a - b) as nat
    } else {
        0
    }
}

/// `a + b`, stopping at the machine bound.
pub open spec fn sat_add(a: nat, b: nat) -> nat {
    if a + b > usize::MAX {
        usize::MAX as nat
    } else {
        a + b
    }
}

/// The smaller of two naturals.
pub open spec fn nat_min(a: nat, b: nat) -> nat {
    if a <= b {
        a
    } else {
        b
    }
}

/// State data for drawing the UI.
#[derive(Debug)]
pub struct TuiState {
    /// Show the debug footer.
    pub debug: bool,
    /// The UI asked to quit.
    pub quit: bool,
    /// Raw scrollback bytes, newline-terminated lines.
    pub scrollback: Vec<u8>,
    /// How many lines the scrollback holds.
    pub line_count: usize,
    /// The first line shown.
    pub scroll_offset: usize,
    /// The action table, number keys `1`–`9`.
    pub actions: Vec<TuiAction>,
    /// Show the action sidebar.
    pub show_actions: bool,
    /// The last terminal height seen.
    pub height: u16,
}

impl TuiState {
    /// Half the terminal height: the jump of a half-page scroll.
    pub open spec fn half_height_spec(self) -> nat {
        (self.height as nat) / 2
    }

    /// The largest useful scroll offset.
    pub open spec fn scroll_max_spec(self) -> nat {
        sat_sub(self.line_count as nat, self.half_height_spec())
    }

    /// Where the view lands after new output: when it was at the bottom and
    /// the scrollback exceeds the screen, it follows down one line.
    pub open spec fn follow_offset_spec(self) -> nat {
        if self.scroll_offset as nat >= sat_sub(
            sat_sub(self.line_count as nat, self.height as nat),
            1,
        ) && self.line_count > self.height {
            sat_add(self.scroll_offset as nat, 1)
        } else {
            self.scroll_offset as nat
        }
    }

    /// Everything but the scroll offset is unchanged.
    pub open spec fn same_but_offset(self, other: TuiState) -> bool {
        &&& self.debug == other.debug
        &&& self.quit == other.quit
        &&& self.scrollback@ == other.scrollback@
        &&& self.line_count == other.line_count
        &&& actions_view(self.actions@) == actions_view(other.actions@)
        &&& self.show_actions == other.show_actions
        &&& self.height == other.height
    }

    /// A fresh UI over the given action table.
    pub fn new(actions: Vec<TuiAction>) -> (r: TuiState)
        ensures
            r.debug == false,
            r.quit == false,
            r.scrollback@ == Seq::<u8>::empty(),
            r.line_count == 1,
            r.scroll_offset == 0,
            r.actions@ == actions@,
            r.show_actions == true,
            r.height == 0,
    {
        let r = TuiState {
            debug: false,
            quit: false,
            scrollback: Vec::new(),
            line_count: 1,
            scroll_offset: 0,
            actions,
            show_actions: true,
            height: 0,
        };
        proof {
            assert(r.scrollback@ =~= Seq::<u8>::empty());
        }
        r
    }

    /// Record the terminal height seen at the last render.
    pub fn set_height(&mut self, height: u16)
        ensures
            *final(self) == (TuiState { height, ..*old(self) }),
    {
        self.height = height;
    }

    /// Half the terminal height.
    pub fn half_height(&self) -> (r: usize)
        ensures
            r == self.half_height_spec(),
    {
        (self.height / 2) as usize
    }

    /// The largest useful scroll offset.
    pub fn scroll_max(&self) -> (r: usize)
        ensures
            r == self.scroll_max_spec(),
    {
        self.line_count.saturating_sub(self.half_height())
    }

    /// Scroll up by `amount` lines, stopping at the top.
    pub fn scroll_up(&mut self, amount: usize)
        ensures
            final(self).scroll_offset == sat_sub(old(self).scroll_offset as nat, amount as nat),
            final(self).same_but_offset(*old(self)),
    {
        self.scroll_offset = self.scroll_offset.saturating_sub(amount);
    }

    /// Scroll down by `amount` lines, stopping at the last useful offset.
    pub fn scroll_down(&mut self, amount: usize)
        ensures
            final(self).scroll_offset == nat_min(
                sat_add(old(self).scroll_offset as nat, amount as nat),
                old(self).scroll_max_spec(),
            ),
            final(self).same_but_offset(*old(self)),
    {
        let bumped = self.scroll_offset.saturating_add(amount);
        let max = self.line_count.saturating_sub(self.half_height());
        self.scroll_offset = if bumped <= max {
            bumped
        } else {
            max
        };
    }

    /// Jump to the given offset, capped at the last useful one.
    pub fn scroll_to(&mut self, offset: usize)
        ensures
            final(self).scroll_offset == nat_min(
                offset as nat,
                old(self).scroll_max_spec(),
            ),
            final(self).same_but_offset(*old(self)),
    {
        let max = self.line_count.saturating_sub(self.half_height());
        self.scroll_offset = if offset <= max {
            offset
        } else {
            max
        };
    }

    /// Follow fresh output when the view was at the bottom.
    pub fn maybe_follow(&mut self)
        ensures
            final(self).scroll_offset == old(self).follow_offset_spec(),
            final(self).same_but_offset(*old(self)),
    {
        let h = self.height as usize;
        let bottom = self.line_count.saturating_sub(h).saturating_sub(1);
        let scrolled_to_bottom = self.scroll_offset >= bottom;
        let scrollback_exceeds_height = self.line_count > h;
        if scrolled_to_bottom && scrollback_exceeds_height {
            self.scroll_offset = self.scroll_offset.saturating_add(1);
        }
    }

    /// Append one line to the scrollback and follow it when the view was at
    /// the bottom.
    pub fn push_line(&mut self, line: &[u8])
        ensures
            final(self).scrollback@ == old(self).scrollback@ + line@ + seq![10u8],
            final(self).line_count == sat_add(old(self).line_count as nat, 1),
            final(self).scroll_offset == (TuiState {
                line_count: final(self).line_count,
                ..*old(self)
            }).follow_offset_spec(),
            final(self).debug == old(self).debug,
            final(self).quit == old(self).quit,
            actions_view(final(self).actions@) == actions_view(old(self).actions@),
            final(self).show_actions == old(self).show_actions,
            final(self).height == old(self).height,
    {
        crate::bytes::append_bytes(&mut self.scrollback, line);
        self.scrollback.push(10u8);
        self.line_count = self.line_count.saturating_add(1);
        self.maybe_follow();
    }

    /// React to one terminal input.  A number key returns the action command
    /// to trigger; everything else adjusts the view state.
    pub fn handle_event(&mut self, input: TuiInput) -> (r: Option<TuiActionCommand>)
        ensures
            ({
                let pre = *old(self);
                let post = *final(self);
                match input {
                    TuiInput::MouseScrollUp => {
                        &&& post.scroll_offset == sat_sub(pre.scroll_offset as nat, 3)
                        &&& post.same_but_offset(pre)
                        &&& r is None
                    },
                    TuiInput::MouseScrollDown => {
                        &&& post.scroll_offset == nat_min(
                            sat_add(pre.scroll_offset as nat, 3),
                            pre.scroll_max_spec(),
                        )
                        &&& post.same_but_offset(pre)
                        &&& r is None
                    },
                    TuiInput::Key(mods, c) => {
                        if mods == KeyMods::Plain && c == 'j' {
                            &&& post.scroll_offset == nat_min(
                                sat_add(pre.scroll_offset as nat, 1),
                                pre.scroll_max_spec(),
                            )
                            &&& post.same_but_offset(pre)
                            &&& r is None
                        } else if mods == KeyMods::Plain && c == 'k' {
                            &&& post.scroll_offset == sat_sub(pre.scroll_offset as nat, 1)
                            &&& post.same_but_offset(pre)
                            &&& r is None
                        } else if mods == KeyMods::Plain && c == 'g' {
                            &&& post.scroll_offset == 0
                            &&& post.same_but_offset(pre)
                            &&& r is None
                        } else if mods == KeyMods::Shift && (c == 'g' || c == 'G') {
                            &&& post.scroll_offset == pre.scroll_max_spec()
                            &&& post.same_but_offset(pre)
                            &&& r is None
                        } else if mods == KeyMods::Control && c == 'u' {
                            &&& post.scroll_offset == sat_sub(
                                pre.scroll_offset as nat,
                                pre.half_height_spec(),
                            )
                            &&& post.same_but_offset(pre)
                            &&& r is None
                        } else if mods == KeyMods::Control && c == 'd' {
                            &&& post.scroll_offset == nat_min(
                                sat_add(pre.scroll_offset as nat, pre.half_height_spec()),
                                pre.scroll_max_spec(),
                            )
                            &&& post.same_but_offset(pre)
                            &&& r is None
                        } else if mods == KeyMods::Control && c == 'e' {
                            &&& post.scroll_offset == nat_min(
                                sat_add(pre.scroll_offset as nat, 1),
                                pre.scroll_max_spec(),
                            )
                            &&& post.same_but_offset(pre)
                            &&& r is None
                        } else if mods == KeyMods::Control && c == 'y' {
                            &&& post.scroll_offset == sat_sub(pre.scroll_offset as nat, 1)
                            &&& post.same_but_offset(pre)
                            &&& r is None
                        } else if mods == KeyMods::Control && c == 'c' {
                            &&& post == (TuiState { quit: true, ..pre })
                            &&& r is None
                        } else if mods == KeyMods::Plain && c == '`' {
                            &&& post == (TuiState { debug: false, ..pre })
                            &&& r is None
                        } else if mods == KeyMods::Shift && (c == '`' || c == '~') {
                            &&& post == (TuiState { debug: true, ..pre })
                            &&& r is None
                        } else if mods == KeyMods::Plain && c == 'a' {
                            &&& post == (TuiState { show_actions: !pre.show_actions, ..pre })
                            &&& r is None
                        } else if mods == KeyMods::Plain && '1' <= c && c <= '9' {
                            let index = c as int - '1' as int;
                            &&& post == pre
                            &&& if index < actions_view(pre.actions@).len() {
                                match r {
                                    Some(cmd) => {
                                        let av = actions_view(pre.actions@)[index];
                                        match cmd {
                                            TuiActionCommand::Shell(t) => !av.internal && t@
                                                == av.command,
                                            TuiActionCommand::Internal(t) => av.internal && t@
                                                == av.command,
                                        }
                                    },
                                    None => false,
                                }
                            } else {
                                r is None
                            }
                        } else {
                            post == pre && r is None
                        }
                    },
                    TuiInput::Other => post == *old(self) && r is None,
                }
            }),
    {
        match input {
            TuiInput::MouseScrollUp => {
                self.scroll_up(SCROLL_AMOUNT);
                None
            }
            TuiInput::MouseScrollDown => {
                self.scroll_down(SCROLL_AMOUNT);
                None
            }
            TuiInput::Key(mods, c) => {
                if matches!(mods, KeyMods::Plain) && c == 'j' {
                    self.scroll_down(1);
                    None
                } else if matches!(mods, KeyMods::Plain) && c == 'k' {
                    self.scroll_up(1);
                    None
                } else if matches!(mods, KeyMods::Plain) && c == 'g' {
                    self.scroll_to(0);
                    proof {
                        assert(nat_min(0, old(self).scroll_max_spec()) == 0);
                    }
                    None
                } else if matches!(mods, KeyMods::Shift) && (c == 'g' || c == 'G') {
                    self.scroll_to(usize::MAX);
                    proof {
                        assert(old(self).scroll_max_spec() <= usize::MAX);
                    }
                    None
                } else if matches!(mods, KeyMods::Control) && c == 'u' {
                    let h = self.half_height();
                    self.scroll_up(h);
                    None
                } else if matches!(mods, KeyMods::Control) && c == 'd' {
                    let h = self.half_height();
                    self.scroll_down(h);
                    None
                } else if matches!(mods, KeyMods::Control) && c == 'e' {
                    self.scroll_down(1);
                    None
                } else if matches!(mods, KeyMods::Control) && c == 'y' {
                    self.scroll_up(1);
                    None
                } else if matches!(mods, KeyMods::Control) && c == 'c' {
                    self.quit = true;
                    None
                } else if matches!(mods, KeyMods::Plain) && c == '`' {
                    self.debug = false;
                    None
                } else if matches!(mods, KeyMods::Shift) && (c == '`' || c == '~') {
                    self.debug = true;
                    None
                } else if matches!(mods, KeyMods::Plain) && c == 'a' {
                    self.show_actions = !self.show_actions;
                    None
                } else if matches!(mods, KeyMods::Plain) && '1' <= c && c <= '9' {
                    let index = (c as usize) - ('1' as usize);
                    if index < self.actions.len() {
                        let a = self.actions[index].duplicate();
                        proof {
                            assert(self.actions@[index as int]@ == actions_view(self.actions@)[
                                index as int
                            ]);
                        }
                        Some(a.command)
                    } else {
                        None
                    }
                } else {
                    None
                }
            }
            TuiInput::Other => None,
        }
    }

    /// Height of the action sidebar: its entries plus title and separator,
    /// when shown.
    pub fn action_pane_height(&self) -> (r: u16)
        ensures
            r as nat == (if self.show_actions && self.actions@.len() > 0 {
                nat_min(self.actions@.len() + 2, u16::MAX as nat)
            } else {
                0
            }),
    {
        if self.show_actions && self.actions.len() > 0 {
            let n = self.actions.len();
            if n <= (u16::MAX as usize) - 2 {
                (n + 2) as u16
            } else {
                u16::MAX
            }
        } else {
            0u16
        }
    }

    /// The scroll offset as the renderer needs it, when it fits.
    pub fn scroll_offset_u16(&self) -> (r: Option<u16>)
        ensures
            match r {
                Some(v) => v == self.scroll_offset && self.scroll_offset <= u16::MAX,
                None => self.scroll_offset > u16::MAX,
            },
    {
        if self.scroll_offset <= u16::MAX as usize {
            Some(self.scroll_offset as u16)
        } else {
            None
        }
    }
}

} // verus!

//! The password prompt: collects keystrokes, masks them on screen, compares
//! the entry against the configured password on enter, and signals
//! termination on a match. On a mismatch it clears the entry and asks a
//! linked feedback entity to show itself.

use vstd::prelude::*;
use vstd::string::{StringExecFns, StrSliceExecFns};
use crate::controller::{ControlEvent, EventContext, UpdateResult};
use crate::entity::{Entity, Named};
use crate::input::InputEvent;
use crate::terminal::{
    cap_coord, spec_cap_coord, term_clear_line, term_move_to, term_print, DrawContext, TermError,
    TermOp,
};
use crate::textfmt::{char_repeat, chars_eq, str_chars};

verus! {

/// A count clamped to what an addressable screen column can hold.
pub open spec fn clamp_col(n: nat) -> u16 {
    if n < u16::MAX {
        n as u16
    } else {
        (u16::MAX - 1) as u16
    }
}

/// The password prompt's state: the configured password, the characters
/// typed so far, and whether the last enter-checked entry is stale.
pub struct PasswordPromptEntity {
    /// The entity's own name.
    pub id: String,
    /// The prompt text shown before the masked entry.
    pub prompt: String,
    /// The password a correct entry must equal.
    pub correct_password: Vec<char>,
    /// The characters typed since the entry was last cleared.
    pub password: Vec<char>,
    /// Whether the entry has changed since it was last checked on enter.
    pub dirty: bool,
    /// The name of the feedback entity told to show itself on a mismatch.
    pub linked_feedback: String,
    /// The row the prompt is drawn on.
    pub row: u16,
}

/// Everything about the prompt that neither updates nor input events may
/// change.
pub open spec fn same_config(pre: PasswordPromptEntity, post: PasswordPromptEntity) -> bool {
    &&& post.id == pre.id
    &&& post.prompt == pre.prompt
    &&& post.correct_password == pre.correct_password
    &&& post.linked_feedback == pre.linked_feedback
    &&& post.row == pre.row
}

/// How one update step changes the prompt: a checked, matching entry kills
/// the loop; a checked mismatch re-arms the prompt and emits one event that
/// makes the linked feedback entity visible; otherwise the prompt merely
/// keeps the cursor focus.
pub open spec fn prompt_update_rel(
    pre: PasswordPromptEntity,
    post: PasswordPromptEntity,
    r: UpdateResult,
) -> bool {
    &&& same_config(pre, post)
    &&& if pre.password@ == pre.correct_password@ && !pre.dirty {
        &&& post == pre
        &&& r.kill
        &&& !r.focused
        &&& r.events@.len() == 0
    } else if !pre.dirty {
        &&& post.password == pre.password
        &&& post.dirty
        &&& !r.kill
        &&& r.focused
        &&& r.events@.len() == 1
        &&& r.events@[0].name@ == pre.linked_feedback@
        &&& r.events@[0].property_key@ == "visible"@
        &&& r.events@[0].property_value@ == "true"@
    } else {
        &&& post == pre
        &&& !r.kill
        &&& r.focused
        &&& r.events@.len() == 0
    }
}

/// How one input event changes the prompt: characters are appended,
/// backspace removes the last character, enter checks the entry (clearing it
/// on a mismatch), and anything else is not consumed.
pub open spec fn prompt_handle_rel(
    pre: PasswordPromptEntity,
    post: PasswordPromptEntity,
    ev: InputEvent,
    consumed: bool,
) -> bool {
    &&& same_config(pre, post)
    &&& match ev {
        InputEvent::Char(c) => {
            &&& consumed
            &&& post.password@ == pre.password@.push(c)
            &&& post.dirty
        },
        InputEvent::Backspace => {
            &&& consumed
            &&& post.password@ == (if pre.password@.len() == 0 {
                pre.password@
            } else {
                pre.password@.drop_last()
            })
            &&& post.dirty
        },
        InputEvent::Enter => {
            &&& consumed
            &&& !post.dirty
            &&& post.password@ == (if pre.password@ == pre.correct_password@ {
                pre.password@
            } else {
                Seq::<char>::empty()
            })
        },
        InputEvent::Other => {
            &&& !consumed
            &&& post == pre
        },
    }
}

impl PasswordPromptEntity {
    /// A prompt named after `id`, showing `prompt`, checking entries against
    /// `correct_password`, linked to the feedback entity of the given name,
    /// drawn on `row`.
    pub fn new(
        id: &str,
        prompt: &str,
        correct_password: &str,
        linked_feedback_name: &str,
        row: u16,
    ) -> (r: PasswordPromptEntity)
        ensures
            r.id@ == "PasswordPromptEntity-"@ + id@,
            r.prompt@ == prompt@,
            r.correct_password@ == correct_password@,
            r.password@ == Seq::<char>::empty(),
            r.dirty,
            r.linked_feedback@ == linked_feedback_name@,
            r.row == row,
    {
        let mut name = "PasswordPromptEntity-".to_owned();
        name.append(id);
        PasswordPromptEntity {
            id: name,
            prompt: prompt.to_owned(),
            correct_password: str_chars(correct_password),
            password: Vec::new(),
            dirty: true,
            linked_feedback: linked_feedback_name.to_owned(),
            row,
        }
    }
}

impl Named for PasswordPromptEntity {
    open spec fn spec_name(&self) -> Seq<char> {
        self.id@
    }

    fn get_name(&self) -> (r: &str) {
        self.id.as_str()
    }
}

impl Entity for PasswordPromptEntity {
    open spec fn draw_ops(&self) -> Seq<TermOp> {
        seq![
            TermOp::MoveTo(0, spec_cap_coord(self.row as nat)),
            TermOp::ClearLine,
            TermOp::MoveTo(0, spec_cap_coord(self.row as nat)),
            TermOp::Print(self.prompt@ + char_repeat('*', self.password@.len())),
            TermOp::MoveTo(
                clamp_col(self.prompt@.len() + self.password@.len()),
                spec_cap_coord(self.row as nat),
            ),
        ]
    }

    open spec fn draw_infallible(&self) -> bool {
        false
    }

    open spec fn update_ens(&self, post: Self, r: UpdateResult) -> bool {
        prompt_update_rel(*self, post, r)
    }

    open spec fn handle_ens(&self, post: Self, ev: InputEvent, consumed: bool) -> bool {
        prompt_handle_rel(*self, post, ev, consumed)
    }

    fn draw(&self, ctx: &mut DrawContext) -> (r: Result<(), TermError>) {
        let ghost dops = self.draw_ops();
        let row = cap_coord(self.row);
        let ghost p0 = ctx.ops@;
        match term_move_to(ctx, 0, row) {
            Ok(()) => (),
            Err(e) => {
                proof {
                    assert(dops.take(0) =~= Seq::<TermOp>::empty());
                    assert(dops.take(1) =~= seq![
                        TermOp::MoveTo(0, spec_cap_coord(self.row as nat)),
                    ]);
                    if ctx.ops@ == p0 {
                        assert(ctx.ops@ =~= old(ctx).ops@ + dops.take(0));
                    } else {
                        assert(ctx.ops@ =~= old(ctx).ops@ + dops.take(1));
                    }
                }
                return Err(e);
            },
        }
        let ghost p1 = ctx.ops@;
        proof {
            assert(dops.take(1) =~= seq![TermOp::MoveTo(0, spec_cap_coord(self.row as nat))]);
            assert(p1 =~= old(ctx).ops@ + dops.take(1));
        }
        match term_clear_line(ctx) {
            Ok(()) => (),
            Err(e) => {
                proof {
                    assert(dops.take(2) =~= dops.take(1) + seq![TermOp::ClearLine]);
                    if ctx.ops@ == p1 {
                        assert(ctx.ops@ =~= old(ctx).ops@ + dops.take(1));
                    } else {
                        assert(ctx.ops@ =~= old(ctx).ops@ + dops.take(2));
                    }
                }
                return Err(e);
            },
        }
        let ghost p2 = ctx.ops@;
        proof {
            assert(dops.take(2) =~= dops.take(1) + seq![TermOp::ClearLine]);
            assert(p2 =~= old(ctx).ops@ + dops.take(2));
        }
        match term_move_to(ctx, 0, row) {
            Ok(()) => (),
            Err(e) => {
                proof {
                    assert(dops.take(3) =~= dops.take(2) + seq![
                        TermOp::MoveTo(0, spec_cap_coord(self.row as nat)),
                    ]);
                    if ctx.ops@ == p2 {
                        assert(ctx.ops@ =~= old(ctx).ops@ + dops.take(2));
                    } else {
                        assert(ctx.ops@ =~= old(ctx).ops@ + dops.take(3));
                    }
                }
                return Err(e);
            },
        }
        let ghost p3 = ctx.ops@;
        proof {
            assert(dops.take(3) =~= dops.take(2) + seq![
                TermOp::MoveTo(0, spec_cap_coord(self.row as nat)),
            ]);
            assert(p3 =~= old(ctx).ops@ + dops.take(3));
        }
        let mut text = self.prompt.clone();
        let n = self.password.len();
        let mut i: usize = 0;
        while i < n
            invariant
                i <= n,
                text@ == self.prompt@ + char_repeat('*', i as nat),
            decreases n - i,
        {
            text.append("*");
            proof {
                reveal_strlit("*");
                assert(text@ =~= self.prompt@ + char_repeat('*', (i + 1) as nat));
            }
            i += 1;
        }
        proof {
            assert(text@ == self.prompt@ + char_repeat('*', self.password@.len()));
        }
        match term_print(ctx, text.as_str()) {
            Ok(()) => (),
            Err(e) => {
                proof {
                    assert(dops.take(4) =~= dops.take(3) + seq![TermOp::Print(text@)]);
                    if ctx.ops@ == p3 {
                        assert(ctx.ops@ =~= old(ctx).ops@ + dops.take(3));
                    } else {
                        assert(ctx.ops@ =~= old(ctx).ops@ + dops.take(4));
                    }
                }
                return Err(e);
            },
        }
        let ghost p4 = ctx.ops@;
        proof {
            assert(dops.take(4) =~= dops.take(3) + seq![TermOp::Print(text@)]);
            assert(p4 =~= old(ctx).ops@ + dops.take(4));
        }
        let prompt_chars = self.prompt.as_str().unicode_len();
        let c1: usize = if prompt_chars <= 65535 {
            prompt_chars
        } else {
            65535
        };
        let c2: usize = if n <= 65535 {
            n
        } else {
            65535
        };
        let col: u16 = if c1 + c2 < 65535 {
            (c1 + c2) as u16
        } else {
            65534
        };
        proof {
            assert(col == clamp_col(self.prompt@.len() + self.password@.len()));
        }
        match term_move_to(ctx, col, row) {
            Ok(()) => (),
            Err(e) => {
                proof {
                    assert(dops.take(5) =~= dops.take(4) + seq![
                        TermOp::MoveTo(
                            clamp_col(self.prompt@.len() + self.password@.len()),
                            spec_cap_coord(self.row as nat),
                        ),
                    ]);
                    if ctx.ops@ == p4 {
                        assert(ctx.ops@ =~= old(ctx).ops@ + dops.take(4));
                    } else {
                        assert(ctx.ops@ =~= old(ctx).ops@ + dops.take(5));
                    }
                }
                return Err(e);
            },
        }
        proof {
            assert(ctx.ops@ =~= old(ctx).ops@ + self.draw_ops());
        }
        Ok(())
    }

    fn update(&mut self) -> (r: UpdateResult) {
        if chars_eq(&self.password, &self.correct_password) && !self.dirty {
            return UpdateResult::kill();
        }
        if !self.dirty {
            self.dirty = true;
            let mut events: Vec<ControlEvent> = Vec::new();
            events.push(
                ControlEvent {
                    name: self.linked_feedback.clone(),
                    property_key: "visible".to_owned(),
                    property_value: "true".to_owned(),
                },
            );
            return UpdateResult::new(false, true, events);
        }
        UpdateResult::focus()
    }

    fn handle_event(&mut self, ctx: EventContext) -> (consumed: bool) {
        match ctx.event {
            InputEvent::Char(c) => {
                self.password.push(c);
                self.dirty = true;
                true
            },
            InputEvent::Backspace => {
                self.password.pop();
                self.dirty = true;
                true
            },
            InputEvent::Enter => {
                self.dirty = false;
                if chars_eq(&self.password, &self.correct_password) {
                    return true;
                } else {
                    self.password.clear();
                }
                true
            },
            InputEvent::Other => false,
        }
    }
}

} // verus!

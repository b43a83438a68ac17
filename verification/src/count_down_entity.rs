//! The countdown timer: computes the remaining wall-clock time itself inside
//! each update, independent of tick frequency, and signals termination the
//! moment the configured duration has elapsed.

use vstd::prelude::*;
use vstd::string::StringExecFns;
use crate::clock::{elapsed_secs, instant_now};
use crate::controller::{EventContext, UpdateResult};
use crate::entity::{Entity, Named};
use crate::input::InputEvent;
use crate::terminal::{
    cap_coord, spec_cap_coord, term_clear_line, term_move_to, term_print, term_reset_color,
    term_set_fg_red, DrawContext, TermError, TermOp,
};
use crate::textfmt::{format_mm_ss, mm_ss};

verus! {

/// The seconds left of `total` after `elapsed` seconds, clamped at zero.
pub open spec fn spec_remaining(total: u64, elapsed: u64) -> u64 {
    if elapsed >= total {
        0
    } else {
        (total - elapsed) as u64
    }
}

/// A countdown: the configured duration, the moment it started, and the text
/// it last rendered.
pub struct CountDownEntity {
    /// The entity's own name.
    pub id: String,
    /// The configured duration, in whole seconds.
    pub total_secs: u64,
    /// The moment the countdown started.
    pub start: std::time::Instant,
    /// The text the last update produced, always minutes and seconds.
    pub print_text: String,
    /// The row the countdown is drawn on.
    pub row: u16,
}

/// How one tick with a given elapsed time changes a countdown: the rendered
/// text becomes the remaining time, zero-padded and clamped at zero, and the
/// result kills the loop exactly when the duration has elapsed.
pub open spec fn tick_rel(
    pre: CountDownEntity,
    post: CountDownEntity,
    r: UpdateResult,
    elapsed: u64,
) -> bool {
    &&& post.id == pre.id
    &&& post.total_secs == pre.total_secs
    &&& post.row == pre.row
    &&& post.print_text@ == mm_ss(spec_remaining(pre.total_secs, elapsed) as nat)
    &&& r.kill == (elapsed >= pre.total_secs)
    &&& !r.focused
    &&& r.events@.len() == 0
}

impl CountDownEntity {
    /// A countdown named after `id`, for `total_secs` seconds starting now,
    /// drawn on `row`.
    pub fn new(id: &str, total_secs: u64, row: u16) -> (r: CountDownEntity)
        ensures
            r.id@ == "CountDownEntity-"@ + id@,
            r.total_secs == total_secs,
            r.print_text@ == Seq::<char>::empty(),
            r.row == row,
    {
        let mut name = "CountDownEntity-".to_owned();
        name.append(id);
        CountDownEntity {
            id: name,
            total_secs,
            start: instant_now(),
            print_text: String::new(),
            row,
        }
    }

    /// One update step, given the elapsed wall-clock seconds: renders the
    /// remaining time and reports whether the countdown is over.
    pub fn tick(&mut self, elapsed: u64) -> (r: UpdateResult)
        ensures
            tick_rel(*old(self), *final(self), r, elapsed),
    {
        let remaining: u64 = if elapsed >= self.total_secs {
            0
        } else {
            self.total_secs - elapsed
        };
        self.print_text = format_mm_ss(remaining);
        if remaining == 0 {
            UpdateResult::kill()
        } else {
            UpdateResult::nop()
        }
    }
}

impl Named for CountDownEntity {
    open spec fn spec_name(&self) -> Seq<char> {
        self.id@
    }

    fn get_name(&self) -> (r: &str) {
        self.id.as_str()
    }
}

impl Entity for CountDownEntity {
    open spec fn draw_ops(&self) -> Seq<TermOp> {
        seq![
            TermOp::MoveTo(0, spec_cap_coord(self.row as nat)),
            TermOp::ClearLine,
            TermOp::SetFgRed,
            TermOp::Print(self.print_text@),
            TermOp::ResetColor,
        ]
    }

    open spec fn draw_infallible(&self) -> bool {
        false
    }

    open spec fn update_ens(&self, post: Self, r: UpdateResult) -> bool {
        exists|elapsed: u64| #[trigger] tick_rel(*self, post, r, elapsed)
    }

    open spec fn handle_ens(&self, post: Self, ev: InputEvent, consumed: bool) -> bool {
        post == *self && !consumed
    }

    fn draw(&self, ctx: &mut DrawContext) -> (r: Result<(), TermError>) {
        let ghost dops = self.draw_ops();
        let ghost p0 = ctx.ops@;
        match term_move_to(ctx, 0, cap_coord(self.row)) {
            Ok(()) => (),
            Err(e) => {
                proof {
                    assert(dops.take(0) =~= Seq::<TermOp>::empty());
                    assert(dops.take(1) =~= seq![
                        TermOp::MoveTo(0, spec_cap_coord(self.row as nat)),
                    ]);
                    if ctx.ops@ == p0 {
                        assert(ctx.ops@ =~= old(ctx).ops@ + dops.take(0));
                    } else {
                        assert(ctx.ops@ =~= old(ctx).ops@ + dops.take(1));
                    }
                }
                return Err(e);
            },
        }
        let ghost p1 = ctx.ops@;
        proof {
            assert(dops.take(1) =~= seq![TermOp::MoveTo(0, spec_cap_coord(self.row as nat))]);
            assert(p1 =~= old(ctx).ops@ + dops.take(1));
        }
        match term_clear_line(ctx) {
            Ok(()) => (),
            Err(e) => {
                proof {
                    assert(dops.take(2) =~= dops.take(1) + seq![TermOp::ClearLine]);
                    if ctx.ops@ == p1 {
                        assert(ctx.ops@ =~= old(ctx).ops@ + dops.take(1));
                    } else {
                        assert(ctx.ops@ =~= old(ctx).ops@ + dops.take(2));
                    }
                }
                return Err(e);
            },
        }
        let ghost p2 = ctx.ops@;
        proof {
            assert(dops.take(2) =~= dops.take(1) + seq![TermOp::ClearLine]);
            assert(p2 =~= old(ctx).ops@ + dops.take(2));
        }
        match term_set_fg_red(ctx) {
            Ok(()) => (),
            Err(e) => {
                proof {
                    assert(dops.take(3) =~= dops.take(2) + seq![TermOp::SetFgRed]);
                    if ctx.ops@ == p2 {
                        assert(ctx.ops@ =~= old(ctx).ops@ + dops.take(2));
                    } else {
                        assert(ctx.ops@ =~= old(ctx).ops@ + dops.take(3));
                    }
                }
                return Err(e);
            },
        }
        let ghost p3 = ctx.ops@;
        proof {
            assert(dops.take(3) =~= dops.take(2) + seq![TermOp::SetFgRed]);
            assert(p3 =~= old(ctx).ops@ + dops.take(3));
        }
        match term_print(ctx, self.print_text.as_str()) {
            Ok(()) => (),
            Err(e) => {
                proof {
                    assert(dops.take(4) =~= dops.take(3) + seq![TermOp::Print(self.print_text@)]);
                    if ctx.ops@ == p3 {
                        assert(ctx.ops@ =~= old(ctx).ops@ + dops.take(3));
                    } else {
                        assert(ctx.ops@ =~= old(ctx).ops@ + dops.take(4));
                    }
                }
                return Err(e);
            },
        }
        let ghost p4 = ctx.ops@;
        proof {
            assert(dops.take(4) =~= dops.take(3) + seq![TermOp::Print(self.print_text@)]);
            assert(p4 =~= old(ctx).ops@ + dops.take(4));
        }
        match term_reset_color(ctx) {
            Ok(()) => (),
            Err(e) => {
                proof {
                    assert(dops.take(5) =~= dops.take(4) + seq![TermOp::ResetColor]);
                    if ctx.ops@ == p4 {
                        assert(ctx.ops@ =~= old(ctx).ops@ + dops.take(4));
                    } else {
                        assert(ctx.ops@ =~= old(ctx).ops@ + dops.take(5));
                    }
                }
                return Err(e);
            },
        }
        proof {
            assert(ctx.ops@ =~= old(ctx).ops@ + self.draw_ops());
        }
        Ok(())
    }

    fn update(&mut self) -> (r: UpdateResult) {
        let elapsed = elapsed_secs(&self.start);
        let r = self.tick(elapsed);
        proof {
            assert(tick_rel(*old(self), *self, r, elapsed));
        }
        r
    }

    fn handle_event(&mut self, ctx: EventContext) -> (consumed: bool) {
        false
    }
}

} // verus!

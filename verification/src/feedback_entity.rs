//! The feedback banner: a message that other entities can make visible by a
//! property-mutation event, and that hides itself again after a bounded
//! show duration.

use vstd::prelude::*;
use vstd::string::StringExecFns;
use crate::clock::{elapsed_secs, instant_now};
use crate::controller::{is_nop, EventContext, UpdateResult};
use crate::entity::{Entity, HasProperties, Named, Visible};
use crate::input::InputEvent;
use crate::properties::{spec_visible, PropertyMap};
use crate::terminal::{
    cap_coord, spec_cap_coord, term_clear_line, term_move_to, term_print, term_reset_color,
    term_set_fg_red, DrawContext, TermError, TermOp,
};

verus! {

/// The feedback banner's state: its message, how long it stays visible, when
/// it was last shown, and its property map with the visibility key.
pub struct FeedbackEntity {
    /// The entity's own name.
    pub id: String,
    /// The message painted while visible.
    pub message: String,
    /// The moment the banner last became visible, if it is showing.
    pub last_shown: Option<std::time::Instant>,
    /// How many whole seconds the banner stays visible.
    pub max_show_secs: u64,
    /// The banner's properties, including the visibility key.
    pub properties: PropertyMap,
    /// The row the banner is drawn on.
    pub row: u16,
}

/// Everything about the banner that an update may not change.
pub open spec fn same_banner_config(pre: FeedbackEntity, post: FeedbackEntity) -> bool {
    &&& post.id == pre.id
    &&& post.message == pre.message
    &&& post.max_show_secs == pre.max_show_secs
    &&& post.row == pre.row
}

/// How one update step may change the banner: while visible it either starts
/// or keeps its show clock, and once its show duration has passed it hides
/// itself; while hidden it does nothing. Whether the duration has passed
/// depends on the wall clock, so both outcomes are admitted.
pub open spec fn feedback_update_rel(
    pre: FeedbackEntity,
    post: FeedbackEntity,
    r: UpdateResult,
) -> bool {
    &&& is_nop(r)
    &&& same_banner_config(pre, post)
    &&& if spec_visible(pre.properties@) {
        ||| {
            &&& post.properties@ == pre.properties@.insert("visible"@, "false"@)
            &&& post.last_shown is None
        }
        ||| {
            &&& post.properties@ == pre.properties@
            &&& if pre.last_shown is None {
                post.last_shown is Some
            } else {
                post.last_shown == pre.last_shown
            }
        }
    } else {
        post == pre
    }
}

impl FeedbackEntity {
    /// A banner named after `id`, showing `message` for at most
    /// `max_show_secs` seconds at a time, drawn on `row`. It starts visible.
    pub fn new(id: &str, message: &str, max_show_secs: u64, row: u16) -> (r: FeedbackEntity)
        ensures
            r.id@ == "FeedbackEntity-"@ + id@,
            r.message@ == message@,
            r.last_shown is None,
            r.max_show_secs == max_show_secs,
            r.properties@ == Map::<Seq<char>, Seq<char>>::empty().insert("visible"@, "true"@),
            r.row == row,
    {
        let mut name = "FeedbackEntity-".to_owned();
        name.append(id);
        let mut properties = PropertyMap::new();
        properties.set_property("visible", "true");
        FeedbackEntity {
            id: name,
            message: message.to_owned(),
            last_shown: None,
            max_show_secs,
            properties,
            row,
        }
    }

    /// One update step, given whether the banner's show duration has passed:
    /// a visible, timed-out banner hides itself and forgets its show clock;
    /// anything else is left as it is.
    pub fn apply_tick(&mut self, timed_out: bool) -> (r: UpdateResult)
        ensures
            is_nop(r),
            same_banner_config(*old(self), *final(self)),
            if spec_visible(old(self).properties@) && timed_out {
                &&& final(self).properties@ == old(self).properties@.insert("visible"@, "false"@)
                &&& final(self).last_shown is None
            } else {
                *final(self) == *old(self)
            },
    {
        if self.is_visible() && timed_out {
            self.set_visible(false);
            self.last_shown = None;
        }
        UpdateResult::nop()
    }
}

impl Named for FeedbackEntity {
    open spec fn spec_name(&self) -> Seq<char> {
        self.id@
    }

    fn get_name(&self) -> (r: &str) {
        self.id.as_str()
    }
}

impl HasProperties for FeedbackEntity {
    open spec fn props(&self) -> Map<Seq<char>, Seq<char>> {
        self.properties@
    }

    open spec fn sets_prop(&self, post: Self, k: Seq<char>, v: Seq<char>) -> bool {
        &&& post.id == self.id
        &&& post.message == self.message
        &&& post.last_shown == self.last_shown
        &&& post.max_show_secs == self.max_show_secs
        &&& post.row == self.row
        &&& post.properties@ == self.properties@.insert(k, v)
    }

    proof fn sets_prop_law(&self, post: Self, k: Seq<char>, v: Seq<char>) {
    }

    fn get_property(&self, key: &str) -> (r: Option<&str>) {
        self.properties.get_property(key)
    }

    fn set_property(&mut self, key: &str, value: &str) -> (r: bool) {
        self.properties.set_property(key, value)
    }
}

impl Visible for FeedbackEntity {
    fn is_visible(&self) -> (r: bool) {
        match self.get_property("visible") {
            Some(v) => crate::textfmt::str_eq(v, "true"),
            None => true,
        }
    }

    fn set_visible(&mut self, visible: bool) {
        if visible {
            self.set_property("visible", "true");
        } else {
            self.set_property("visible", "false");
        }
    }
}

impl Entity for FeedbackEntity {
    open spec fn draw_ops(&self) -> Seq<TermOp> {
        if spec_visible(self.properties@) {
            seq![
                TermOp::MoveTo(0, spec_cap_coord(self.row as nat)),
                TermOp::ClearLine,
                TermOp::MoveTo(0, spec_cap_coord(self.row as nat)),
                TermOp::SetFgRed,
                TermOp::Print(self.message@),
                TermOp::ResetColor,
            ]
        } else {
            seq![TermOp::MoveTo(0, spec_cap_coord(self.row as nat)), TermOp::ClearLine]
        }
    }

    open spec fn draw_infallible(&self) -> bool {
        false
    }

    open spec fn update_ens(&self, post: Self, r: UpdateResult) -> bool {
        feedback_update_rel(*self, post, r)
    }

    open spec fn handle_ens(&self, post: Self, ev: InputEvent, consumed: bool) -> bool {
        post == *self && !consumed
    }

    fn draw(&self, ctx: &mut DrawContext) -> (r: Result<(), TermError>) {
        let ghost dops = self.draw_ops();
        let row = cap_coord(self.row);
        let ghost p0 = ctx.ops@;
        match term_move_to(ctx, 0, row) {
            Ok(()) => (),
            Err(e) => {
                proof {
                    assert(dops.take(0) =~= Seq::<TermOp>::empty());
                    assert(dops.take(1) =~= seq![
                        TermOp::MoveTo(0, spec_cap_coord(self.row as nat)),
                    ]);
                    if ctx.ops@ == p0 {
                        assert(ctx.ops@ =~= old(ctx).ops@ + dops.take(0));
                    } else {
                        assert(ctx.ops@ =~= old(ctx).ops@ + dops.take(1));
                    }
                }
                return Err(e);
            },
        }
        let ghost p1 = ctx.ops@;
        proof {
            assert(dops.take(1) =~= seq![TermOp::MoveTo(0, spec_cap_coord(self.row as nat))]);
            assert(p1 =~= old(ctx).ops@ + dops.take(1));
        }
        match term_clear_line(ctx) {
            Ok(()) => (),
            Err(e) => {
                proof {
                    assert(dops.take(2) =~= dops.take(1) + seq![TermOp::ClearLine]);
                    if ctx.ops@ == p1 {
                        assert(ctx.ops@ =~= old(ctx).ops@ + dops.take(1));
                    } else {
                        assert(ctx.ops@ =~= old(ctx).ops@ + dops.take(2));
                    }
                }
                return Err(e);
            },
        }
        let ghost p2 = ctx.ops@;
        proof {
            assert(dops.take(2) =~= dops.take(1) + seq![TermOp::ClearLine]);
            assert(p2 =~= old(ctx).ops@ + dops.take(2));
        }
        if !self.is_visible() {
            proof {
                assert(ctx.ops@ =~= old(ctx).ops@ + self.draw_ops());
            }
            return Ok(());
        }
        match term_move_to(ctx, 0, row) {
            Ok(()) => (),
            Err(e) => {
                proof {
                    assert(dops.take(3) =~= dops.take(2) + seq![
                        TermOp::MoveTo(0, spec_cap_coord(self.row as nat)),
                    ]);
                    if ctx.ops@ == p2 {
                        assert(ctx.ops@ =~= old(ctx).ops@ + dops.take(2));
                    } else {
                        assert(ctx.ops@ =~= old(ctx).ops@ + dops.take(3));
                    }
                }
                return Err(e);
            },
        }
        let ghost p3 = ctx.ops@;
        proof {
            assert(dops.take(3) =~= dops.take(2) + seq![
                TermOp::MoveTo(0, spec_cap_coord(self.row as nat)),
            ]);
            assert(p3 =~= old(ctx).ops@ + dops.take(3));
        }
        match term_set_fg_red(ctx) {
            Ok(()) => (),
            Err(e) => {
                proof {
                    assert(dops.take(4) =~= dops.take(3) + seq![TermOp::SetFgRed]);
                    if ctx.ops@ == p3 {
                        assert(ctx.ops@ =~= old(ctx).ops@ + dops.take(3));
                    } else {
                        assert(ctx.ops@ =~= old(ctx).ops@ + dops.take(4));
                    }
                }
                return Err(e);
            },
        }
        let ghost p4 = ctx.ops@;
        proof {
            assert(dops.take(4) =~= dops.take(3) + seq![TermOp::SetFgRed]);
            assert(p4 =~= old(ctx).ops@ + dops.take(4));
        }
        match term_print(ctx, self.message.as_str()) {
            Ok(()) => (),
            Err(e) => {
                proof {
                    assert(dops.take(5) =~= dops.take(4) + seq![TermOp::Print(self.message@)]);
                    if ctx.ops@ == p4 {
                        assert(ctx.ops@ =~= old(ctx).ops@ + dops.take(4));
                    } else {
                        assert(ctx.ops@ =~= old(ctx).ops@ + dops.take(5));
                    }
                }
                return Err(e);
            },
        }
        let ghost p5 = ctx.ops@;
        proof {
            assert(dops.take(5) =~= dops.take(4) + seq![TermOp::Print(self.message@)]);
            assert(p5 =~= old(ctx).ops@ + dops.take(5));
        }
        match term_reset_color(ctx) {
            Ok(()) => (),
            Err(e) => {
                proof {
                    assert(dops.take(6) =~= dops.take(5) + seq![TermOp::ResetColor]);
                    if ctx.ops@ == p5 {
                        assert(ctx.ops@ =~= old(ctx).ops@ + dops.take(5));
                    } else {
                        assert(ctx.ops@ =~= old(ctx).ops@ + dops.take(6));
                    }
                }
                return Err(e);
            },
        }
        proof {
            assert(ctx.ops@ =~= old(ctx).ops@ + self.draw_ops());
        }
        Ok(())
    }

    fn update(&mut self) -> (r: UpdateResult) {
        if self.is_visible() && self.last_shown.is_none() {
            self.last_shown = Some(instant_now());
        }
        let timed_out = match &self.last_shown {
            Some(t) => elapsed_secs(t) >= self.max_show_secs,
            None => false,
        };
        self.apply_tick(timed_out)
    }

    fn handle_event(&mut self, ctx: EventContext) -> (consumed: bool) {
        false
    }
}

impl crate::entity::FullEntity for FeedbackEntity {

}

} // verus!

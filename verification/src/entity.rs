//! The entity contract: the capability set every managed object implements.
//! Each capability carries its behaviour as spec members, so that the
//! controller's guarantees are stated once, over any entity.

use vstd::prelude::*;
use crate::controller::{EventContext, UpdateResult};
use crate::input::InputEvent;
use crate::terminal::{cursor_neutral, DrawContext, TermError, TermOp};

verus! {

/// A stable display name, usable as an event-routing target.
pub trait Named {
    /// The characters of the name.
    spec fn spec_name(&self) -> Seq<char>;

    /// The name under which property-mutation events reach this value.
    fn get_name(&self) -> (r: &str)
        ensures
            r@ == self.spec_name(),
    ;
}

/// String-keyed attribute storage with exact set/get semantics.
pub trait HasProperties: Sized {
    /// The abstract property map.
    spec fn props(&self) -> Map<Seq<char>, Seq<char>>;

    /// The exact relation between the value before and after one property
    /// set: the key is rebound and nothing else about the value changes.
    spec fn sets_prop(&self, post: Self, k: Seq<char>, v: Seq<char>) -> bool;

    /// Every implementation's set relation rebinds exactly the given key.
    proof fn sets_prop_law(&self, post: Self, k: Seq<char>, v: Seq<char>)
        requires
            self.sets_prop(post, k, v),
        ensures
            post.props() == self.props().insert(k, v),
    ;

    /// The value bound to `key`, or absent when the key was never set.
    fn get_property(&self, key: &str) -> (r: Option<&str>)
        ensures
            match r {
                Some(v) => self.props().contains_key(key@) && v@ == self.props()[key@],
                None => !self.props().contains_key(key@),
            },
    ;

    /// Binds `key` to `value`; always reports success.
    fn set_property(&mut self, key: &str, value: &str) -> (r: bool)
        ensures
            r,
            old(self).sets_prop(*final(self), key@, value@),
            final(self).props() == old(self).props().insert(key@, value@),
    ;
}

/// The derived boolean visibility convention over a property store: the
/// reserved key "visible" gates drawing, and its absence means visible.
pub trait Visible: HasProperties {
    /// Whether the value should draw itself.
    fn is_visible(&self) -> (r: bool)
        ensures
            r == crate::properties::spec_visible(self.props()),
    ;

    /// Binds the reserved visibility key to "true" or "false".
    fn set_visible(&mut self, visible: bool)
        ensures
            old(self).sets_prop(
                *final(self),
                "visible"@,
                if visible {
                    "true"@
                } else {
                    "false"@
                },
            ),
            final(self).props() == old(self).props().insert(
                "visible"@,
                if visible {
                    "true"@
                } else {
                    "false"@
                },
            ),
    ;
}

/// The unit of composition: anything that can draw itself, advance by one
/// tick, and react to an input event.
pub trait Entity: Sized {
    /// The exact sequence of terminal operations one render pass emits.
    spec fn draw_ops(&self) -> Seq<TermOp>;

    /// Whether a render pass is guaranteed to succeed because it performs no
    /// terminal write at all.
    spec fn draw_infallible(&self) -> bool;

    /// How one update step may change the entity and what result it returns.
    spec fn update_ens(&self, post: Self, r: UpdateResult) -> bool;

    /// How handling one input event may change the entity and whether the
    /// event is consumed.
    spec fn handle_ens(&self, post: Self, ev: InputEvent, consumed: bool) -> bool;

    /// Paints the current state; idempotent and state-preserving. The
    /// operations emitted on success are exactly `draw_ops`, and they never
    /// save or restore the cursor, so the controller alone decides where the
    /// cursor ends up. A failed draw leaves at most a truncated render in
    /// the log: some prefix of `draw_ops`, nothing else.
    fn draw(&self, ctx: &mut DrawContext) -> (r: Result<(), TermError>)
        ensures
            r is Ok ==> final(ctx).ops@ == old(ctx).ops@ + self.draw_ops(),
            r is Err ==> exists|k: int|
                0 <= k <= self.draw_ops().len() && final(ctx).ops@ == old(ctx).ops@ + (
                #[trigger] self.draw_ops().take(k)),
            self.draw_infallible() ==> r is Ok,
            cursor_neutral(self.draw_ops()),
    ;

    /// Advances time-dependent or event-driven internal state by one tick.
    fn update(&mut self) -> (r: UpdateResult)
        ensures
            old(self).update_ens(*final(self), r),
    ;

    /// Offers one external input event; reports whether it was consumed.
    fn handle_event(&mut self, ctx: EventContext) -> (consumed: bool)
        ensures
            old(self).handle_ens(*final(self), ctx.event, consumed),
    ;
}

/// The full capability set the controller manages entities through.
pub trait FullEntity: Entity + Named + HasProperties {

}

} // verus!

//! The decorating wrapper: adds a stable name and a property map around any
//! inner entity, and gates the inner entity's rendering on the reserved
//! visibility property. Wrapping is otherwise transparent: updates and input
//! events are delegated unchanged.

use vstd::prelude::*;
use vstd::string::StringExecFns;
use crate::controller::{EventContext, UpdateResult};
use crate::entity::{Entity, FullEntity, HasProperties, Named, Visible};
use crate::input::InputEvent;
use crate::properties::{spec_visible, PropertyMap};
use crate::terminal::{DrawContext, TermError, TermOp};

verus! {

/// An entity adapter that adds naming and property capabilities to an inner
/// entity without that entity needing to implement them itself.
pub struct BaseEntity<T: Entity> {
    /// The synthesized display name, stable for the process lifetime.
    pub name: String,
    /// The wrapper's own property map; its visibility key gates rendering.
    pub properties: PropertyMap,
    /// The wrapped entity.
    pub delegate_entity: T,
}

impl<T: Entity + Named> BaseEntity<T> {
    /// Wraps `delegate_entity`, synthesizing the display name from a fixed
    /// namespace prefix and the inner entity's own name.
    pub fn new(delegate_entity: T) -> (r: BaseEntity<T>)
        ensures
            r.name@ == "BaseEntity-"@ + delegate_entity.spec_name(),
            r.properties@ == Map::<Seq<char>, Seq<char>>::empty(),
            r.delegate_entity == delegate_entity,
    {
        let mut name = "BaseEntity-".to_owned();
        name.append(delegate_entity.get_name());
        BaseEntity { name, properties: PropertyMap::new(), delegate_entity }
    }
}

impl<T: Entity> Named for BaseEntity<T> {
    open spec fn spec_name(&self) -> Seq<char> {
        self.name@
    }

    fn get_name(&self) -> (r: &str) {
        self.name.as_str()
    }
}

impl<T: Entity> HasProperties for BaseEntity<T> {
    open spec fn props(&self) -> Map<Seq<char>, Seq<char>> {
        self.properties@
    }

    open spec fn sets_prop(&self, post: Self, k: Seq<char>, v: Seq<char>) -> bool {
        &&& post.name == self.name
        &&& post.delegate_entity == self.delegate_entity
        &&& post.properties@ == self.properties@.insert(k, v)
    }

    proof fn sets_prop_law(&self, post: Self, k: Seq<char>, v: Seq<char>) {
    }

    fn get_property(&self, key: &str) -> (r: Option<&str>) {
        self.properties.get_property(key)
    }

    fn set_property(&mut self, key: &str, value: &str) -> (r: bool) {
        self.properties.set_property(key, value)
    }
}

impl<T: Entity> Visible for BaseEntity<T> {
    fn is_visible(&self) -> (r: bool) {
        match self.get_property("visible") {
            Some(v) => crate::textfmt::str_eq(v, "true"),
            None => true,
        }
    }

    fn set_visible(&mut self, visible: bool) {
        if visible {
            self.set_property("visible", "true");
        } else {
            self.set_property("visible", "false");
        }
    }
}

impl<T: Entity> Entity for BaseEntity<T> {
    open spec fn draw_ops(&self) -> Seq<TermOp> {
        if spec_visible(self.properties@) {
            self.delegate_entity.draw_ops()
        } else {
            Seq::empty()
        }
    }

    open spec fn draw_infallible(&self) -> bool {
        if spec_visible(self.properties@) {
            self.delegate_entity.draw_infallible()
        } else {
            true
        }
    }

    open spec fn update_ens(&self, post: Self, r: UpdateResult) -> bool {
        &&& post.name == self.name
        &&& post.properties == self.properties
        &&& self.delegate_entity.update_ens(post.delegate_entity, r)
    }

    open spec fn handle_ens(&self, post: Self, ev: InputEvent, consumed: bool) -> bool {
        &&& post.name == self.name
        &&& post.properties == self.properties
        &&& self.delegate_entity.handle_ens(post.delegate_entity, ev, consumed)
    }

    fn draw(&self, ctx: &mut DrawContext) -> (r: Result<(), TermError>) {
        if self.is_visible() {
            let r = self.delegate_entity.draw(ctx);
            proof {
                if r is Err {
                    let k = choose|k: int|
                        0 <= k <= self.delegate_entity.draw_ops().len() && ctx.ops@ == old(
                            ctx,
                        ).ops@ + (#[trigger] self.delegate_entity.draw_ops().take(k));
                    assert(self.draw_ops() == self.delegate_entity.draw_ops());
                    assert(ctx.ops@ == old(ctx).ops@ + self.draw_ops().take(k));
                }
            }
            r
        } else {
            proof {
                assert(ctx.ops@ =~= old(ctx).ops@ + self.draw_ops());
            }
            Ok(())
        }
    }

    fn update(&mut self) -> (r: UpdateResult) {
        self.delegate_entity.update()
    }

    fn handle_event(&mut self, ctx: EventContext) -> (consumed: bool) {
        self.delegate_entity.handle_event(ctx)
    }
}

impl<T: Entity> FullEntity for BaseEntity<T> {

}

/// Law: for any wrapped entity whose visibility property is set to "false",
/// a render pass emits nothing (and so always succeeds); setting the
/// property back to "true" restores exactly the inner entity's rendering.
pub proof fn lemma_visibility_gates_drawing<T: Entity>(e: BaseEntity<T>)
    ensures
        e.properties@.contains_key("visible"@) && e.properties@["visible"@] == "false"@
            ==> e.draw_ops() == Seq::<TermOp>::empty() && e.draw_infallible(),
        spec_visible(e.properties@) ==> e.draw_ops() == e.delegate_entity.draw_ops(),
{
    reveal_strlit("true");
    reveal_strlit("false");
    assert("false"@.len() == 5);
    assert("true"@.len() == 4);
    assert("false"@ != "true"@);
}

} // verus!

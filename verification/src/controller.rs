//! The controller: the per-tick update/draw cycle with cursor-position
//! preservation, the inter-entity property-mutation events, and the
//! polling-based dispatch loop with early-termination semantics.

use vstd::prelude::*;
use crate::base_entity::BaseEntity;
use crate::count_down_entity::CountDownEntity;
use crate::entity::{Entity, FullEntity, HasProperties, Named};
use crate::feedback_entity::FeedbackEntity;
use crate::password_prompt_entity::PasswordPromptEntity;
use crate::static_text_entity::StaticTextEntity;
use crate::input::{input_poll, input_read, InputEvent};
use crate::terminal::{
    cleanup, cursor_neutral, term_clear_all, term_enable_raw, term_move_to, term_restore_position,
    term_save_position, DrawContext, TermError, TermOp,
};
use crate::textfmt::str_eq;

verus! {

/// A one-shot instruction to set a property on the entity with the given
/// name: the system's only inter-entity communication channel. An event
/// whose target name matches no entity is silently dropped.
pub struct ControlEvent {
    /// The name of the entity addressed.
    pub name: String,
    /// The property key to set.
    pub property_key: String,
    /// The property value to bind.
    pub property_value: String,
}

/// The value produced by one update call: continuation control and the
/// outgoing property mutations. Constructed fresh on every update and
/// consumed immediately by the controller.
pub struct UpdateResult {
    /// End the loop immediately after this result is observed.
    pub kill: bool,
    /// Keep the terminal cursor where this entity's draw left it.
    pub focused: bool,
    /// Property mutations to apply after this pass.
    pub events: Vec<ControlEvent>,
}

/// An update result that changes nothing and asks for nothing.
pub open spec fn is_nop(r: UpdateResult) -> bool {
    &&& !r.kill
    &&& !r.focused
    &&& r.events@.len() == 0
}

impl UpdateResult {
    /// An update result with the given parts.
    pub fn new(kill: bool, focused: bool, events: Vec<ControlEvent>) -> (r: UpdateResult)
        ensures
            r.kill == kill,
            r.focused == focused,
            r.events == events,
    {
        UpdateResult { kill, focused, events }
    }

    /// A result that ends the loop.
    pub fn kill() -> (r: UpdateResult)
        ensures
            r.kill,
            !r.focused,
            r.events@.len() == 0,
    {
        UpdateResult { kill: true, focused: false, events: Vec::new() }
    }

    /// A result that keeps the cursor where this entity's draw left it.
    pub fn focus() -> (r: UpdateResult)
        ensures
            !r.kill,
            r.focused,
            r.events@.len() == 0,
    {
        UpdateResult { kill: false, focused: true, events: Vec::new() }
    }

    /// A result that changes nothing and asks for nothing.
    pub fn nop() -> (r: UpdateResult)
        ensures
            is_nop(r),
    {
        UpdateResult { kill: false, focused: false, events: Vec::new() }
    }
}

/// The context handed to an entity with one input event.
pub struct EventContext {
    /// The event offered.
    pub event: InputEvent,
}

/// One managed entity: the controller holds a homogeneous ordered sequence
/// of values all satisfying the entity capability set, one variant per
/// concrete entity kind it manages.
pub enum ControllerEntity {
    /// Wrapped static text.
    Title(BaseEntity<StaticTextEntity>),
    /// A wrapped countdown.
    Countdown(BaseEntity<CountDownEntity>),
    /// A wrapped password prompt.
    Password(BaseEntity<PasswordPromptEntity>),
    /// A feedback banner, which carries its own name and properties.
    Feedback(FeedbackEntity),
}

impl Named for ControllerEntity {
    open spec fn spec_name(&self) -> Seq<char> {
        match *self {
            ControllerEntity::Title(e) => e.spec_name(),
            ControllerEntity::Countdown(e) => e.spec_name(),
            ControllerEntity::Password(e) => e.spec_name(),
            ControllerEntity::Feedback(e) => e.spec_name(),
        }
    }

    fn get_name(&self) -> (r: &str) {
        match self {
            ControllerEntity::Title(e) => e.get_name(),
            ControllerEntity::Countdown(e) => e.get_name(),
            ControllerEntity::Password(e) => e.get_name(),
            ControllerEntity::Feedback(e) => e.get_name(),
        }
    }
}

impl HasProperties for ControllerEntity {
    open spec fn props(&self) -> Map<Seq<char>, Seq<char>> {
        match *self {
            ControllerEntity::Title(e) => e.props(),
            ControllerEntity::Countdown(e) => e.props(),
            ControllerEntity::Password(e) => e.props(),
            ControllerEntity::Feedback(e) => e.props(),
        }
    }

    open spec fn sets_prop(&self, post: Self, k: Seq<char>, v: Seq<char>) -> bool {
        match *self {
            ControllerEntity::Title(e) => post matches ControllerEntity::Title(p)
                && e.sets_prop(p, k, v),
            ControllerEntity::Countdown(e) => post matches ControllerEntity::Countdown(p)
                && e.sets_prop(p, k, v),
            ControllerEntity::Password(e) => post matches ControllerEntity::Password(p)
                && e.sets_prop(p, k, v),
            ControllerEntity::Feedback(e) => post matches ControllerEntity::Feedback(p)
                && e.sets_prop(p, k, v),
        }
    }

    proof fn sets_prop_law(&self, post: Self, k: Seq<char>, v: Seq<char>) {
        match *self {
            ControllerEntity::Title(e) => {
                let p = post->Title_0;
                e.sets_prop_law(p, k, v);
            },
            ControllerEntity::Countdown(e) => {
                let p = post->Countdown_0;
                e.sets_prop_law(p, k, v);
            },
            ControllerEntity::Password(e) => {
                let p = post->Password_0;
                e.sets_prop_law(p, k, v);
            },
            ControllerEntity::Feedback(e) => {
                let p = post->Feedback_0;
                e.sets_prop_law(p, k, v);
            },
        }
    }

    fn get_property(&self, key: &str) -> (r: Option<&str>) {
        match self {
            ControllerEntity::Title(e) => e.get_property(key),
            ControllerEntity::Countdown(e) => e.get_property(key),
            ControllerEntity::Password(e) => e.get_property(key),
            ControllerEntity::Feedback(e) => e.get_property(key),
        }
    }

    fn set_property(&mut self, key: &str, value: &str) -> (r: bool) {
        match self {
            ControllerEntity::Title(e) => e.set_property(key, value),
            ControllerEntity::Countdown(e) => e.set_property(key, value),
            ControllerEntity::Password(e) => e.set_property(key, value),
            ControllerEntity::Feedback(e) => e.set_property(key, value),
        }
    }
}

impl Entity for ControllerEntity {
    open spec fn draw_ops(&self) -> Seq<TermOp> {
        match *self {
            ControllerEntity::Title(e) => e.draw_ops(),
            ControllerEntity::Countdown(e) => e.draw_ops(),
            ControllerEntity::Password(e) => e.draw_ops(),
            ControllerEntity::Feedback(e) => e.draw_ops(),
        }
    }

    open spec fn draw_infallible(&self) -> bool {
        match *self {
            ControllerEntity::Title(e) => e.draw_infallible(),
            ControllerEntity::Countdown(e) => e.draw_infallible(),
            ControllerEntity::Password(e) => e.draw_infallible(),
            ControllerEntity::Feedback(e) => e.draw_infallible(),
        }
    }

    open spec fn update_ens(&self, post: Self, r: UpdateResult) -> bool {
        match *self {
            ControllerEntity::Title(e) => post matches ControllerEntity::Title(p)
                && e.update_ens(p, r),
            ControllerEntity::Countdown(e) => post matches ControllerEntity::Countdown(p)
                && e.update_ens(p, r),
            ControllerEntity::Password(e) => post matches ControllerEntity::Password(p)
                && e.update_ens(p, r),
            ControllerEntity::Feedback(e) => post matches ControllerEntity::Feedback(p)
                && e.update_ens(p, r),
        }
    }

    open spec fn handle_ens(&self, post: Self, ev: InputEvent, consumed: bool) -> bool {
        match *self {
            ControllerEntity::Title(e) => post matches ControllerEntity::Title(p)
                && e.handle_ens(p, ev, consumed),
            ControllerEntity::Countdown(e) => post matches ControllerEntity::Countdown(p)
                && e.handle_ens(p, ev, consumed),
            ControllerEntity::Password(e) => post matches ControllerEntity::Password(p)
                && e.handle_ens(p, ev, consumed),
            ControllerEntity::Feedback(e) => post matches ControllerEntity::Feedback(p)
                && e.handle_ens(p, ev, consumed),
        }
    }

    fn draw(&self, ctx: &mut DrawContext) -> (r: Result<(), TermError>) {
        match self {
            ControllerEntity::Title(e) => {
                let r = e.draw(ctx);
                proof {
                    if r is Err {
                        let k = choose|k: int|
                            0 <= k <= e.draw_ops().len() && ctx.ops@ == old(ctx).ops@ + (
                            #[trigger] e.draw_ops().take(k));
                        assert(ctx.ops@ == old(ctx).ops@ + self.draw_ops().take(k));
                    }
                }
                r
            },
            ControllerEntity::Countdown(e) => {
                let r = e.draw(ctx);
                proof {
                    if r is Err {
                        let k = choose|k: int|
                            0 <= k <= e.draw_ops().len() && ctx.ops@ == old(ctx).ops@ + (
                            #[trigger] e.draw_ops().take(k));
                        assert(ctx.ops@ == old(ctx).ops@ + self.draw_ops().take(k));
                    }
                }
                r
            },
            ControllerEntity::Password(e) => {
                let r = e.draw(ctx);
                proof {
                    if r is Err {
                        let k = choose|k: int|
                            0 <= k <= e.draw_ops().len() && ctx.ops@ == old(ctx).ops@ + (
                            #[trigger] e.draw_ops().take(k));
                        assert(ctx.ops@ == old(ctx).ops@ + self.draw_ops().take(k));
                    }
                }
                r
            },
            ControllerEntity::Feedback(e) => {
                let r = e.draw(ctx);
                proof {
                    if r is Err {
                        let k = choose|k: int|
                            0 <= k <= e.draw_ops().len() && ctx.ops@ == old(ctx).ops@ + (
                            #[trigger] e.draw_ops().take(k));
                        assert(ctx.ops@ == old(ctx).ops@ + self.draw_ops().take(k));
                    }
                }
                r
            },
        }
    }

    fn update(&mut self) -> (r: UpdateResult) {
        match self {
            ControllerEntity::Title(e) => e.update(),
            ControllerEntity::Countdown(e) => e.update(),
            ControllerEntity::Password(e) => e.update(),
            ControllerEntity::Feedback(e) => e.update(),
        }
    }

    fn handle_event(&mut self, ctx: EventContext) -> (consumed: bool) {
        match self {
            ControllerEntity::Title(e) => e.handle_event(ctx),
            ControllerEntity::Countdown(e) => e.handle_event(ctx),
            ControllerEntity::Password(e) => e.handle_event(ctx),
            ControllerEntity::Feedback(e) => e.handle_event(ctx),
        }
    }
}

impl FullEntity for ControllerEntity {

}

/// The index of the first entity with the given name, or -1 when none
/// matches.
pub open spec fn first_match(es: Seq<ControllerEntity>, name: Seq<char>) -> int
    decreases es.len(),
{
    if es.len() == 0 {
        -1
    } else if es[0].spec_name() == name {
        0
    } else {
        let r = first_match(es.drop_first(), name);
        if r == -1 {
            -1
        } else {
            r + 1
        }
    }
}

/// A scan that found a match at `i`, past only mismatches, found the first
/// match.
proof fn lemma_first_match_at(es: Seq<ControllerEntity>, name: Seq<char>, i: int)
    requires
        0 <= i < es.len(),
        forall|j: int| 0 <= j < i ==> (#[trigger] es[j]).spec_name() != name,
        es[i].spec_name() == name,
    ensures
        first_match(es, name) == i,
    decreases i,
{
    if i == 0 {
    } else {
        assert(forall|j: int|
            0 <= j < es.drop_first().len() ==> #[trigger] es.drop_first()[j] == es[j + 1]);
        lemma_first_match_at(es.drop_first(), name, i - 1);
    }
}

/// A scan that found no match found nothing to route to.
proof fn lemma_first_match_none(es: Seq<ControllerEntity>, name: Seq<char>)
    requires
        forall|j: int| 0 <= j < es.len() ==> (#[trigger] es[j]).spec_name() != name,
    ensures
        first_match(es, name) == -1,
    decreases es.len(),
{
    if es.len() > 0 {
        assert(forall|j: int|
            0 <= j < es.drop_first().len() ==> #[trigger] es.drop_first()[j] == es[j + 1]);
        lemma_first_match_none(es.drop_first(), name);
    }
}

/// Some sequence of per-entity update results accounts for both the pass
/// and its draw log: see `tick_events_rel` and `pass_draw_ops`.
pub open spec fn tick_pass_log_ok(
    pre: Seq<ControllerEntity>,
    post: Seq<ControllerEntity>,
    killed: Option<usize>,
    events: Seq<ControlEvent>,
    ops_pre: Seq<TermOp>,
    ops_post: Seq<TermOp>,
) -> bool {
    exists|results: Seq<UpdateResult>|
        (#[trigger] tick_events_rel(pre, post, results, killed, events)) && ops_post == ops_pre
            + pass_draw_ops(post, results, 0)
}

/// How one entity may change during the tick phase: one update step ran,
/// whose result's termination flag is `killed`.
pub open spec fn tick_step_rel(pre: ControllerEntity, post: ControllerEntity, killed: bool) -> bool {
    exists|res: UpdateResult| (#[trigger] pre.update_ens(post, res)) && res.kill == killed
}

/// The event batches of a sequence of update results, concatenated in order.
pub open spec fn emitted_events(results: Seq<UpdateResult>) -> Seq<ControlEvent> {
    results.map(|_i: int, res: UpdateResult| res.events@).flatten()
}

/// Collecting one more result appends exactly its event batch.
proof fn lemma_emitted_events_push(results: Seq<UpdateResult>, r: UpdateResult)
    ensures
        emitted_events(results.push(r)) == emitted_events(results) + r.events@,
{
    let f = |_i: int, res: UpdateResult| res.events@;
    assert(results.push(r).map(f) =~= results.map(f).push(r.events@));
    results.map(f).lemma_flatten_push(r.events@);
    assert(emitted_events(results.push(r)) =~= emitted_events(results) + r.events@);
}

/// The per-entity update results one tick phase produced: each updated
/// entity's result stands in order, and the collected events are exactly the
/// event batches of the results before the stopping point, in order. (The
/// terminator's own events are discarded: the loop ends before they could be
/// applied.)
pub open spec fn tick_events_rel(
    pre: Seq<ControllerEntity>,
    post: Seq<ControllerEntity>,
    results: Seq<UpdateResult>,
    killed: Option<usize>,
    events: Seq<ControlEvent>,
) -> bool {
    let routed: int = match killed {
        Some(k) => k as int,
        None => pre.len() as int,
    };
    &&& results.len() == (match killed {
        Some(k) => k as int + 1,
        None => pre.len() as int,
    })
    &&& forall|j: int|
        0 <= j < results.len() ==> pre[j].update_ens(post[j], #[trigger] results[j])
    &&& events == emitted_events(results.take(routed))
}

/// Some sequence of per-entity update results accounts for the pass: see
/// `tick_events_rel`.
pub open spec fn tick_pass_events_ok(
    pre: Seq<ControllerEntity>,
    post: Seq<ControllerEntity>,
    killed: Option<usize>,
    events: Seq<ControlEvent>,
) -> bool {
    exists|results: Seq<UpdateResult>| #[trigger] tick_events_rel(pre, post, results, killed, events)
}

/// How one entity may change during the input phase: it is offered the
/// event, and exactly when it consumes the event it is re-updated, whose
/// result's termination flag is `killed`.
pub open spec fn input_step_rel(
    pre: ControllerEntity,
    post: ControllerEntity,
    ev: InputEvent,
    killed: bool,
) -> bool {
    exists|mid: ControllerEntity, consumed: bool|
        {
            &&& #[trigger] pre.handle_ens(mid, ev, consumed)
            &&& if consumed {
                exists|res: UpdateResult| (#[trigger] mid.update_ens(post, res)) && res.kill
                    == killed
            } else {
                post == mid && !killed
            }
        }
}

/// How one entity may change during the input phase, together with the
/// events it emitted and the draw output it contributed: an entity that does
/// not consume the event emits and draws nothing; one that consumes it is
/// re-updated, emits that update's batch, and is re-drawn under the usual
/// cursor discipline.
pub open spec fn input_step_events_rel(
    pre: ControllerEntity,
    post: ControllerEntity,
    ev: InputEvent,
    killed: bool,
    emitted: Seq<ControlEvent>,
    drawn: Seq<TermOp>,
) -> bool {
    exists|mid: ControllerEntity, consumed: bool|
        {
            &&& #[trigger] pre.handle_ens(mid, ev, consumed)
            &&& if consumed {
                exists|res: UpdateResult|
                    {
                        &&& #[trigger] mid.update_ens(post, res)
                        &&& res.kill == killed
                        &&& emitted == res.events@
                        &&& drawn == wrapped_draw(post, res.focused)
                    }
            } else {
                &&& post == mid
                &&& !killed
                &&& emitted == Seq::<ControlEvent>::empty()
                &&& drawn == Seq::<TermOp>::empty()
            }
        }
}

/// Some sequences of per-entity event batches and draw outputs account for
/// the input pass: the entities before the stopping point were each offered
/// the event, the collected events are exactly their batches in order, and
/// the draw log grew by exactly their draw outputs in order, closed by the
/// terminator's own draw when there is one. (A terminating re-update's own
/// events are discarded: the loop ends before they could be applied — but
/// its render completes.)
pub open spec fn input_pass_accounting(
    pre: Seq<ControllerEntity>,
    post: Seq<ControllerEntity>,
    ev: InputEvent,
    killed: Option<usize>,
    events: Seq<ControlEvent>,
    ops_pre: Seq<TermOp>,
    ops_post: Seq<TermOp>,
    batches: Seq<Seq<ControlEvent>>,
    draws: Seq<Seq<TermOp>>,
) -> bool {
    let processed: int = match killed {
        Some(k) => k as int,
        None => pre.len() as int,
    };
    &&& batches.len() == processed
    &&& draws.len() == processed
    &&& (forall|j: int|
        #![trigger batches[j]]
        0 <= j < processed ==> input_step_events_rel(
            pre[j],
            post[j],
            ev,
            false,
            batches[j],
            draws[j],
        ))
    &&& events == batches.flatten()
    &&& (match killed {
        Some(k) => exists|em: Seq<ControlEvent>, dr: Seq<TermOp>|
            (#[trigger] input_step_events_rel(pre[k as int], post[k as int], ev, true, em, dr))
                && ops_post == ops_pre + draws.flatten() + dr,
        None => ops_post == ops_pre + draws.flatten(),
    })
}

/// Some per-entity accounting exists for the input pass.
pub open spec fn input_pass_events_ok(
    pre: Seq<ControllerEntity>,
    post: Seq<ControllerEntity>,
    ev: InputEvent,
    killed: Option<usize>,
    events: Seq<ControlEvent>,
    ops_pre: Seq<TermOp>,
    ops_post: Seq<TermOp>,
) -> bool {
    exists|batches: Seq<Seq<ControlEvent>>, draws: Seq<Seq<TermOp>>|
        #[trigger] input_pass_accounting(
            pre,
            post,
            ev,
            killed,
            events,
            ops_pre,
            ops_post,
            batches,
            draws,
        )
}

/// How one property-mutation event relates the entity collection before and
/// after it is applied: the first entity whose name matches the target gets
/// exactly that property set and nothing else changes; an event addressed to
/// an unregistered name changes nothing.
pub open spec fn route_one_rel(
    pre: Seq<ControllerEntity>,
    post: Seq<ControllerEntity>,
    ev: ControlEvent,
) -> bool {
    let idx = first_match(pre, ev.name@);
    &&& post.len() == pre.len()
    &&& (idx == -1 ==> post == pre)
    &&& (idx >= 0 ==> {
        &&& (forall|j: int| 0 <= j < pre.len() && j != idx ==> post[j] == pre[j])
        &&& pre[idx].sets_prop(post[idx], ev.property_key@, ev.property_value@)
        &&& post[idx].props() == pre[idx].props().insert(ev.property_key@, ev.property_value@)
    })
}

/// How a batch of property-mutation events relates the entity collection
/// before and after the batch is applied: each event routed in order.
pub open spec fn routed_rel(
    pre: Seq<ControllerEntity>,
    post: Seq<ControllerEntity>,
    events: Seq<ControlEvent>,
) -> bool
    decreases events.len(),
{
    if events.len() == 0 {
        post == pre
    } else {
        exists|mid: Seq<ControllerEntity>|
            {
                &&& #[trigger] route_one_rel(pre, mid, events[0])
                &&& routed_rel(mid, post, events.drop_first())
            }
    }
}

/// Routing a batch and then one more event routes the extended batch.
proof fn lemma_routed_rel_snoc(
    a: Seq<ControllerEntity>,
    b: Seq<ControllerEntity>,
    c: Seq<ControllerEntity>,
    events: Seq<ControlEvent>,
    ev: ControlEvent,
)
    requires
        routed_rel(a, b, events),
        route_one_rel(b, c, ev),
    ensures
        routed_rel(a, c, events.push(ev)),
    decreases events.len(),
{
    assert(events.push(ev).len() == events.len() + 1);
    if events.len() == 0 {
        assert(events.push(ev)[0] == ev);
        assert(events.push(ev).drop_first() =~= Seq::<ControlEvent>::empty());
        assert(route_one_rel(a, c, ev));
        assert(routed_rel(c, c, Seq::<ControlEvent>::empty()));
    } else {
        let mid = choose|mid: Seq<ControllerEntity>|
            (#[trigger] route_one_rel(a, mid, events[0])) && routed_rel(
                mid,
                b,
                events.drop_first(),
            );
        lemma_routed_rel_snoc(mid, b, c, events.drop_first(), ev);
        assert(events.push(ev)[0] == events[0]);
        assert(events.push(ev).drop_first() =~= events.drop_first().push(ev));
        assert(route_one_rel(a, mid, events.push(ev)[0]) && routed_rel(
            mid,
            c,
            events.push(ev).drop_first(),
        ));
    }
}

/// One entity's contribution to the draw log: its own draw output, wrapped
/// between a save and a restore unless its update asked for focus.
pub open spec fn wrapped_draw(e: ControllerEntity, focused: bool) -> Seq<TermOp> {
    if focused {
        e.draw_ops()
    } else {
        seq![TermOp::SavePos] + e.draw_ops() + seq![TermOp::RestorePos]
    }
}

/// The draw output of the updated entities from index `i` on: each entity's
/// wrapped draw, in registration order.
pub open spec fn pass_draw_ops(
    post: Seq<ControllerEntity>,
    results: Seq<UpdateResult>,
    i: int,
) -> Seq<TermOp>
    decreases results.len() - i,
{
    if i < 0 || i >= results.len() {
        Seq::empty()
    } else {
        wrapped_draw(post[i], results[i].focused) + pass_draw_ops(post, results, i + 1)
    }
}

/// The pass's draw output depends only on the entities that were updated.
proof fn lemma_pass_draw_ops_agree(
    a: Seq<ControllerEntity>,
    b: Seq<ControllerEntity>,
    results: Seq<UpdateResult>,
    i: int,
)
    requires
        forall|j: int| 0 <= j < results.len() && j >= i ==> a[j] == b[j],
    ensures
        pass_draw_ops(a, results, i) == pass_draw_ops(b, results, i),
    decreases results.len() - i,
{
    if 0 <= i < results.len() {
        lemma_pass_draw_ops_agree(a, b, results, i + 1);
    }
}

/// One more updated entity appends exactly its wrapped draw.
proof fn lemma_pass_draw_ops_snoc(
    post: Seq<ControllerEntity>,
    results: Seq<UpdateResult>,
    r: UpdateResult,
    i: int,
)
    requires
        0 <= i <= results.len(),
        results.len() < post.len(),
    ensures
        pass_draw_ops(post, results.push(r), i) == pass_draw_ops(post, results, i) + wrapped_draw(
            post[results.len() as int],
            r.focused,
        ),
    decreases results.len() - i,
{
    assert(results.push(r).len() == results.len() + 1);
    if i == results.len() {
        assert(results.push(r)[i] == r);
        assert(pass_draw_ops(post, results.push(r), i + 1) =~= Seq::<TermOp>::empty());
        assert(pass_draw_ops(post, results, i) =~= Seq::<TermOp>::empty());
        assert(pass_draw_ops(post, results.push(r), i) =~= pass_draw_ops(post, results, i)
            + wrapped_draw(post[results.len() as int], r.focused));
    } else {
        assert(results.push(r)[i] == results[i]);
        lemma_pass_draw_ops_snoc(post, results, r, i + 1);
        assert(pass_draw_ops(post, results.push(r), i) =~= pass_draw_ops(post, results, i)
            + wrapped_draw(post[results.len() as int], r.focused));
    }
}

/// What the draw log may look like after an update-and-draw step that
/// failed: at most a truncated render stands in the log, wrapped in a save
/// when the entity did not ask for focus, and a restore appears only after
/// the complete render — never after a truncated one.
pub open spec fn failed_step_ops(pre: Seq<TermOp>, post: Seq<TermOp>, draw: Seq<TermOp>) -> bool {
    ||| (exists|k: int| 0 <= k <= draw.len() && post == pre + (#[trigger] draw.take(k)))
    ||| post == pre + seq![TermOp::SavePos]
    ||| (exists|k: int|
        0 <= k <= draw.len() && post == pre + seq![TermOp::SavePos] + (#[trigger] draw.take(k)))
    ||| post == pre + seq![TermOp::SavePos] + draw + seq![TermOp::RestorePos]
}

/// One step the work loop may take on the entity collection: a tick pass, an
/// input pass, or the routing of an event batch.
pub open spec fn loop_step(pre: Seq<ControllerEntity>, post: Seq<ControllerEntity>) -> bool {
    ||| exists|killed: Option<usize>, events: Seq<ControlEvent>|
        #[trigger] tick_pass_events_ok(pre, post, killed, events)
    ||| exists|
        ev: InputEvent,
        killed: Option<usize>,
        events: Seq<ControlEvent>,
        ops_pre: Seq<TermOp>,
        ops_post: Seq<TermOp>,
    |
        #[trigger] input_pass_events_ok(pre, post, ev, killed, events, ops_pre, ops_post)
    ||| exists|events: Seq<ControlEvent>| #[trigger] routed_rel(pre, post, events)
}

/// The entity collection `post` is reachable from `pre` by `n` work-loop
/// steps.
pub open spec fn loop_reachable(
    pre: Seq<ControllerEntity>,
    post: Seq<ControllerEntity>,
    n: nat,
) -> bool
    decreases n,
{
    if n == 0 {
        post == pre
    } else {
        exists|mid: Seq<ControllerEntity>|
            (#[trigger] loop_step(pre, mid)) && loop_reachable(mid, post, (n - 1) as nat)
    }
}

/// A pass that reported a termination: the kind of step that ends the loop.
pub open spec fn killing_pass(pre: Seq<ControllerEntity>, post: Seq<ControllerEntity>) -> bool {
    ||| exists|k: usize, events: Seq<ControlEvent>|
        #[trigger] tick_pass_events_ok(pre, post, Some(k), events)
    ||| exists|
        ev: InputEvent,
        k: usize,
        events: Seq<ControlEvent>,
        ops_pre: Seq<TermOp>,
        ops_post: Seq<TermOp>,
    |
        #[trigger] input_pass_events_ok(pre, post, ev, Some(k), events, ops_pre, ops_post)
}

/// A reachable collection followed by one more step is reachable in one more
/// step.
proof fn lemma_loop_reachable_snoc(
    a: Seq<ControllerEntity>,
    b: Seq<ControllerEntity>,
    c: Seq<ControllerEntity>,
    n: nat,
)
    requires
        loop_reachable(a, b, n),
        loop_step(b, c),
    ensures
        loop_reachable(a, c, n + 1),
    decreases n,
{
    if n == 0 {
        assert(b == a);
        assert(loop_reachable(c, c, 0));
        assert(loop_step(a, c) && loop_reachable(c, c, ((n + 1) - 1) as nat));
    } else {
        let mid = choose|mid: Seq<ControllerEntity>|
            (#[trigger] loop_step(a, mid)) && loop_reachable(mid, b, (n - 1) as nat);
        lemma_loop_reachable_snoc(mid, b, c, (n - 1) as nat);
        assert(loop_step(a, mid) && loop_reachable(mid, c, ((n + 1) - 1) as nat));
    }
}

/// No managed entity's draw ever saves or restores the cursor itself: the
/// controller alone owns that discipline.
pub proof fn lemma_entity_draw_neutral(e: ControllerEntity)
    ensures
        cursor_neutral(e.draw_ops()),
{
    match e {
        ControllerEntity::Title(b) => {
            if crate::properties::spec_visible(b.properties@) {
                crate::static_text_entity::lemma_lines_ops_neutral(
                    b.delegate_entity.lines.deep_view(),
                    b.delegate_entity.row,
                    0,
                );
            }
        },
        ControllerEntity::Countdown(_) => {
        },
        ControllerEntity::Password(_) => {
        },
        ControllerEntity::Feedback(_) => {
        },
    }
}

/// Law (focus semantics): a non-focused entity's draw is wrapped between a
/// save and a restore, and since no entity's own draw saves or restores, the
/// cursor visually returns to wherever it stood before that entity drew. A
/// focused entity's draw operations stand unwrapped in the log, so the
/// cursor stays wherever its own draw put it.
pub proof fn lemma_unfocused_draw_keeps_cursor(s: crate::terminal::CursorModel, e: ControllerEntity)
    ensures
        crate::terminal::apply_ops(
            s,
            seq![TermOp::SavePos] + e.draw_ops() + seq![TermOp::RestorePos],
        ).cur == s.cur,
{
    lemma_entity_draw_neutral(e);
    crate::terminal::lemma_save_restore_preserves_cursor(s, e.draw_ops());
}

/// The controller: owns the ordered entity collection (insertion order is
/// draw, update and dispatch order) and the input-poll interval.
pub struct Controller {
    /// The managed entities, in registration order.
    pub entities: Vec<ControllerEntity>,
    /// How long one poll for input may block, in milliseconds.
    pub poll_interval_ms: u64,
}

impl Controller {
    /// An empty controller with the default poll interval.
    pub fn new() -> (r: Controller)
        ensures
            r.entities@.len() == 0,
            r.poll_interval_ms == 50,
    {
        Controller { entities: Vec::new(), poll_interval_ms: 50 }
    }

    /// Registers an entity; it is updated, drawn and addressed after all
    /// previously registered ones.
    pub fn add_entity(&mut self, entity: ControllerEntity)
        ensures
            final(self).entities@ == old(self).entities@.push(entity),
            final(self).poll_interval_ms == old(self).poll_interval_ms,
    {
        self.entities.push(entity);
    }

    /// The entity at a registration index, for inspection.
    pub fn entity_at(&self, i: usize) -> (r: &ControllerEntity)
        requires
            i < self.entities@.len(),
        ensures
            *r == self.entities@[i as int],
    {
        &self.entities[i]
    }

    /// Applies one property-mutation event: the first entity whose name
    /// matches the target gets exactly that property set and nothing else
    /// changes; an event addressed to an unregistered name changes nothing
    /// and raises no error.
    pub fn route_event(&mut self, event: &ControlEvent)
        ensures
            final(self).poll_interval_ms == old(self).poll_interval_ms,
            final(self).entities@.len() == old(self).entities@.len(),
            ({
                let idx = first_match(old(self).entities@, event.name@);
                &&& idx == -1 ==> final(self).entities@ == old(self).entities@
                &&& idx >= 0 ==> {
                    &&& forall|j: int|
                        0 <= j < old(self).entities@.len() && j != idx
                            ==> final(self).entities@[j] == old(self).entities@[j]
                    &&& old(self).entities@[idx].sets_prop(
                        final(self).entities@[idx],
                        event.property_key@,
                        event.property_value@,
                    )
                    &&& final(self).entities@[idx].props() == old(self).entities@[idx].props().insert(
                        event.property_key@,
                        event.property_value@,
                    )
                }
            }),
            route_one_rel(old(self).entities@, final(self).entities@, *event),
    {
        let n = self.entities.len();
        let mut i: usize = 0;
        while i < n
            invariant
                i <= n,
                n == self.entities@.len(),
                *self == *old(self),
                forall|j: int| 0 <= j < i ==> (#[trigger] self.entities@[j]).spec_name()
                    != event.name@,
            decreases n - i,
        {
            if str_eq(self.entities[i].get_name(), event.name.as_str()) {
                proof {
                    lemma_first_match_at(self.entities@, event.name@, i as int);
                }
                let ent = &mut self.entities[i];
                let ghost pre = *ent;
                ent.set_property(event.property_key.as_str(), event.property_value.as_str());
                proof {
                    pre.sets_prop_law(*ent, event.property_key@, event.property_value@);
                }
                return;
            }
            i += 1;
        }
        proof {
            lemma_first_match_none(self.entities@, event.name@);
            assert(self.entities@ =~= old(self).entities@);
        }
    }

    /// Updates one entity, then draws it, saving and restoring the terminal
    /// cursor around the draw unless the entity asked for focus, so that
    /// only focused entities decide where the cursor ends up. A failure is
    /// propagated unchanged and never retried: the update's state change has
    /// already taken effect, and no restore is issued after a failed draw.
    pub fn update_and_draw_entity(entity: &mut ControllerEntity, context: &mut DrawContext) -> (r:
        Result<UpdateResult, TermError>)
        ensures
            r matches Ok(res) ==> {
                &&& old(entity).update_ens(*final(entity), res)
                &&& res.focused ==> final(context).ops@ == old(context).ops@
                    + final(entity).draw_ops()
                &&& !res.focused ==> final(context).ops@ == old(context).ops@
                    + seq![TermOp::SavePos] + final(entity).draw_ops() + seq![TermOp::RestorePos]
            },
            r is Err ==> exists|res: UpdateResult|
                #[trigger] old(entity).update_ens(*final(entity), res),
            r is Err ==> failed_step_ops(
                old(context).ops@,
                final(context).ops@,
                final(entity).draw_ops(),
            ),
    {
        let result = entity.update();
        let ghost dops = entity.draw_ops();
        let ghost p0 = context.ops@;
        if !result.focused {
            match term_save_position(context) {
                Ok(()) => (),
                Err(e) => {
                    proof {
                        assert(old(entity).update_ens(*entity, result));
                        if context.ops@ == p0 {
                            assert(dops.take(0) =~= Seq::<TermOp>::empty());
                            assert(context.ops@ =~= old(context).ops@ + dops.take(0));
                        }
                    }
                    return Err(e);
                },
            }
        }
        let ghost p1 = context.ops@;
        match entity.draw(context) {
            Ok(()) => (),
            Err(e) => {
                proof {
                    assert(old(entity).update_ens(*entity, result));
                    let k = choose|k: int|
                        0 <= k <= dops.len() && context.ops@ == p1 + (#[trigger] dops.take(k));
                    if result.focused {
                        assert(context.ops@ == old(context).ops@ + dops.take(k));
                    } else {
                        assert(p1 == old(context).ops@ + seq![TermOp::SavePos]);
                        assert(context.ops@ =~= old(context).ops@ + seq![TermOp::SavePos]
                            + dops.take(k));
                    }
                }
                return Err(e);
            },
        }
        if !result.focused {
            let ghost p2 = context.ops@;
            proof {
                assert(p2 =~= old(context).ops@ + seq![TermOp::SavePos] + dops);
            }
            match term_restore_position(context) {
                Ok(()) => (),
                Err(e) => {
                    proof {
                        assert(old(entity).update_ens(*entity, result));
                        if context.ops@ == p2 {
                            assert(dops.take(dops.len() as int) =~= dops);
                            assert(context.ops@ == old(context).ops@ + seq![TermOp::SavePos]
                                + dops.take(dops.len() as int));
                        } else {
                            assert(context.ops@ =~= old(context).ops@ + seq![TermOp::SavePos]
                                + dops + seq![TermOp::RestorePos]);
                        }
                    }
                    return Err(e);
                },
            }
            proof {
                assert(context.ops@ =~= old(context).ops@ + seq![TermOp::SavePos]
                    + entity.draw_ops() + seq![TermOp::RestorePos]);
            }
        }
        Ok(result)
    }

    /// The tick phase: updates and draws every entity in registration order
    /// and collects their outgoing events. The first update that asks to
    /// terminate ends the pass at once: its index is reported and no entity
    /// registered after it is updated or drawn in this pass.
    pub fn run_tick_pass(&mut self, context: &mut DrawContext) -> (r: Result<
        (Option<usize>, Vec<ControlEvent>),
        TermError,
    >)
        ensures
            final(self).poll_interval_ms == old(self).poll_interval_ms,
            final(self).entities@.len() == old(self).entities@.len(),
            r matches Ok(out) ==> match out.0 {
                Some(k) => {
                    &&& k < old(self).entities@.len()
                    &&& forall|j: int|
                        k < j < old(self).entities@.len() ==> final(self).entities@[j] == old(
                            self,
                        ).entities@[j]
                    &&& forall|j: int|
                        0 <= j < k ==> tick_step_rel(
                            old(self).entities@[j],
                            final(self).entities@[j],
                            false,
                        )
                    &&& tick_step_rel(
                        old(self).entities@[k as int],
                        final(self).entities@[k as int],
                        true,
                    )
                },
                None => forall|j: int|
                    0 <= j < old(self).entities@.len() ==> tick_step_rel(
                        old(self).entities@[j],
                        final(self).entities@[j],
                        false,
                    ),
            },
            r matches Ok(out) ==> tick_pass_events_ok(
                old(self).entities@,
                final(self).entities@,
                out.0,
                out.1@,
            ),
            r matches Ok(out) ==> tick_pass_log_ok(
                old(self).entities@,
                final(self).entities@,
                out.0,
                out.1@,
                old(context).ops@,
                final(context).ops@,
            ),
    {
        let mut events: Vec<ControlEvent> = Vec::new();
        let ghost mut results: Seq<UpdateResult> = Seq::empty();
        proof {
            assert(emitted_events(results) =~= Seq::<ControlEvent>::empty());
            assert(pass_draw_ops(self.entities@, results, 0) =~= Seq::<TermOp>::empty());
            assert(context.ops@ =~= old(context).ops@ + pass_draw_ops(
                self.entities@,
                results,
                0,
            ));
        }
        let n = self.entities.len();
        let mut i: usize = 0;
        while i < n
            invariant
                i <= n,
                n == self.entities@.len(),
                n == old(self).entities@.len(),
                self.poll_interval_ms == old(self).poll_interval_ms,
                results.len() == i as int,
                events@ == emitted_events(results),
                context.ops@ == old(context).ops@ + pass_draw_ops(self.entities@, results, 0),
                forall|j: int| i <= j < n ==> self.entities@[j] == old(self).entities@[j],
                forall|j: int|
                    0 <= j < i ==> old(self).entities@[j].update_ens(
                        self.entities@[j],
                        #[trigger] results[j],
                    ),
                forall|j: int| 0 <= j < i ==> !(#[trigger] results[j]).kill,
            decreases n - i,
        {
            let ghost pre = self.entities@[i as int];
            let ghost snap = self.entities@;
            let ghost pre_step_ops = context.ops@;
            let mut result = match Self::update_and_draw_entity(&mut self.entities[i], context) {
                Ok(res) => res,
                Err(e) => {
                    return Err(e);
                },
            };
            proof {
                assert(forall|j: int|
                    0 <= j < n && j != i ==> self.entities@[j] == snap[j]);
                assert(pre.update_ens(self.entities@[i as int], result));
                assert(tick_step_rel(pre, self.entities@[i as int], result.kill));
                if result.focused {
                    assert(context.ops@ =~= pre_step_ops + wrapped_draw(
                        self.entities@[i as int],
                        result.focused,
                    ));
                } else {
                    assert(context.ops@ =~= pre_step_ops + wrapped_draw(
                        self.entities@[i as int],
                        result.focused,
                    ));
                }
                lemma_pass_draw_ops_agree(snap, self.entities@, results, 0);
                lemma_pass_draw_ops_snoc(self.entities@, results, result, 0);
                assert(context.ops@ =~= old(context).ops@ + pass_draw_ops(
                    self.entities@,
                    results.push(result),
                    0,
                ));
            }
            if result.kill {
                proof {
                    let witness = results.push(result);
                    assert(witness.take(i as int) =~= results);
                    assert(tick_events_rel(
                        old(self).entities@,
                        self.entities@,
                        witness,
                        Some(i),
                        events@,
                    ));
                    assert(tick_pass_events_ok(
                        old(self).entities@,
                        self.entities@,
                        Some(i),
                        events@,
                    ));
                    assert(tick_pass_log_ok(
                        old(self).entities@,
                        self.entities@,
                        Some(i),
                        events@,
                        old(context).ops@,
                        context.ops@,
                    ));
                    assert forall|j: int| 0 <= j < i implies tick_step_rel(
                        old(self).entities@[j],
                        self.entities@[j],
                        false,
                    ) by {
                        assert(old(self).entities@[j].update_ens(self.entities@[j], results[j]));
                        assert(!results[j].kill);
                    }
                }
                return Ok((Some(i), events));
            }
            proof {
                lemma_emitted_events_push(results, result);
                results = results.push(result);
            }
            events.append(&mut result.events);
            i += 1;
        }
        proof {
            assert(results.take(n as int) =~= results);
            assert(tick_events_rel(
                old(self).entities@,
                self.entities@,
                results,
                None,
                events@,
            ));
            assert(tick_pass_events_ok(old(self).entities@, self.entities@, None, events@));
            assert(tick_pass_log_ok(
                old(self).entities@,
                self.entities@,
                None,
                events@,
                old(context).ops@,
                context.ops@,
            ));
            assert forall|j: int| 0 <= j < n implies tick_step_rel(
                old(self).entities@[j],
                self.entities@[j],
                false,
            ) by {
                assert(old(self).entities@[j].update_ens(self.entities@[j], results[j]));
                assert(!results[j].kill);
            }
        }
        Ok((None, events))
    }

    /// The input phase: offers one event to every entity in registration
    /// order; each entity that consumes it is immediately re-updated and
    /// re-drawn under the same cursor discipline, and its events are queued.
    /// The first re-update that asks to terminate ends the pass at once.
    #[verifier::rlimit(50)]
    pub fn run_input_pass(&mut self, context: &mut DrawContext, event: InputEvent) -> (r: Result<
        (Option<usize>, Vec<ControlEvent>),
        TermError,
    >)
        ensures
            final(self).poll_interval_ms == old(self).poll_interval_ms,
            final(self).entities@.len() == old(self).entities@.len(),
            r matches Ok(out) ==> match out.0 {
                Some(k) => {
                    &&& k < old(self).entities@.len()
                    &&& forall|j: int|
                        k < j < old(self).entities@.len() ==> final(self).entities@[j] == old(
                            self,
                        ).entities@[j]
                    &&& forall|j: int|
                        0 <= j < k ==> input_step_rel(
                            old(self).entities@[j],
                            final(self).entities@[j],
                            event,
                            false,
                        )
                    &&& input_step_rel(
                        old(self).entities@[k as int],
                        final(self).entities@[k as int],
                        event,
                        true,
                    )
                },
                None => forall|j: int|
                    0 <= j < old(self).entities@.len() ==> input_step_rel(
                        old(self).entities@[j],
                        final(self).entities@[j],
                        event,
                        false,
                    ),
            },
            r matches Ok(out) ==> input_pass_events_ok(
                old(self).entities@,
                final(self).entities@,
                event,
                out.0,
                out.1@,
                old(context).ops@,
                final(context).ops@,
            ),
    {
        let mut events: Vec<ControlEvent> = Vec::new();
        let ghost mut batches: Seq<Seq<ControlEvent>> = Seq::empty();
        let ghost mut draws: Seq<Seq<TermOp>> = Seq::empty();
        proof {
            assert(batches.flatten() =~= Seq::<ControlEvent>::empty());
            assert(draws.flatten() =~= Seq::<TermOp>::empty());
            assert(context.ops@ =~= old(context).ops@ + draws.flatten());
        }
        let n = self.entities.len();
        let mut i: usize = 0;
        while i < n
            invariant
                i <= n,
                n == self.entities@.len(),
                n == old(self).entities@.len(),
                self.poll_interval_ms == old(self).poll_interval_ms,
                forall|j: int| i <= j < n ==> self.entities@[j] == old(self).entities@[j],
                batches.len() == i as int,
                draws.len() == i as int,
                events@ == batches.flatten(),
                context.ops@ == old(context).ops@ + draws.flatten(),
                forall|j: int|
                    #![trigger batches[j]]
                    0 <= j < i ==> input_step_events_rel(
                        old(self).entities@[j],
                        self.entities@[j],
                        event,
                        false,
                        batches[j],
                        draws[j],
                    ),
                forall|j: int|
                    0 <= j < i ==> input_step_rel(
                        old(self).entities@[j],
                        self.entities@[j],
                        event,
                        false,
                    ),
            decreases n - i,
        {
            let ghost pre = self.entities@[i as int];
            let ghost snap = self.entities@;
            let acted = self.entities[i].handle_event(EventContext { event });
            let ghost mid = self.entities@[i as int];
            proof {
                assert(forall|j: int|
                    0 <= j < n && j != i ==> self.entities@[j] == snap[j]);
            }
            if acted {
                let ghost pre_step_ops = context.ops@;
                let mut result = match Self::update_and_draw_entity(&mut self.entities[i], context)
                {
                    Ok(res) => res,
                    Err(e) => {
                        return Err(e);
                    },
                };
                let ghost drawn = wrapped_draw(self.entities@[i as int], result.focused);
                proof {
                    assert(forall|j: int|
                        0 <= j < n && j != i ==> self.entities@[j] == snap[j]);
                    assert(pre.handle_ens(mid, event, true));
                    assert(mid.update_ens(self.entities@[i as int], result));
                    assert(input_step_rel(pre, self.entities@[i as int], event, result.kill));
                    assert(input_step_events_rel(
                        pre,
                        self.entities@[i as int],
                        event,
                        result.kill,
                        result.events@,
                        drawn,
                    ));
                    if result.focused {
                        assert(context.ops@ =~= pre_step_ops + drawn);
                    } else {
                        assert(context.ops@ =~= pre_step_ops + drawn);
                    }
                }
                if result.kill {
                    proof {
                        assert(batches.len() == i as int);
                        assert forall|j: int|
                            #![trigger batches[j]]
                            0 <= j < i as int implies input_step_events_rel(
                            old(self).entities@[j],
                            self.entities@[j],
                            event,
                            false,
                            batches[j],
                            draws[j],
                        ) by {
                            assert(self.entities@[j] == snap[j]);
                        }
                        assert(old(self).entities@[i as int] == pre);
                        assert(input_step_events_rel(
                            old(self).entities@[i as int],
                            self.entities@[i as int],
                            event,
                            true,
                            result.events@,
                            drawn,
                        ));
                        assert(context.ops@ =~= old(context).ops@ + draws.flatten() + drawn);
                        assert(exists|em: Seq<ControlEvent>, dr: Seq<TermOp>|
                            (#[trigger] input_step_events_rel(
                                old(self).entities@[i as int],
                                self.entities@[i as int],
                                event,
                                true,
                                em,
                                dr,
                            )) && context.ops@ == old(context).ops@ + draws.flatten() + dr);
                        assert(events@ == batches.flatten());
                        assert(draws.len() == i as int);
                        assert(input_pass_accounting(
                            old(self).entities@,
                            self.entities@,
                            event,
                            Some(i),
                            events@,
                            old(context).ops@,
                            context.ops@,
                            batches,
                            draws,
                        ));
                        assert(input_pass_events_ok(
                            old(self).entities@,
                            self.entities@,
                            event,
                            Some(i),
                            events@,
                            old(context).ops@,
                            context.ops@,
                        ));
                    }
                    return Ok((Some(i), events));
                }
                proof {
                    batches.lemma_flatten_push(result.events@);
                    batches = batches.push(result.events@);
                    draws.lemma_flatten_push(drawn);
                    draws = draws.push(drawn);
                    assert(context.ops@ =~= old(context).ops@ + draws.flatten());
                }
                events.append(&mut result.events);
            } else {
                proof {
                    assert(pre.handle_ens(mid, event, false));
                    assert(input_step_rel(pre, self.entities@[i as int], event, false));
                    assert(input_step_events_rel(
                        pre,
                        self.entities@[i as int],
                        event,
                        false,
                        Seq::<ControlEvent>::empty(),
                        Seq::<TermOp>::empty(),
                    ));
                    batches.lemma_flatten_push(Seq::<ControlEvent>::empty());
                    batches = batches.push(Seq::<ControlEvent>::empty());
                    assert(events@ =~= batches.flatten());
                    draws.lemma_flatten_push(Seq::<TermOp>::empty());
                    draws = draws.push(Seq::<TermOp>::empty());
                    assert(context.ops@ =~= old(context).ops@ + draws.flatten());
                }
            }
            i += 1;
        }
        proof {
            assert(input_pass_accounting(
                old(self).entities@,
                self.entities@,
                event,
                None,
                events@,
                old(context).ops@,
                context.ops@,
                batches,
                draws,
            ));
            assert(input_pass_events_ok(
                old(self).entities@,
                self.entities@,
                event,
                None,
                events@,
                old(context).ops@,
                context.ops@,
            ));
        }
        Ok((None, events))
    }

    /// The work loop: ticks every entity, applies the emitted events, then
    /// waits up to the poll interval for one input event and dispatches it.
    /// The loop ends with success the instant any entity's update asks to
    /// terminate (reporting true), and with the failure the moment any
    /// terminal write fails. On success the final entity collection is
    /// reachable from the initial one by the loop's own steps, and a true
    /// report means the last step was a pass that reported a termination.
    /// The iteration budget only bounds the loop for the termination
    /// checker; the caller passes the largest one there is, and a false
    /// report means that budget ran out with no termination.
    fn work_loop(&mut self, context: &mut DrawContext, max_ticks: u64) -> (r: Result<
        bool,
        TermError,
    >)
        ensures
            final(self).poll_interval_ms == old(self).poll_interval_ms,
            final(self).entities@.len() == old(self).entities@.len(),
            r is Ok ==> exists|n: nat|
                #[trigger] loop_reachable(old(self).entities@, final(self).entities@, n),
            r matches Ok(killed) && killed ==> exists|n: nat, mid: Seq<ControllerEntity>|
                (#[trigger] loop_reachable(old(self).entities@, mid, n)) && killing_pass(
                    mid,
                    final(self).entities@,
                ),
            r matches Ok(killed) && !killed ==> exists|n: nat|
                n >= max_ticks && #[trigger] loop_reachable(
                    old(self).entities@,
                    final(self).entities@,
                    n,
                ),
    {
        let mut remaining = max_ticks;
        let ghost mut steps: nat = 0;
        proof {
            assert(loop_reachable(old(self).entities@, self.entities@, 0));
        }
        while remaining > 0
            invariant
                self.entities@.len() == old(self).entities@.len(),
                self.poll_interval_ms == old(self).poll_interval_ms,
                loop_reachable(old(self).entities@, self.entities@, steps),
                remaining <= max_ticks,
                steps >= max_ticks - remaining,
            decreases remaining,
        {
            remaining -= 1;
            let ghost s0 = self.entities@;
            let ghost steps0 = steps;
            let tick = match self.run_tick_pass(context) {
                Ok(out) => out,
                Err(e) => {
                    return Err(e);
                },
            };
            proof {
                assert(loop_step(s0, self.entities@));
                lemma_loop_reachable_snoc(old(self).entities@, s0, self.entities@, steps);
                steps = steps + 1;
            }
            if tick.0.is_some() {
                proof {
                    let ghost k = tick.0.unwrap();
                    assert(tick_pass_events_ok(s0, self.entities@, Some(k), tick.1@));
                    assert(killing_pass(s0, self.entities@));
                    assert(loop_reachable(old(self).entities@, s0, steps0) && killing_pass(
                        s0,
                        self.entities@,
                    ));
                }
                return Ok(true);
            }
            let ghost s1 = self.entities@;
            self.execute_entity_events(&tick.1);
            proof {
                assert(loop_step(s1, self.entities@));
                lemma_loop_reachable_snoc(old(self).entities@, s1, self.entities@, steps);
                steps = steps + 1;
            }
            let available = match input_poll(self.poll_interval_ms) {
                Ok(b) => b,
                Err(e) => {
                    return Err(e);
                },
            };
            if available {
                let event = match input_read() {
                    Ok(ev) => ev,
                    Err(e) => {
                        return Err(e);
                    },
                };
                let ghost s2 = self.entities@;
                let ghost steps2 = steps;
                let ghost o2 = context.ops@;
                let dispatched = match self.run_input_pass(context, event) {
                    Ok(out) => out,
                    Err(e) => {
                        return Err(e);
                    },
                };
                proof {
                    assert(input_pass_events_ok(
                        s2,
                        self.entities@,
                        event,
                        dispatched.0,
                        dispatched.1@,
                        o2,
                        context.ops@,
                    ));
                    assert(loop_step(s2, self.entities@));
                    lemma_loop_reachable_snoc(old(self).entities@, s2, self.entities@, steps);
                    steps = steps + 1;
                }
                if dispatched.0.is_some() {
                    proof {
                        let ghost k = dispatched.0.unwrap();
                        assert(input_pass_events_ok(
                            s2,
                            self.entities@,
                            event,
                            Some(k),
                            dispatched.1@,
                            o2,
                            context.ops@,
                        ));
                        assert(killing_pass(s2, self.entities@));
                        assert(loop_reachable(old(self).entities@, s2, steps2) && killing_pass(
                            s2,
                            self.entities@,
                        ));
                    }
                    return Ok(true);
                }
                let ghost s3 = self.entities@;
                self.execute_entity_events(&dispatched.1);
                proof {
                    assert(loop_step(s3, self.entities@));
                    lemma_loop_reachable_snoc(old(self).entities@, s3, self.entities@, steps);
                    steps = steps + 1;
                }
            }
        }
        proof {
            assert(steps >= max_ticks);
            assert(loop_reachable(old(self).entities@, self.entities@, steps));
        }
        Ok(false)
    }

    /// Acquires the terminal (raw mode, cleared screen), runs the work loop,
    /// and releases the terminal on every exit path: normal termination,
    /// early termination, and propagated rendering failure alike. On success
    /// the final entity collection is reachable from the initial one by the
    /// loop's own steps: tick passes, input passes and event routings.
    pub fn execute(&mut self) -> (r: Result<(), TermError>)
        ensures
            final(self).poll_interval_ms == old(self).poll_interval_ms,
            final(self).entities@.len() == old(self).entities@.len(),
            r is Ok ==> exists|n: nat|
                #[trigger] loop_reachable(old(self).entities@, final(self).entities@, n),
            r is Ok ==> (exists|n: nat, mid: Seq<ControllerEntity>|
                (#[trigger] loop_reachable(old(self).entities@, mid, n)) && killing_pass(
                    mid,
                    final(self).entities@,
                )) || (exists|n: nat|
                n >= u64::MAX && #[trigger] loop_reachable(
                    old(self).entities@,
                    final(self).entities@,
                    n,
                )),
    {
        let mut context = DrawContext::new();
        match term_enable_raw() {
            Ok(()) => (),
            Err(e) => {
                cleanup(&mut context);
                return Err(e);
            },
        }
        match term_clear_all(&mut context) {
            Ok(()) => (),
            Err(e) => {
                cleanup(&mut context);
                return Err(e);
            },
        }
        match term_move_to(&mut context, 0, 0) {
            Ok(()) => (),
            Err(e) => {
                cleanup(&mut context);
                return Err(e);
            },
        }
        let result = match self.work_loop(&mut context, u64::MAX) {
            Ok(_) => Ok(()),
            Err(e) => Err(e),
        };
        cleanup(&mut context);
        result
    }

    /// Applies a batch of property-mutation events, in their accumulated
    /// order, each routed to the first entity with the matching name.
    pub fn execute_entity_events(&mut self, events: &Vec<ControlEvent>)
        ensures
            final(self).poll_interval_ms == old(self).poll_interval_ms,
            final(self).entities@.len() == old(self).entities@.len(),
            routed_rel(old(self).entities@, final(self).entities@, events@),
    {
        let n = events.len();
        proof {
            assert(events@.take(0) =~= Seq::<ControlEvent>::empty());
        }
        let mut i: usize = 0;
        while i < n
            invariant
                i <= n,
                n == events@.len(),
                self.poll_interval_ms == old(self).poll_interval_ms,
                self.entities@.len() == old(self).entities@.len(),
                routed_rel(old(self).entities@, self.entities@, events@.take(i as int)),
            decreases n - i,
        {
            let ghost before = self.entities@;
            self.route_event(&events[i]);
            proof {
                lemma_routed_rel_snoc(
                    old(self).entities@,
                    before,
                    self.entities@,
                    events@.take(i as int),
                    events@[i as int],
                );
                assert(events@.take(i + 1) =~= events@.take(i as int).push(events@[i as int]));
            }
            i += 1;
        }
        proof {
            assert(events@.take(n as int) =~= events@);
        }
    }
}

} // verus!

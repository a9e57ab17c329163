use vstd::prelude::*;
use crate::geometry::{Point, sign};
use crate::components::{CanActFlag, Entity, EntityData, IntentData, IntentRolls};
use crate::move_type::AttackIntent;
use crate::range_type::RangeType;
use crate::map::{in_bounds, tile_index};
use crate::world::{WorldView, hit};
use crate::events::{EngineView, EventView, new_event_view};
use crate::event_type::{DropRolls, EventType, open_tile, push_dest, push_one, pushed_events, resolve_view};
use crate::arbiter::{ContestRolls, attacker_first, attacker_total, defender_total, interrupts};
use crate::dispatch::{
    drain_witness, resolved_chain,EventRolls, StepKind, contest_view, display_view, eligible, grant_one, grant_view, has_eligible, mark_in_progress, process_event_view, resolve_both, step_pre, step_result};

verus! {

/// An event queued with the empty shape is resolved as soon as it is popped:
/// no entity is matched against its tiles, nothing is queued for display and
/// no reaction window opens, whatever it asks for.
pub proof fn lemma_untargeted_event_resolves_directly(
    w: WorldView,
    e: EngineView,
    et: EventType,
    intent: Option<AttackIntent>,
    source: Option<Entity>,
    loc: Point,
    invokes_reaction: bool,
)
    requires
        e.processing is None,
        e.stack.len() > 0,
        e.stack.last() == new_event_view(et, intent, source, RangeType::Empty, loc, invokes_reaction),
    ensures
        step_pre(w, e) == (w, EngineView { stack: e.stack.drop_last(), ..e }, Some(e.stack.last()), StepKind::Resolved),
{
}

/// A hit of power `amount` on an entity holding a block of `b`: its health
/// drops by exactly `max(amount - b, 0)` and the block is gone, whether or
/// not it absorbed the whole hit.
pub proof fn lemma_block_absorbs_then_breaks(
    w: WorldView,
    amount: i32,
    source: Option<Entity>,
    targets: Seq<Point>,
    r: DropRolls,
    i: int,
)
    requires
        0 <= i < w.entities.len(),
        hit(w.entities[i], targets),
        w.entities[i].block is Some,
        w.entities[i].health is Some,
        w.entities[i].health->0.current - (if amount - w.entities[i].block->0.block_amount > 0 {
            amount - w.entities[i].block->0.block_amount
        } else {
            0
        }) >= i32::MIN,
    ensures
        ({
            let d0 = w.entities[i];
            let d1 = resolve_view(w, EventType::Damage { amount }, source, targets, r).entities[i];
            let through = if amount - d0.block->0.block_amount > 0 { amount - d0.block->0.block_amount } else { 0 };
            &&& d1.health->0.current == d0.health->0.current - through
            &&& d1.health->0.max == d0.health->0.max
            &&& d1.block is None
        }),
{
}

/// How many tiles a push of up to `n` steps along `(dx, dy)` moves.
pub open spec fn push_steps(w: int, h: int, blocked: Seq<bool>, p: Point, dx: int, dy: int, n: int) -> int
    decreases n,
{
    if n <= 0 {
        0
    } else if !open_tile(w, h, blocked, p.x + dx, p.y + dy) {
        0
    } else {
        1 + push_steps(w, h, blocked, Point { x: (p.x + dx) as i32, y: (p.y + dy) as i32 }, dx, dy, n - 1)
    }
}

/// `base` moved `j` tiles along a unit direction `d`.
pub open spec fn along(base: int, j: int, d: int) -> int {
    if d > 0 {
        base + j
    } else if d < 0 {
        base - j
    } else {
        base
    }
}

/// A push walks `k` tiles in a straight line, each of them open, with
/// `k <= n`; it stops after `k` only when it has used its `n` steps or the next
/// tile is out of bounds or blocked.
pub proof fn lemma_push_walks_open_tiles(w: int, h: int, blocked: Seq<bool>, p: Point, dx: int, dy: int, n: int)
    requires
        in_bounds(w, h, p),
        w <= i32::MAX,
        h <= i32::MAX,
        dx == sign(dx),
        dy == sign(dy),
    ensures
        ({
            let k = push_steps(w, h, blocked, p, dx, dy, n);
            let dest = push_dest(w, h, blocked, p, dx, dy, n);
            &&& 0 <= k
            &&& n >= 0 ==> k <= n
            &&& n < 0 ==> k == 0
            &&& dest.x == along(p.x as int, k, dx)
            &&& dest.y == along(p.y as int, k, dy)
            &&& in_bounds(w, h, dest)
            &&& forall|j: int| 1 <= j <= k ==> open_tile(w, h, blocked, #[trigger] along(p.x as int, j, dx), along(p.y as int, j, dy))
            &&& k < n ==> !open_tile(w, h, blocked, along(p.x as int, k + 1, dx), along(p.y as int, k + 1, dy))
        }),
    decreases n,
{
    if n > 0 && open_tile(w, h, blocked, p.x + dx, p.y + dy) {
        let q = Point { x: (p.x + dx) as i32, y: (p.y + dy) as i32 };
        lemma_push_walks_open_tiles(w, h, blocked, q, dx, dy, n - 1);
        let k = push_steps(w, h, blocked, p, dx, dy, n);
        assert forall|j: int| 1 <= j <= k implies open_tile(w, h, blocked, #[trigger] along(p.x as int, j, dx), along(p.y as int, j, dy)) by {
            if j > 1 {
                assert(along(q.x as int, j - 1, dx) == along(p.x as int, j, dx));
                assert(along(q.y as int, j - 1, dy) == along(p.y as int, j, dy));
            }
        }
    }
}

proof fn lemma_tile_index_injective(w: int, h: int, a: Point, b: Point)
    requires
        in_bounds(w, h, a),
        in_bounds(w, h, b),
        a != b,
    ensures
        tile_index(w, a) != tile_index(w, b),
{
    if a.y == b.y {
        assert(a.x != b.x);
    } else if a.y < b.y {
        assert(a.y * w + w <= b.y * w) by (nonlinear_arith)
            requires
                a.y < b.y,
                w > 0,
        ;
    } else {
        assert(b.y * w + w <= a.y * w) by (nonlinear_arith)
            requires
                b.y < a.y,
                w > 0,
        ;
    }
}

/// After a push, the blocking grid marks the entity's final tile as blocked
/// and, when it moved, its starting tile as open; the entity stands on its final tile.
pub proof fn lemma_push_updates_grid(
    w: int,
    h: int,
    ents: Seq<EntityData>,
    blocked: Seq<bool>,
    i: int,
    src: Point,
    amount: int,
)
    requires
        0 <= i < ents.len(),
        ents[i].position is Some,
        in_bounds(w, h, ents[i].position->0),
        w <= i32::MAX,
        h <= i32::MAX,
        blocked.len() == w * h,
    ensures
        ({
            let p = ents[i].position->0;
            let dest = push_dest(w, h, blocked, p, sign(p.x - src.x), sign(p.y - src.y), amount);
            let res = push_one(w, h, ents, blocked, i, src, amount);
            &&& res.0[i].position == Some(dest)
            &&& res.1[tile_index(w, dest)]
            &&& dest != p ==> !res.1[tile_index(w, p)]
        }),
{
    let p = ents[i].position->0;
    let dx = sign(p.x - src.x);
    let dy = sign(p.y - src.y);
    lemma_push_walks_open_tiles(w, h, blocked, p, dx, dy, amount);
    let dest = push_dest(w, h, blocked, p, dx, dy, amount);
    crate::map::lemma_tile_index_bounds(w, h, p);
    crate::map::lemma_tile_index_bounds(w, h, dest);
    if dest != p {
        lemma_tile_index_injective(w, h, p, dest);
    }
}

/// The record of a contest once the speed rolls are in.
pub open spec fn with_speed_rolls(w: WorldView, atk: AttackIntent, def: AttackIntent, r: ContestRolls) -> WorldView {
    WorldView {
        intents: IntentData {
            hidden: false,
            rolls: IntentRolls {
                atk_speed: r.atk_speed,
                def_speed: r.def_speed,
                attacker_first: attacker_first(atk, def, r),
                ..w.intents.rolls
            },
            ..w.intents
        },
        ..w
    }
}

/// The record of a contest once the guard and power rolls are in.
pub open spec fn with_guard_rolls(w: WorldView, r: ContestRolls) -> WorldView {
    WorldView {
        intents: IntentData {
            rolls: IntentRolls { def_guard: r.def_guard, atk_power: r.atk_power, ..w.intents.rolls },
            ..w.intents
        },
        ..w
    }
}

/// Equal speed totals resolve the attacker's event first, and the record says so.
pub proof fn lemma_tie_resolves_attacker_first(
    w: WorldView,
    e: EngineView,
    ev: EventView,
    st: EventView,
    r: ContestRolls,
    ev_drop: DropRolls,
    st_drop: DropRolls,
)
    requires
        ev.attack_intent is Some,
        st.attack_intent is Some,
        attacker_total(ev.attack_intent->0, r) == defender_total(st.attack_intent->0, r),
    ensures
        attacker_first(ev.attack_intent->0, st.attack_intent->0, r),
        ({
            let wa = with_speed_rolls(w, ev.attack_intent->0, st.attack_intent->0, r);
            let one = resolve_both(wa, e, ev, ev_drop);
            let w2 = if ev.event_type is Damage { with_guard_rolls(one.0, r) } else { one.0 };
            contest_view(w, e, ev, st, r, ev_drop, st_drop) == (if ev.event_type is Damage
                && interrupts(ev.attack_intent->0, st.attack_intent->0, r) {
                (w2, one.1)
            } else {
                resolve_both(w2, one.1, st, st_drop)
            })
        }),
{
}

/// A damaging first mover whose stun power beats the second mover's guard
/// drops the second event: the world is what the first event alone made of it.
/// Otherwise both events resolve, first then second.
pub proof fn lemma_interrupt_decides_second(
    w: WorldView,
    e: EngineView,
    ev: EventView,
    st: EventView,
    r: ContestRolls,
    ev_drop: DropRolls,
    st_drop: DropRolls,
)
    requires
        ev.attack_intent is Some,
        st.attack_intent is Some,
    ensures
        ({
            let atk = ev.attack_intent->0;
            let def = st.attack_intent->0;
            let af = attacker_first(atk, def, r);
            let first = if af { ev } else { st };
            let second = if af { st } else { ev };
            let fd = if af { ev_drop } else { st_drop };
            let sd = if af { st_drop } else { ev_drop };
            let one = resolve_both(with_speed_rolls(w, atk, def, r), e, first, fd);
            &&& first.event_type is Damage && interrupts(atk, def, r) ==> contest_view(w, e, ev, st, r, ev_drop, st_drop)
                == (with_guard_rolls(one.0, r), one.1)
            &&& first.event_type is Damage && !interrupts(atk, def, r) ==> contest_view(w, e, ev, st, r, ev_drop, st_drop)
                == resolve_both(with_guard_rolls(one.0, r), one.1, second, sd)
            &&& !(first.event_type is Damage) ==> contest_view(w, e, ev, st, r, ev_drop, st_drop)
                == resolve_both(one.0, one.1, second, sd)
        }),
{
}

/// Popping a targeted event that invites reactions, when someone may react,
/// resolves nothing: the event is stashed, and exactly the eligible entities
/// get a reaction window naming its source (a pending ordinary turn refunded).
pub proof fn lemma_reaction_stashes_event(w: WorldView, e: EngineView, i: int)
    requires
        e.processing is None,
        e.stack.len() > 0,
        e.stack.last().targets.len() > 0,
        e.stack.last().invokes_reaction,
        has_eligible(w, e.stack.last().source, e.stack.last().targets),
        0 <= i < w.entities.len(),
    ensures
        ({
            let ev = e.stack.last();
            let pre = step_pre(w, e);
            let granted = grant_view(w, ev.source, ev.targets).entities[i];
            &&& pre.3 == StepKind::AwaitingReaction
            &&& pre.2 is None
            &&& pre.1.processing == Some(ev)
            &&& pre.1.stack == e.stack.drop_last()
            &&& pre.0.entities.len() == w.entities.len()
            &&& eligible(w, ev.source, ev.targets, i) ==> granted == grant_one(w.entities[i], ev.source)
                && granted.can_act == Some(CanActFlag { is_reaction: true, reaction_target: ev.source })
            &&& !eligible(w, ev.source, ev.targets, i) ==> granted == w.entities[i]
            &&& pre.0 == mark_in_progress(
                grant_view(display_view(w, EngineView { stack: e.stack.drop_last(), ..e }, ev.attack_intent, ev.source, ev.targets).0, ev.source, ev.targets),
                ev.source,
                true,
            )
        }),
{
    let ev = e.stack.last();
    let shown = display_view(w, EngineView { stack: e.stack.drop_last(), ..e }, ev.attack_intent, ev.source, ev.targets);
    assert(shown.0.entities == w.entities);
    assert forall|k: int| #![auto] eligible(shown.0, ev.source, ev.targets, k) == eligible(w, ev.source, ev.targets, k) by {}
    assert(has_eligible(shown.0, ev.source, ev.targets));
    assert(grant_view(shown.0, ev.source, ev.targets).entities == grant_view(w, ev.source, ev.targets).entities);
}

/// Draining again after a reaction resolves the stashed event once: the step
/// takes it out of the stash, clears its source's in-progress mark, resolves
/// it, and leaves nothing stashed.
pub proof fn lemma_resume_resolves_stash_once(w: WorldView, e: EngineView, w1: WorldView, e1: EngineView, r: EventRolls)
    requires
        e.processing is Some,
        step_result(w, e, w1, e1, r),
    ensures
        ({
            let ev = e.processing->0;
            let before = mark_in_progress(w, ev.source, false);
            &&& step_pre(w, e).3 == StepKind::HitPause
            &&& (w1, e1) == process_event_view(before, EngineView { processing: None, ..e }, ev, r)
            &&& e1.processing is None
        }),
{
    let ev = e.processing->0;
    let before = mark_in_progress(w, ev.source, false);
    lemma_process_event_keeps_stash(before, EngineView { processing: None, ..e }, ev, r);
}

proof fn lemma_process_event_keeps_stash(w: WorldView, e: EngineView, ev: EventView, r: EventRolls)
    ensures
        process_event_view(w, e, ev, r).1.processing == e.processing,
{
}

/// No event in `s` carries an attack intent.
pub open spec fn intent_free(s: Seq<EventView>) -> bool {
    forall|k: int| 0 <= k < s.len() ==> (#[trigger] s[k]).attack_intent is None
}

proof fn lemma_pushed_intent_free(et: EventType, targets: Seq<Point>)
    ensures
        intent_free(pushed_events(et, targets)),
{
}

/// Events pushed while an event resolves come before everything beneath it:
/// while the events above `below` carry no attack intent, a step leaves
/// `below` as it was and puts only intent-free events above it.
pub proof fn lemma_nested_events_resolve_first(
    w: WorldView,
    e: EngineView,
    below: Seq<EventView>,
    above: Seq<EventView>,
    w1: WorldView,
    e1: EngineView,
    r: EventRolls,
)
    requires
        e.processing is None,
        e.stack == below + above,
        above.len() > 0,
        intent_free(above),
        step_result(w, e, w1, e1, r),
    ensures
        e1.stack.len() >= below.len(),
        e1.stack.subrange(0, below.len() as int) == below,
        intent_free(e1.stack.subrange(below.len() as int, e1.stack.len() as int)),
{
    let ev = e.stack.last();
    assert(ev == above.last());
    assert(e.stack.drop_last() == below + above.drop_last());
    lemma_pushed_intent_free(ev.event_type, ev.targets);
    let pre = step_pre(w, e);
    let rest = above.drop_last();
    let pushed = pushed_events(ev.event_type, ev.targets);
    assert(ev.attack_intent is None);
    if pre.3 == StepKind::Resolved {
        let shown_top = pre.1;
        assert(shown_top.stack == below + rest);
        assert(e1.stack == below + rest + pushed);
        assert(e1.stack.subrange(0, below.len() as int) =~= below);
        assert(e1.stack.subrange(below.len() as int, e1.stack.len() as int) =~= rest + pushed);
    } else {
        assert(e1.stack == below + rest);
        assert(e1.stack.subrange(0, below.len() as int) =~= below);
        assert(e1.stack.subrange(below.len() as int, e1.stack.len() as int) =~= rest);
    }
}

/// Draining a stack whose top event is untargeted resolves that event first,
/// with no entity matching and no reaction window, whatever it asks for.
pub proof fn lemma_drain_resolves_untargeted_top(
    w0: WorldView,
    e0: EngineView,
    w1: WorldView,
    e1: EngineView,
    kind: StepKind,
    ws: Seq<WorldView>,
    es: Seq<EngineView>,
    rs: Seq<EventRolls>,
    last: EventRolls,
)
    requires
        drain_witness(w0, e0, w1, e1, kind, ws, es, rs, last),
        kind != StepKind::Resolved,
        e0.processing is None,
        e0.stack.len() > 0,
        e0.stack.last().targets.len() == 0,
    ensures
        rs.len() >= 1,
        ({
            let popped = EngineView { stack: e0.stack.drop_last(), ..e0 };
            &&& step_pre(w0, e0) == (w0, popped, Some(e0.stack.last()), StepKind::Resolved)
            &&& (ws[1], es[1]) == process_event_view(w0, popped, e0.stack.last(), rs[0])
        }),
{
    if rs.len() == 0 {
        assert(ws.last() == ws[0]);
    }
    assert(step_pre(ws[0], es[0]).3 == StepKind::Resolved);
}

/// Draining a stack whose top event is targeted and invites reactions, with
/// someone eligible at pop time, resolves nothing: the drain stops at once
/// with the event stashed, and the reaction windows and refunds are exactly
/// those of `grant_view` (the source itself is never eligible).
pub proof fn lemma_drain_suspends_on_reaction(
    w0: WorldView,
    e0: EngineView,
    w1: WorldView,
    e1: EngineView,
    kind: StepKind,
    ws: Seq<WorldView>,
    es: Seq<EngineView>,
    rs: Seq<EventRolls>,
    last: EventRolls,
    i: int,
)
    requires
        drain_witness(w0, e0, w1, e1, kind, ws, es, rs, last),
        e0.processing is None,
        e0.stack.len() > 0,
        e0.stack.last().targets.len() > 0,
        e0.stack.last().invokes_reaction,
        has_eligible(w0, e0.stack.last().source, e0.stack.last().targets),
        0 <= i < w0.entities.len(),
    ensures
        kind == StepKind::AwaitingReaction,
        rs.len() == 0,
        e1.processing == Some(e0.stack.last()),
        e1.stack == e0.stack.drop_last(),
        w1.entities.len() == w0.entities.len(),
        ({
            let ev = e0.stack.last();
            let granted = grant_view(w0, ev.source, ev.targets).entities[i];
            &&& w1.entities[i].can_act == granted.can_act
            &&& w1.entities[i].schedule == granted.schedule
            &&& w1.entities[i].health == w0.entities[i].health
            &&& w1.entities[i].position == w0.entities[i].position
        }),
{
    lemma_reaction_stashes_event(w0, e0, i);
    if rs.len() > 0 {
        assert(step_pre(ws[0], es[0]).3 == StepKind::Resolved);
    }
    assert(ws.last() == ws[0] && es.last() == es[0]);
}

/// Draining a stack whose top event is targeted but either does not invite
/// reactions or finds no one eligible at pop time resolves that event first,
/// without suspending.
pub proof fn lemma_drain_resolves_without_reactors(
    w0: WorldView,
    e0: EngineView,
    w1: WorldView,
    e1: EngineView,
    kind: StepKind,
    ws: Seq<WorldView>,
    es: Seq<EngineView>,
    rs: Seq<EventRolls>,
    last: EventRolls,
)
    requires
        drain_witness(w0, e0, w1, e1, kind, ws, es, rs, last),
        kind != StepKind::Resolved,
        e0.processing is None,
        e0.stack.len() > 0,
        e0.stack.last().targets.len() > 0,
        !(e0.stack.last().invokes_reaction && has_eligible(w0, e0.stack.last().source, e0.stack.last().targets)),
    ensures
        rs.len() >= 1,
        ({
            let ev = e0.stack.last();
            let shown = display_view(w0, EngineView { stack: e0.stack.drop_last(), ..e0 }, ev.attack_intent, ev.source, ev.targets);
            &&& step_pre(w0, e0) == (shown.0, shown.1, Some(ev), StepKind::Resolved)
            &&& (ws[1], es[1]) == process_event_view(shown.0, shown.1, ev, rs[0])
        }),
{
    let ev = e0.stack.last();
    let shown = display_view(w0, EngineView { stack: e0.stack.drop_last(), ..e0 }, ev.attack_intent, ev.source, ev.targets);
    assert(shown.0.entities == w0.entities);
    assert forall|k: int| #![auto] eligible(shown.0, ev.source, ev.targets, k) == eligible(w0, ev.source, ev.targets, k) by {}
    if has_eligible(w0, ev.source, ev.targets) {
        let k = choose|k: int| 0 <= k < w0.entities.len() && eligible(w0, ev.source, ev.targets, k);
        assert(eligible(shown.0, ev.source, ev.targets, k));
    }
    if has_eligible(shown.0, ev.source, ev.targets) {
        let k = choose|k: int| 0 <= k < shown.0.entities.len() && eligible(shown.0, ev.source, ev.targets, k);
        assert(eligible(w0, ev.source, ev.targets, k));
    }
    assert(step_pre(w0, e0).3 == StepKind::Resolved);
    if rs.len() == 0 {
        assert(ws.last() == ws[0]);
    }
    assert(step_pre(ws[0], es[0]).3 == StepKind::Resolved);
}

proof fn lemma_resolved_step_keeps_no_stash(w: WorldView, e: EngineView, w1: WorldView, e1: EngineView, r: EventRolls)
    requires
        e.processing is None,
        step_pre(w, e).3 == StepKind::Resolved,
        step_result(w, e, w1, e1, r),
    ensures
        e1.processing is None,
{
    let pre = step_pre(w, e);
    lemma_process_event_keeps_stash(pre.0, pre.1, pre.2->0, r);
}

/// In a drain, events above `below` that carry no attack intent (as the
/// events a resolution pushes never do) are all resolved before any event of
/// `below` is touched: as long as something stood above `below` at every
/// earlier state, `below` is still there untouched with only intent-free
/// events above it.
pub proof fn lemma_drain_nested_events_first(
    w0: WorldView,
    e0: EngineView,
    w1: WorldView,
    e1: EngineView,
    kind: StepKind,
    ws: Seq<WorldView>,
    es: Seq<EngineView>,
    rs: Seq<EventRolls>,
    last: EventRolls,
    below: Seq<EventView>,
    above: Seq<EventView>,
    k: int,
)
    requires
        drain_witness(w0, e0, w1, e1, kind, ws, es, rs, last),
        e0.processing is None,
        e0.stack == below + above,
        intent_free(above),
        0 <= k < ws.len(),
        forall|j: int| 0 <= j < k ==> (#[trigger] es[j]).stack.len() > below.len(),
    ensures
        es[k].processing is None,
        es[k].stack.len() >= below.len(),
        es[k].stack.subrange(0, below.len() as int) == below,
        intent_free(es[k].stack.subrange(below.len() as int, es[k].stack.len() as int)),
    decreases k,
{
    if k == 0 {
        assert(es[0].stack.subrange(0, below.len() as int) =~= below);
        assert(es[0].stack.subrange(below.len() as int, es[0].stack.len() as int) =~= above);
    } else {
        lemma_drain_nested_events_first(w0, e0, w1, e1, kind, ws, es, rs, last, below, above, k - 1);
        let j = k - 1;
        assert(es[j].stack.len() > below.len());
        let rest = es[j].stack.subrange(below.len() as int, es[j].stack.len() as int);
        assert(es[j].stack =~= below + rest);
        assert(step_pre(ws[j], es[j]).3 == StepKind::Resolved);
        assert(step_result(ws[j], es[j], ws[j + 1], es[j + 1], rs[j]));
        lemma_nested_events_resolve_first(ws[j], es[j], below, rest, ws[k], es[k], rs[j]);
        lemma_resolved_step_keeps_no_stash(ws[j], es[j], ws[k], es[k], rs[j]);
    }
}

proof fn lemma_resolve_keeps_intents(w: WorldView, et: EventType, source: Option<Entity>, targets: Seq<Point>, r: DropRolls)
    ensures
        resolve_view(w, et, source, targets, r).intents == w.intents,
{
}

/// A contest records its speed rolls, shows the record, and says the attacker
/// went first exactly when its total is at least the defender's; the guard and
/// power rolls are recorded only when the first mover deals damage.
pub proof fn lemma_contest_records_rolls(
    w: WorldView,
    e: EngineView,
    ev: EventView,
    st: EventView,
    r: ContestRolls,
    ev_drop: DropRolls,
    st_drop: DropRolls,
)
    requires
        ev.attack_intent is Some,
        st.attack_intent is Some,
    ensures
        ({
            let atk = ev.attack_intent->0;
            let def = st.attack_intent->0;
            let out = contest_view(w, e, ev, st, r, ev_drop, st_drop).0.intents;
            let first = if attacker_first(atk, def, r) { ev } else { st };
            &&& !out.hidden
            &&& out.rolls.atk_speed == r.atk_speed
            &&& out.rolls.def_speed == r.def_speed
            &&& out.rolls.attacker_first == (attacker_total(atk, r) >= defender_total(def, r))
            &&& first.event_type is Damage ==> out.rolls.def_guard == r.def_guard && out.rolls.atk_power == r.atk_power
            &&& !(first.event_type is Damage) ==> out.rolls.def_guard == w.intents.rolls.def_guard
                && out.rolls.atk_power == w.intents.rolls.atk_power
        }),
{
    let atk = ev.attack_intent->0;
    let def = st.attack_intent->0;
    let af = attacker_first(atk, def, r);
    let wa = with_speed_rolls(w, atk, def, r);
    let first = if af { ev } else { st };
    let second = if af { st } else { ev };
    let fd = if af { ev_drop } else { st_drop };
    let sd = if af { st_drop } else { ev_drop };
    lemma_resolve_keeps_intents(wa, first.event_type, first.source, first.targets, fd);
    let one = resolve_both(wa, e, first, fd);
    let w2 = if first.event_type is Damage { with_guard_rolls(one.0, r) } else { one.0 };
    lemma_resolve_keeps_intents(w2, second.event_type, second.source, second.targets, sd);
    lemma_interrupt_decides_second(w, e, ev, st, r, ev_drop, st_drop);
}

} // verus!

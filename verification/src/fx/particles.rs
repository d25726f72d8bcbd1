//! What particle emitters may emit, and when a particle is spent.

use crate::scalar::Scalar;
use std::collections::HashMap;
use vstd::prelude::*;

verus! {

/// One emitter's turn: which one it is, how many whole particles its rate
/// has accumulated, and how many of its own may be alive.
#[derive(Clone, Copy, Debug, PartialEq, Eq, Structural)]
pub struct Turn {
    pub emitter: u64,
    pub wanted: usize,
    pub max_alive: usize,
}

/// What an emitter does with its turn.
#[derive(Clone, Copy, Debug, PartialEq, Eq, Structural)]
pub struct Emission {
    pub count: usize,
    /// A cap cut the turn short: the accumulator starts over at zero, so
    /// that emission resumes at rate and not in one burst.
    pub capped: bool,
}

/// Live particles that `emitter` has in `owners`.
pub open spec fn alive(owners: Seq<Option<u64>>, emitter: u64) -> nat
    decreases owners.len(),
{
    if owners.len() == 0 {
        0
    } else {
        alive(owners.drop_last(), emitter) + if owners.last() == Some(emitter) {
            1nat
        } else {
            0nat
        }
    }
}

/// All particles emitted in `plan`.
pub open spec fn emitted(plan: Seq<Emission>) -> nat
    decreases plan.len(),
{
    if plan.len() == 0 {
        0
    } else {
        emitted(plan.drop_last()) + plan.last().count as nat
    }
}

/// Particles that `emitter` emitted in `plan`, turn for turn.
pub open spec fn emitted_by(turns: Seq<Turn>, plan: Seq<Emission>, emitter: u64) -> nat
    decreases plan.len(),
{
    if plan.len() == 0 {
        0
    } else {
        emitted_by(turns, plan.drop_last(), emitter) + if turns[plan.len() - 1].emitter == emitter {
            plan.last().count as nat
        } else {
            0nat
        }
    }
}

/// Room below `cap` over `used`.
pub open spec fn room(cap: int, used: int) -> int {
    if used < cap {
        cap - used
    } else {
        0
    }
}

pub open spec fn least(a: int, b: int) -> int {
    if a < b {
        a
    } else {
        b
    }
}

/// What the turn `i` of `turns` may emit after the turns in `plan`: what it
/// wants, within the room that is left of either cap.
pub open spec fn allowed(
    owners: Seq<Option<u64>>,
    turns: Seq<Turn>,
    live: int,
    max_total: int,
    plan: Seq<Emission>,
    i: int,
) -> int {
    let t = turns[i];
    let own = alive(owners, t.emitter) + emitted_by(turns, plan, t.emitter);
    least(
        t.wanted as int,
        least(room(max_total, live + emitted(plan)), room(t.max_alive as int, own as int)),
    )
}

/// `plan` answers every turn, in order, with what it may emit.
pub open spec fn plans(
    owners: Seq<Option<u64>>,
    turns: Seq<Turn>,
    live: int,
    max_total: int,
    plan: Seq<Emission>,
) -> bool {
    &&& plan.len() <= turns.len()
    &&& forall|i: int|
        0 <= i < plan.len() ==> {
            let n = allowed(owners, turns, live, max_total, plan.take(i), i);
            (#[trigger] plan[i]).count == n && plan[i].capped == (n < turns[i].wanted)
        }
}

spec fn count_of(m: Map<u64, usize>, emitter: u64) -> int {
    if m.contains_key(emitter) {
        m[emitter] as int
    } else {
        0
    }
}

proof fn lemma_alive_bounded(owners: Seq<Option<u64>>, emitter: u64)
    ensures
        alive(owners, emitter) <= owners.len(),
    decreases owners.len(),
{
    if owners.len() > 0 {
        lemma_alive_bounded(owners.drop_last(), emitter);
    }
}

fn tally(owners: &Vec<Option<u64>>) -> (m: HashMap<u64, usize>)
    ensures
        forall|e: u64| count_of(m@, e) == #[trigger] alive(owners@, e),
{
    broadcast use vstd::std_specs::hash::group_hash_axioms;

    let mut m: HashMap<u64, usize> = HashMap::new();
    let mut i: usize = 0;
    while i < owners.len()
        invariant
            i <= owners.len(),
            forall|e: u64| count_of(m@, e) == #[trigger] alive(owners@.take(i as int), e),
        decreases owners.len() - i,
    {
        broadcast use vstd::std_specs::hash::group_hash_axioms;

        let ghost before = m@;
        let ghost seen = owners@.take(i as int);
        proof {
            assert(owners@.take(i + 1).drop_last() =~= seen);
            assert(owners@.take(i + 1).last() == owners@[i as int]);
        }
        if let Some(e) = owners[i] {
            let n: usize = match m.get(&e) {
                Some(n) => *n,
                None => 0,
            };
            proof {
                assert(n == alive(seen, e));
                lemma_alive_bounded(seen, e);
            }
            m.insert(e, n + 1);
        }
        proof {
            assert forall|e: u64| count_of(m@, e) == #[trigger] alive(
                owners@.take(i + 1),
                e,
            ) by {
                assert(count_of(before, e) == alive(seen, e));
            }
        }
        i += 1;
    }
    proof {
        assert(owners@.take(owners@.len() as int) =~= owners@);
    }
    m
}

fn gap(cap: usize, used: usize) -> (n: usize)
    ensures
        n == room(cap as int, used as int),
{
    if used < cap {
        cap - used
    } else {
        0
    }
}

fn smaller(a: usize, b: usize) -> (n: usize)
    ensures
        n == least(a as int, b as int),
{
    if a < b {
        a
    } else {
        b
    }
}

/// Answer the emitters' turns in order. `owners` names the emitter of each
/// live particle, `live` is how many count against `max_total`.
pub fn plan_emissions(
    owners: &Vec<Option<u64>>,
    turns: &Vec<Turn>,
    live: usize,
    max_total: usize,
) -> (plan: Vec<Emission>)
    ensures
        plan.len() == turns.len(),
        plans(owners@, turns@, live as int, max_total as int, plan@),
{
    broadcast use vstd::std_specs::hash::group_hash_axioms;

    let mut counts = tally(owners);
    let mut plan: Vec<Emission> = Vec::new();
    let mut used: usize = live;
    let mut i: usize = 0;
    while i < turns.len()
        invariant
            i <= turns.len(),
            plan.len() == i,
            plans(owners@, turns@, live as int, max_total as int, plan@),
            used == live + emitted(plan@),
            forall|e: u64|
                count_of(counts@, e) == (#[trigger] alive(owners@, e)) + emitted_by(
                    turns@,
                    plan@,
                    e,
                ),
        decreases turns.len() - i,
    {
        broadcast use vstd::std_specs::hash::group_hash_axioms;

        let turn = turns[i];
        let own: usize = match counts.get(&turn.emitter) {
            Some(n) => *n,
            None => 0,
        };
        let ghost before = plan@;
        let ghost held = counts@;
        proof {
            assert(own == alive(owners@, turn.emitter) + emitted_by(turns@, before, turn.emitter));
        }
        let free: usize = smaller(gap(max_total, used), gap(turn.max_alive, own));
        let count: usize = smaller(turn.wanted, free);
        plan.push(Emission { count, capped: count < turn.wanted });
        used = used + count;
        counts.insert(turn.emitter, own + count);
        proof {
            let after = plan@;
            assert(after.drop_last() =~= before);
            assert(after.last() == after[i as int]);
            assert forall|k: int| 0 <= k < after.len() implies {
                let n = allowed(
                    owners@,
                    turns@,
                    live as int,
                    max_total as int,
                    after.take(k),
                    k,
                );
                (#[trigger] after[k]).count == n && after[k].capped == (n < turns@[k].wanted)
            } by {
                assert(after.take(k) =~= before.take(k));
                if k < i {
                    assert(after[k] == before[k]);
                } else {
                    assert(before.take(k) =~= before);
                }
            }
            assert forall|e: u64|
                count_of(counts@, e) == (#[trigger] alive(owners@, e)) + emitted_by(
                    turns@,
                    after,
                    e,
                ) by {
                assert(count_of(held, e) == alive(owners@, e) + emitted_by(turns@, before, e));
            }
        }
        i += 1;
    }
    plan
}

/// Neither cap is ever passed: with the emitted ones the live particles
/// stay within `max_total`, unless there were more to begin with.
pub proof fn law_total_cap_holds(
    owners: Seq<Option<u64>>,
    turns: Seq<Turn>,
    live: int,
    max_total: int,
    plan: Seq<Emission>,
)
    requires
        plans(owners, turns, live, max_total, plan),
    ensures
        live <= max_total ==> live + emitted(plan) <= max_total,
        live > max_total ==> emitted(plan) == 0,
    decreases plan.len(),
{
    if plan.len() > 0 {
        let rest = plan.drop_last();
        lemma_prefix_plans(owners, turns, live, max_total, plan);
        law_total_cap_holds(owners, turns, live, max_total, rest);
        let i = plan.len() - 1;
        assert(plan.take(i) =~= rest);
        assert(plan[i] == plan.last());
    }
}

/// No emitter goes over its own cap, unless it had more alive to begin
/// with, and then it emits nothing.
pub proof fn law_emitter_cap_holds(
    owners: Seq<Option<u64>>,
    turns: Seq<Turn>,
    live: int,
    max_total: int,
    plan: Seq<Emission>,
    emitter: u64,
    cap: int,
)
    requires
        plans(owners, turns, live, max_total, plan),
        forall|i: int|
            0 <= i < turns.len() && (#[trigger] turns[i]).emitter == emitter ==> turns[i].max_alive
                <= cap,
    ensures
        alive(owners, emitter) <= cap ==> alive(owners, emitter) + emitted_by(
            turns,
            plan,
            emitter,
        ) <= cap,
        alive(owners, emitter) > cap ==> emitted_by(turns, plan, emitter) == 0,
    decreases plan.len(),
{
    if plan.len() > 0 {
        let rest = plan.drop_last();
        lemma_prefix_plans(owners, turns, live, max_total, plan);
        law_emitter_cap_holds(owners, turns, live, max_total, rest, emitter, cap);
        let i = plan.len() - 1;
        assert(plan.take(i) =~= rest);
        assert(plan[i] == plan.last());
        assert(turns[i] == turns[plan.len() - 1]);
    }
}

proof fn lemma_prefix_plans(
    owners: Seq<Option<u64>>,
    turns: Seq<Turn>,
    live: int,
    max_total: int,
    plan: Seq<Emission>,
)
    requires
        plans(owners, turns, live, max_total, plan),
        plan.len() > 0,
    ensures
        plans(owners, turns, live, max_total, plan.drop_last()),
{
    let rest = plan.drop_last();
    assert forall|i: int| 0 <= i < rest.len() implies {
        let n = allowed(owners, turns, live, max_total, rest.take(i), i);
        (#[trigger] rest[i]).count == n && rest[i].capped == (n < turns[i].wanted)
    } by {
        assert(rest.take(i) =~= plan.take(i));
        assert(rest[i] == plan[i]);
    }
}

/// Age and life of a particle in 100 Hz quanta.
#[derive(Clone, Copy, Debug, PartialEq, Eq, Structural)]
pub struct TickLife {
    pub age_ticks: i32,
    pub life_ticks: i32,
}

impl TickLife {
    /// Grow older by `ticks`. True when the particle is spent. Nothing at
    /// or below zero ages it.
    pub fn age(&mut self, ticks: i32) -> (spent: bool)
        requires
            ticks > 0 ==> old(self).age_ticks + ticks <= i32::MAX,
        ensures
            final(self).life_ticks == old(self).life_ticks,
            ticks <= 0 ==> *final(self) == *old(self) && !spent,
            ticks > 0 ==> final(self).age_ticks == old(self).age_ticks + ticks && spent == (
            old(self).age_ticks + ticks >= old(self).life_ticks),
    {
        if ticks <= 0 {
            return false;
        }
        self.age_ticks = self.age_ticks + ticks;
        self.age_ticks >= self.life_ticks
    }
}

/// What a step of time does to something with a life in seconds.
#[derive(Clone, Copy, Debug, PartialEq, Eq, Structural)]
pub enum Aging {
    /// The step is no step: nothing moves.
    Hold,
    /// Older, and still there.
    Live,
    /// Its life is over.
    Spent,
}

/// Aging by `dt` seconds, where `aged` is the new age plus the tolerance
/// that ends a life on its boundary.
pub fn age_secs(dt: Scalar, aged: Scalar, life: Scalar) -> (a: Aging)
    ensures
        a is Hold <==> !dt.finite() || dt.le(Scalar { bits: 0 }),
        a is Spent <==> dt.finite() && !dt.le(Scalar { bits: 0 }) && life.le(aged),
{
    if !dt.is_finite() || dt.at_most(Scalar::zero()) {
        Aging::Hold
    } else if life.at_most(aged) {
        Aging::Spent
    } else {
        Aging::Live
    }
}

/// Whether a particle with these texture coordinates is untextured, and so
/// samples the shared white texel of `white_page`: the full page, on that
/// page.
pub fn samples_white(
    uv_min: (Scalar, Scalar),
    uv_max: (Scalar, Scalar),
    page: u32,
    white_page: u32,
) -> (r: bool)
    ensures
        r == {
            let (zero, one) = (Scalar { bits: 0 }, Scalar { bits: 0x3f80_0000 });
            &&& uv_min.0.eqv(zero) && uv_min.1.eqv(zero)
            &&& uv_max.0.eqv(one) && uv_max.1.eqv(one)
            &&& page == white_page
        },
{
    uv_min.0.same(Scalar::zero()) && uv_min.1.same(Scalar::zero()) && uv_max.0.same(Scalar::one())
        && uv_max.1.same(Scalar::one()) && page == white_page
}

/// The particles of an emitter are counted one by one: its own count, those
/// of others and of none do not.
pub proof fn law_particles_count_for_their_emitter(
    owners: Seq<Option<u64>>,
    owner: Option<u64>,
    emitter: u64,
)
    ensures
        alive(Seq::empty(), emitter) == 0,
        owner == Some(emitter) ==> alive(owners.push(owner), emitter) == alive(owners, emitter) + 1,
        owner != Some(emitter) ==> alive(owners.push(owner), emitter) == alive(owners, emitter),
{
    assert(owners.push(owner).drop_last() =~= owners);
}

/// A turn gets all it wants unless a cap is in the way: where it gets less,
/// the total is full after it, or its emitter is, and it is marked as cut
/// short. It never gets more.
pub proof fn law_turns_get_what_fits(
    owners: Seq<Option<u64>>,
    turns: Seq<Turn>,
    live: int,
    max_total: int,
    plan: Seq<Emission>,
    i: int,
)
    requires
        plans(owners, turns, live, max_total, plan),
        0 <= i < plan.len(),
    ensures
        plan[i].count <= turns[i].wanted,
        plan[i].capped <==> plan[i].count < turns[i].wanted,
        plan[i].count < turns[i].wanted ==> {
            ||| live + emitted(plan.take(i)) + plan[i].count >= max_total
            ||| alive(owners, turns[i].emitter) + emitted_by(turns, plan.take(i), turns[i].emitter)
                + plan[i].count >= turns[i].max_alive
        },
        plan[i].count > 0 ==> live + emitted(plan.take(i)) + plan[i].count <= max_total,
        plan[i].count > 0 ==> alive(owners, turns[i].emitter) + emitted_by(
            turns,
            plan.take(i),
            turns[i].emitter,
        ) + plan[i].count <= turns[i].max_alive,
{
}

/// What a plan emits is the sum of its turns, for one emitter of its own.
pub proof fn law_plans_add_up(turns: Seq<Turn>, plan: Seq<Emission>, e: Emission, emitter: u64)
    requires
        plan.len() < turns.len(),
    ensures
        emitted(Seq::empty()) == 0,
        emitted(plan.push(e)) == emitted(plan) + e.count,
        turns[plan.len() as int].emitter == emitter ==> emitted_by(turns, plan.push(e), emitter)
            == emitted_by(turns, plan, emitter) + e.count,
        turns[plan.len() as int].emitter != emitter ==> emitted_by(turns, plan.push(e), emitter)
            == emitted_by(turns, plan, emitter),
{
    assert(plan.push(e).drop_last() =~= plan);
}

/// A plan has no more turns than were asked for, and what was planned
/// first stands whatever comes after it.
pub proof fn law_plans_answer_in_order(
    owners: Seq<Option<u64>>,
    turns: Seq<Turn>,
    live: int,
    max_total: int,
    plan: Seq<Emission>,
    n: int,
)
    requires
        plans(owners, turns, live, max_total, plan),
        0 <= n <= plan.len(),
    ensures
        plan.len() <= turns.len(),
        plans(owners, turns, live, max_total, plan.take(n)),
        plans(owners, turns, live, max_total, Seq::empty()),
{
    let head = plan.take(n);
    assert forall|i: int| 0 <= i < head.len() implies {
        let c = allowed(owners, turns, live, max_total, head.take(i), i);
        (#[trigger] head[i]).count == c && head[i].capped == (c < turns[i].wanted)
    } by {
        assert(head.take(i) =~= plan.take(i));
        assert(head[i] == plan[i]);
    }
}

} // verus!

//! Which entities have bodies and joints in a physics world.

use crate::lists::holds_id;
use crate::scalar::Scalar;
use std::collections::HashMap;
use vstd::prelude::*;

verus! {

#[derive(Clone, Copy, Debug, PartialEq, Eq, Structural)]
pub enum BodyKind {
    Dynamic,
    Fixed,
    Kinematic,
}

impl Default for BodyKind {
    fn default() -> (k: BodyKind)
        ensures
            k == BodyKind::Dynamic,
    {
        BodyKind::Dynamic
    }
}

/// Least half extent and least mass of a body: 0.0001.
pub const LEAST: u32 = 0x38d1_b717;

/// Squared length below which a ray has no direction: 0.00000001.
pub const NO_DIRECTION: u32 = 0x322b_cc77;

/// Half extent that a body gets.
pub fn half_extent(asked: Scalar) -> (e: Scalar)
    ensures
        e == asked.larger(Scalar { bits: LEAST }),
{
    asked.max(Scalar::from_bits(LEAST))
}

/// Damping that a body gets.
pub fn damping(asked: Scalar) -> (d: Scalar)
    ensures
        d == asked.larger(Scalar { bits: 0 }),
{
    asked.max(Scalar::zero())
}

/// Mass that a body gets on top of its collider's: only a dynamic one does,
/// and only where it asks for some.
pub fn extra_mass(kind: BodyKind, asked: Scalar) -> (mass: Option<Scalar>)
    ensures
        mass == if kind == BodyKind::Dynamic && (Scalar { bits: 0 }).lt(asked) {
            Some(asked.larger(Scalar { bits: LEAST }))
        } else {
            None
        },
{
    if kind == BodyKind::Dynamic && Scalar::zero().less(asked) {
        Some(asked.max(Scalar::from_bits(LEAST)))
    } else {
        None
    }
}

/// Whether a ray is cast at all: not over no distance, nor without a
/// direction.
pub fn casts_ray(max_distance: Scalar, direction_squared: Scalar) -> (r: bool)
    ensures
        r == (!max_distance.le(Scalar { bits: 0 }) && !direction_squared.lt(
            Scalar { bits: NO_DIRECTION },
        )),
{
    !max_distance.at_most(Scalar::zero()) && !direction_squared.less(
        Scalar::from_bits(NO_DIRECTION),
    )
}

/// Handles of the bodies and joints of entities, by the entities' bits.
pub struct BodyRegistry<H, J> {
    bodies: HashMap<u64, H>,
    joints: HashMap<u64, J>,
}

/// What a registry holds.
#[verifier::ext_equal]
pub struct RegistryModel<H, J> {
    pub bodies: Map<u64, H>,
    pub joints: Map<u64, J>,
}

impl<H, J> View for BodyRegistry<H, J> {
    type V = RegistryModel<H, J>;

    closed spec fn view(&self) -> RegistryModel<H, J> {
        RegistryModel { bodies: self.bodies@, joints: self.joints@ }
    }
}

/// The handles that a joint between `parent` and `child` connects, if both
/// have bodies.
pub open spec fn ends<H, J>(m: RegistryModel<H, J>, parent: u64, child: u64) -> Option<(H, H)> {
    if m.bodies.contains_key(parent) && m.bodies.contains_key(child) {
        Some((m.bodies[parent], m.bodies[child]))
    } else {
        None
    }
}

/// Entities of `asked` that have no body yet, each once, in order.
pub open spec fn missing(have: Set<u64>, asked: Seq<u64>) -> Seq<u64>
    decreases asked.len(),
{
    if asked.len() == 0 {
        Seq::empty()
    } else {
        let rest = missing(have, asked.drop_last());
        if have.contains(asked.last()) || rest.contains(asked.last()) {
            rest
        } else {
            rest.push(asked.last())
        }
    }
}

/// Handles of the entities of `removed` in `have`, each once, in order.
pub open spec fn taken<V>(have: Map<u64, V>, removed: Seq<u64>) -> Seq<V>
    decreases removed.len(),
{
    if removed.len() == 0 {
        Seq::empty()
    } else {
        let (front, last) = (removed.drop_last(), removed.last());
        if have.contains_key(last) && !front.contains(last) {
            taken(have, front).push(have[last])
        } else {
            taken(have, front)
        }
    }
}

impl<H: Copy, J: Copy> BodyRegistry<H, J> {
    pub fn new() -> (r: BodyRegistry<H, J>)
        ensures
            r@ == (RegistryModel::<H, J> { bodies: Map::empty(), joints: Map::empty() }),
    {
        broadcast use vstd::std_specs::hash::group_hash_axioms;

        BodyRegistry { bodies: HashMap::new(), joints: HashMap::new() }
    }

    pub fn body_count(&self) -> (n: usize)
        ensures
            n == self@.bodies.len(),
    {
        broadcast use vstd::std_specs::hash::group_hash_axioms;

        self.bodies.len()
    }

    pub fn joint_count(&self) -> (n: usize)
        ensures
            n == self@.joints.len(),
    {
        broadcast use vstd::std_specs::hash::group_hash_axioms;

        self.joints.len()
    }

    /// Handle of an entity's body.
    pub fn body_handle(&self, entity: u64) -> (r: Option<H>)
        ensures
            r == if self@.bodies.contains_key(entity) {
                Some(self@.bodies[entity])
            } else {
                None
            },
    {
        broadcast use vstd::std_specs::hash::group_hash_axioms;

        match self.bodies.get(&entity) {
            Some(h) => Some(*h),
            None => None,
        }
    }

    /// Entities that still need a body, out of all that ask for one.
    pub fn bodies_to_spawn(&self, asked: &Vec<u64>) -> (out: Vec<u64>)
        ensures
            out@ == missing(self@.bodies.dom(), asked@),
    {
        broadcast use vstd::std_specs::hash::group_hash_axioms;

        let mut out: Vec<u64> = Vec::new();
        let mut i: usize = 0;
        while i < asked.len()
            invariant
                i <= asked.len(),
                out@ == missing(self@.bodies.dom(), asked@.take(i as int)),
            decreases asked.len() - i,
        {
            broadcast use vstd::std_specs::hash::group_hash_axioms;

            let e: u64 = asked[i];
            assert(asked@.take(i + 1).drop_last() =~= asked@.take(i as int));
            if !self.bodies.contains_key(&e) && !holds_id(&out, e) {
                out.push(e);
            }
            i += 1;
        }
        assert(asked@.take(asked@.len() as int) =~= asked@);
        out
    }

    /// Record the body of an entity.
    pub fn add_body(&mut self, entity: u64, handle: H)
        ensures
            final(self)@ == (RegistryModel::<H, J> {
                bodies: old(self)@.bodies.insert(entity, handle),
                ..old(self)@
            }),
    {
        broadcast use vstd::std_specs::hash::group_hash_axioms;

        self.bodies.insert(entity, handle);
    }

    /// Handles that a joint between two entities connects.
    pub fn joint_handles(&self, parent: u64, child: u64) -> (r: Option<(H, H)>)
        ensures
            r == ends(self@, parent, child),
    {
        match (self.body_handle(parent), self.body_handle(child)) {
            (Some(a), Some(b)) => Some((a, b)),
            _ => None,
        }
    }

    /// What the joint of `entity` is to connect: nothing if it is there
    /// already, or if a body is still missing.
    pub fn joint_to_spawn(&self, entity: u64, parent: u64, child: u64) -> (r: Option<(H, H)>)
        ensures
            r == if self@.joints.contains_key(entity) {
                None
            } else {
                ends(self@, parent, child)
            },
    {
        broadcast use vstd::std_specs::hash::group_hash_axioms;

        if self.joints.contains_key(&entity) {
            return None;
        }
        self.joint_handles(parent, child)
    }

    /// Record the joint of an entity.
    pub fn track_joint(&mut self, entity: u64, handle: J)
        ensures
            final(self)@ == (RegistryModel::<H, J> {
                joints: old(self)@.joints.insert(entity, handle),
                ..old(self)@
            }),
    {
        broadcast use vstd::std_specs::hash::group_hash_axioms;

        self.joints.insert(entity, handle);
    }

    /// Forget the body of an entity; its handle is to be removed from the
    /// world.
    pub fn remove_body(&mut self, entity: u64) -> (r: Option<H>)
        ensures
            r == if old(self)@.bodies.contains_key(entity) {
                Some(old(self)@.bodies[entity])
            } else {
                None
            },
            final(self)@ == (RegistryModel::<H, J> {
                bodies: old(self)@.bodies.remove(entity),
                ..old(self)@
            }),
    {
        broadcast use vstd::std_specs::hash::group_hash_axioms;

        let r = self.bodies.remove(&entity);
        assert(self@.bodies =~= old(self)@.bodies.remove(entity));
        r
    }

    /// Forget the joint of an entity; its handle is to be removed from the
    /// world.
    pub fn remove_joint(&mut self, entity: u64) -> (r: Option<J>)
        ensures
            r == if old(self)@.joints.contains_key(entity) {
                Some(old(self)@.joints[entity])
            } else {
                None
            },
            final(self)@ == (RegistryModel::<H, J> {
                joints: old(self)@.joints.remove(entity),
                ..old(self)@
            }),
    {
        broadcast use vstd::std_specs::hash::group_hash_axioms;

        let r = self.joints.remove(&entity);
        assert(self@.joints =~= old(self)@.joints.remove(entity));
        r
    }

    /// Forget the bodies of entities that no longer ask for one; their
    /// handles are to be removed from the world.
    pub fn despawn_bodies(&mut self, removed: &Vec<u64>) -> (handles: Vec<H>)
        ensures
            handles@ == taken(old(self)@.bodies, removed@),
            final(self)@ == (RegistryModel::<H, J> {
                bodies: old(self)@.bodies.remove_keys(removed@.to_set()),
                ..old(self)@
            }),
    {
        let mut handles: Vec<H> = Vec::new();
        let mut i: usize = 0;
        proof {
            assert(removed@.take(0).to_set() =~= Set::<u64>::empty());
            assert(old(self)@.bodies.remove_keys(Set::<u64>::empty()) =~= old(self)@.bodies);
        }
        while i < removed.len()
            invariant
                i <= removed.len(),
                handles@ == taken(old(self)@.bodies, removed@.take(i as int)),
                self@ == (RegistryModel::<H, J> {
                    bodies: old(self)@.bodies.remove_keys(removed@.take(i as int).to_set()),
                    ..old(self)@
                }),
            decreases removed.len() - i,
        {
            if let Some(h) = self.remove_body(removed[i]) {
                handles.push(h);
            }
            proof {
                let (front, all) = (removed@.take(i as int), removed@.take(i + 1));
                lemma_one_more(removed@, i as int);
                assert(all.drop_last() =~= front);
                assert(self@.bodies =~= old(self)@.bodies.remove_keys(all.to_set()));
            }
            i += 1;
        }
        assert(removed@.take(removed@.len() as int) =~= removed@);
        handles
    }

    /// Forget the joints of entities that no longer ask for one; their
    /// handles are to be removed from the world.
    pub fn despawn_joints(&mut self, removed: &Vec<u64>) -> (handles: Vec<J>)
        ensures
            handles@ == taken(old(self)@.joints, removed@),
            final(self)@ == (RegistryModel::<H, J> {
                joints: old(self)@.joints.remove_keys(removed@.to_set()),
                ..old(self)@
            }),
    {
        let mut handles: Vec<J> = Vec::new();
        let mut i: usize = 0;
        proof {
            assert(removed@.take(0).to_set() =~= Set::<u64>::empty());
            assert(old(self)@.joints.remove_keys(Set::<u64>::empty()) =~= old(self)@.joints);
        }
        while i < removed.len()
            invariant
                i <= removed.len(),
                handles@ == taken(old(self)@.joints, removed@.take(i as int)),
                self@ == (RegistryModel::<H, J> {
                    joints: old(self)@.joints.remove_keys(removed@.take(i as int).to_set()),
                    ..old(self)@
                }),
            decreases removed.len() - i,
        {
            if let Some(h) = self.remove_joint(removed[i]) {
                handles.push(h);
            }
            proof {
                let (front, all) = (removed@.take(i as int), removed@.take(i + 1));
                lemma_one_more(removed@, i as int);
                assert(all.drop_last() =~= front);
                assert(self@.joints =~= old(self)@.joints.remove_keys(all.to_set()));
            }
            i += 1;
        }
        assert(removed@.take(removed@.len() as int) =~= removed@);
        handles
    }
}

proof fn lemma_one_more(s: Seq<u64>, i: int)
    requires
        0 <= i < s.len(),
    ensures
        s.take(i + 1).to_set() == s.take(i).to_set().insert(s[i]),
{
    let (front, all) = (s.take(i), s.take(i + 1));
    assert forall|e: u64| all.to_set().contains(e) <==> front.to_set().insert(s[i]).contains(e) by {
        if all.contains(e) {
            let k = choose|k: int| 0 <= k < all.len() && all[k] == e;
            if k < i {
                assert(front[k] == e);
            }
        }
        if front.contains(e) {
            let k = choose|k: int| 0 <= k < front.len() && front[k] == e;
            assert(all[k] == e);
        }
        assert(all[i] == s[i]);
    }
    assert(all.to_set() =~= front.to_set().insert(s[i]));
}

/// Once its body is gone, an entity's body is asked for anew.
pub proof fn law_despawned_bodies_can_return(have: Set<u64>, removed: Seq<u64>, entity: u64)
    requires
        removed.contains(entity),
    ensures
        missing(have.difference(removed.to_set()), seq![entity]) == seq![entity],
{
    let asked = seq![entity];
    let left = have.difference(removed.to_set());
    assert(asked.drop_last() =~= Seq::<u64>::empty());
    assert(missing(left, Seq::<u64>::empty()) =~= Seq::<u64>::empty());
    assert(missing(left, asked) =~= asked);
}

/// Every entity that asks gets exactly one body: after those that are
/// missing have got theirs, none is missing.
pub proof fn law_bodies_spawn_once(have: Set<u64>, asked: Seq<u64>)
    ensures
        missing(have, asked).no_duplicates(),
        forall|e: u64| #[trigger]
            missing(have, asked).contains(e) <==> asked.contains(e) && !have.contains(e),
        missing(have + missing(have, asked).to_set(), asked) == Seq::<u64>::empty(),
{
    lemma_missing(have, asked);
    let all = have + missing(have, asked).to_set();
    lemma_missing(all, asked);
    let again = missing(all, asked);
    if again.len() > 0 {
        assert(again.contains(again[0]));
        assert(missing(have, asked).contains(again[0]));
        assert(all.contains(again[0]));
    }
    assert(again =~= Seq::<u64>::empty());
}

proof fn lemma_missing(have: Set<u64>, asked: Seq<u64>)
    ensures
        missing(have, asked).no_duplicates(),
        forall|e: u64| #[trigger]
            missing(have, asked).contains(e) <==> asked.contains(e) && !have.contains(e),
    decreases asked.len(),
{
    if asked.len() > 0 {
        let (front, last) = (asked.drop_last(), asked.last());
        lemma_missing(have, front);
        let (rest, all) = (missing(have, front), missing(have, asked));
        assert forall|e: u64| #[trigger] all.contains(e) <==> asked.contains(e) && !have.contains(
            e,
        ) by {
            assert(asked.contains(e) <==> front.contains(e) || e == last) by {
                if asked.contains(e) {
                    let k = choose|k: int| 0 <= k < asked.len() && asked[k] == e;
                    if k < front.len() {
                        assert(front[k] == e);
                    }
                }
                if front.contains(e) {
                    let k = choose|k: int| 0 <= k < front.len() && front[k] == e;
                    assert(asked[k] == e);
                }
                assert(asked[asked.len() - 1] == last);
            }
            assert(rest.contains(e) <==> front.contains(e) && !have.contains(e));
            if all.len() == rest.len() + 1 {
                assert(all.contains(e) <==> rest.contains(e) || e == last) by {
                    if all.contains(e) {
                        let k = choose|k: int| 0 <= k < all.len() && all[k] == e;
                        if k < rest.len() {
                            assert(rest[k] == e);
                        }
                    }
                    if rest.contains(e) {
                        let k = choose|k: int| 0 <= k < rest.len() && rest[k] == e;
                        assert(all[k] == e);
                    }
                    assert(all[rest.len() as int] == last);
                }
            }
        }
    }
}

/// A joint has nothing to connect once either of its bodies is gone.
pub proof fn law_joints_need_both_bodies<H, J>(
    m: RegistryModel<H, J>,
    parent: u64,
    child: u64,
    gone: u64,
)
    requires
        gone == parent || gone == child,
    ensures
        ends(
            RegistryModel::<H, J> { bodies: m.bodies.remove(gone), ..m },
            parent,
            child,
        ) is None,
{
}

/// Despawning hands out the handle of each entity that had one, once, in
/// the order they were removed; entities without one are passed over.
pub proof fn law_despawned_handles_come_out<V>(have: Map<u64, V>, removed: Seq<u64>, entity: u64)
    ensures
        taken(have, Seq::empty()).len() == 0,
        have.contains_key(entity) && !removed.contains(entity) ==> taken(
            have,
            removed.push(entity),
        ) == taken(have, removed).push(have[entity]),
        !have.contains_key(entity) || removed.contains(entity) ==> taken(
            have,
            removed.push(entity),
        ) == taken(have, removed),
{
    assert(removed.push(entity).drop_last() =~= removed);
}

/// A joint joins the bodies of its parent and its child, in that order, and
/// waits while either is missing.
pub proof fn law_joints_join_parent_and_child<H, J>(
    m: RegistryModel<H, J>,
    parent: u64,
    child: u64,
)
    ensures
        m.bodies.contains_key(parent) && m.bodies.contains_key(child) ==> ends(m, parent, child)
            == Some((m.bodies[parent], m.bodies[child])),
        !m.bodies.contains_key(parent) || !m.bodies.contains_key(child) ==> ends(m, parent, child)
            is None,
{
}

/// Extents are a ten-thousandth at least; a direction is one from a squared
/// length of a hundred-millionth on.
pub proof fn law_bodies_have_least_sizes()
    ensures
        LEAST == 0x38d1_b717,
        NO_DIRECTION == 0x322b_cc77,
{
}

} // verus!

//! Action map: bindings grouped per action, gated by contexts.

use super::binding::Binding;
use crate::text::str_eq;
use std::collections::HashMap;
use std::hash::Hash;
use vstd::prelude::*;

verus! {

/// Action key bound. Games use their own enums; a `&'static str` works for
/// quick wiring.
pub trait ActionLike: Clone + Eq + Hash + Send + Sync + 'static {

}

impl<T: Clone + Eq + Hash + Send + Sync + 'static> ActionLike for T {

}

/// What hashing relies on: equal keys are the same key, and a clone is the
/// key itself.
pub open spec fn lawful<A: Clone + Eq + Hash>() -> bool {
    &&& vstd::std_specs::hash::obeys_key_model::<A>()
    &&& forall|a: A, b: A| #[trigger] call_ensures(A::clone, (&a,), b) ==> a == b
}

/// Bindings per action, and the named contexts (`"gameplay"` vs `"menu"`)
/// that gate them. When a map has no contexts every action is live;
/// otherwise only actions in an active context fire.
#[derive(Clone, Debug)]
pub struct ActionMap<A> {
    bindings: HashMap<A, Vec<Binding>>,
    contexts: HashMap<A, Vec<String>>,
}

/// What a map holds: the bindings of each action in the order they were
/// made, and the contexts each gated action is a member of.
#[verifier::reject_recursive_types(A)]
pub struct ActionMapModel<A> {
    pub bindings: Map<A, Seq<Binding>>,
    pub contexts: Map<A, Set<Seq<char>>>,
}

/// The strings of a list.
pub open spec fn names_of(list: Seq<String>) -> Set<Seq<char>> {
    Set::new(|n: Seq<char>| exists|i: int| 0 <= i < list.len() && (#[trigger] list[i])@ == n)
}

impl<A> View for ActionMap<A> {
    type V = ActionMapModel<A>;

    closed spec fn view(&self) -> ActionMapModel<A> {
        ActionMapModel {
            bindings: self.bindings@.map_values(|v: Vec<Binding>| v@),
            contexts: self.contexts@.map_values(|v: Vec<String>| names_of(v@)),
        }
    }
}

/// The bindings that drive an action; none if it is unbound.
pub open spec fn bindings_of<A>(m: ActionMapModel<A>, action: A) -> Seq<Binding> {
    if m.bindings.contains_key(action) {
        m.bindings[action]
    } else {
        Seq::empty()
    }
}

/// The action may fire under the active contexts. Actions in no context are
/// always live (shared buttons like pause).
pub open spec fn live_under<A>(m: ActionMapModel<A>, action: A, active: Set<Seq<char>>) -> bool {
    m.contexts.contains_key(action) ==> exists|n: Seq<char>| #[trigger]
        m.contexts[action].contains(n) && active.contains(n)
}

/// Whether `list` holds the string.
pub fn holds_name(list: &Vec<String>, name: &str) -> (r: bool)
    ensures
        r == names_of(list@).contains(name@),
{
    let mut i: usize = 0;
    while i < list.len()
        invariant
            i <= list@.len(),
            forall|j: int| 0 <= j < i ==> (#[trigger] list@[j])@ != name@,
        decreases list@.len() - i,
    {
        if str_eq(list[i].as_str(), name) {
            return true;
        }
        i += 1;
    }
    false
}

impl<A: Clone + Eq + Hash> ActionMap<A> {
    pub fn new() -> (m: Self)
        ensures
            m@.bindings == Map::<A, Seq<Binding>>::empty(),
            m@.contexts == Map::<A, Set<Seq<char>>>::empty(),
    {
        let m = Self { bindings: HashMap::new(), contexts: HashMap::new() };
        assert(m@.bindings =~= Map::<A, Seq<Binding>>::empty());
        assert(m@.contexts =~= Map::<A, Set<Seq<char>>>::empty());
        m
    }

    /// Bind one more physical source to an action (many-to-one).
    pub fn bind(&mut self, action: A, binding: Binding) -> (r: &mut Self)
        requires
            lawful::<A>(),
        ensures
            r@.bindings == old(self)@.bindings.insert(
                action,
                bindings_of(old(self)@, action).push(binding),
            ),
            r@.contexts == old(self)@.contexts,
            *final(r) == *final(self),
    {
        broadcast use vstd::std_specs::hash::group_hash_axioms;

        let ghost m = self@;
        let mut list: Vec<Binding> = match self.bindings.remove(&action) {
            Some(list) => list,
            None => Vec::new(),
        };
        assert(list@ == bindings_of(m, action));
        list.push(binding);
        self.bindings.insert(action, list);
        assert(self@.bindings =~= m.bindings.insert(
            action,
            bindings_of(m, action).push(binding),
        ));
        self
    }

    /// Put an action in a named context (member of several allowed).
    pub fn in_context(&mut self, context: &str, action: A) -> (r: &mut Self)
        requires
            lawful::<A>(),
        ensures
            r@.bindings == old(self)@.bindings,
            r@.contexts == old(self)@.contexts.insert(
                action,
                if old(self)@.contexts.contains_key(action) {
                    old(self)@.contexts[action].insert(context@)
                } else {
                    set![context@]
                },
            ),
            *final(r) == *final(self),
    {
        broadcast use vstd::std_specs::hash::group_hash_axioms;

        let ghost m = self@;
        let mut list: Vec<String> = match self.contexts.remove(&action) {
            Some(list) => list,
            None => Vec::new(),
        };
        let ghost was = list@;
        list.push(context.to_owned());
        proof {
            assert forall|n: Seq<char>| #[trigger] names_of(list@).contains(n) <==> (names_of(was).contains(n)
                || n == context@) by {
                if names_of(was).contains(n) {
                    let i = choose|i: int| 0 <= i < was.len() && (#[trigger] was[i])@ == n;
                    assert(list@[i]@ == n);
                }
                if n == context@ {
                    assert(list@[was.len() as int]@ == n);
                }
                if names_of(list@).contains(n) {
                    let i = choose|i: int| 0 <= i < list@.len() && (#[trigger] list@[i])@ == n;
                    if i < was.len() {
                        assert(was[i]@ == n);
                    }
                }
            }
            assert(names_of(list@) =~= names_of(was).insert(context@));
            if !m.contexts.contains_key(action) {
                assert(names_of(was) =~= Set::<Seq<char>>::empty());
                assert(names_of(list@) =~= set![context@]);
            }
        }
        self.contexts.insert(action, list);
        assert(self@.contexts =~= m.contexts.insert(
            action,
            if m.contexts.contains_key(action) {
                m.contexts[action].insert(context@)
            } else {
                set![context@]
            },
        ));
        assert(self@.bindings =~= m.bindings);
        self
    }

    /// All bindings driving `action` (empty if unbound).
    pub fn bindings_for(&self, action: &A) -> (list: Vec<Binding>)
        requires
            lawful::<A>(),
        ensures
            list@ == bindings_of(self@, *action),
    {
        broadcast use vstd::std_specs::hash::group_hash_axioms;

        let mut out: Vec<Binding> = Vec::new();
        match self.bindings.get(action) {
            Some(list) => {
                let mut i: usize = 0;
                while i < list.len()
                    invariant
                        i <= list@.len(),
                        out@ == list@.take(i as int),
                    decreases list@.len() - i,
                {
                    out.push(list[i]);
                    i += 1;
                    assert(out@ =~= list@.take(i as int));
                }
                assert(list@.take(i as int) =~= list@);
            },
            None => {},
        }
        out
    }

    /// Actions holding at least one binding, each once, in no particular
    /// order.
    pub fn actions(&self) -> (out: Vec<A>)
        requires
            lawful::<A>(),
        ensures
            out@.no_duplicates(),
            forall|a: A| #[trigger] out@.contains(a) <==> self@.bindings.contains_key(a),
    {
        broadcast use vstd::std_specs::hash::group_hash_axioms;

        let mut out: Vec<A> = Vec::new();
        let ghost keys = self.bindings@.dom();
        for k in it: self.bindings.keys()
            invariant
                lawful::<A>(),
                it.seq().unref().to_set() == keys,
                it.seq().no_duplicates(),
                out@ == it.seq().unref().take(it.index() as int),
                it.index() == it.seq().len() ==> out@ == it.seq().unref(),
                out@.no_duplicates(),
        {
            let a: A = k.clone();
            assert(call_ensures(A::clone, (k,), a));
            proof {
                assert(*k == it.seq().unref()[it.index() as int]);
                assert forall|j: int| 0 <= j < out@.len() implies out@[j] != a by {
                    assert(out@[j] == it.seq().unref()[j]);
                    assert(it.seq()[j] != it.seq()[it.index() as int]);
                }
            }
            out.push(a);
            proof {
                assert(out@ =~= it.seq().unref().take(it.index() + 1));
                assert(it.index() + 1 == it.seq().len() ==> out@ =~= it.seq().unref());
            }
        }
        proof {
            assert(out@.to_set() == keys);
            assert forall|a: A| #[trigger] out@.contains(a) <==> self@.bindings.contains_key(a) by {
                assert(out@.contains(a) <==> out@.to_set().contains(a));
            }
        }
        out
    }

    /// True when the map defines any context.
    pub fn has_contexts(&self) -> (r: bool)
        requires
            lawful::<A>(),
        ensures
            r == (self@.contexts.dom().len() != 0),
    {
        broadcast use vstd::std_specs::hash::group_hash_axioms;

        assert(self@.contexts.dom() =~= self.contexts@.dom());
        self.contexts.len() != 0
    }

    /// True when `action` may fire under `active` contexts.
    pub fn live_in(&self, action: &A, active: &Vec<String>) -> (r: bool)
        requires
            lawful::<A>(),
        ensures
            r == live_under(self@, *action, names_of(active@)),
    {
        broadcast use vstd::std_specs::hash::group_hash_axioms;

        match self.contexts.get(action) {
            Some(list) => {
                let ghost mine = names_of(list@);
                assert(self@.contexts[*action] == mine);
                let mut i: usize = 0;
                while i < list.len()
                    invariant
                        i <= list@.len(),
                        mine == names_of(list@),
                        self@.contexts.contains_key(*action),
                        self@.contexts[*action] == mine,
                        forall|j: int|
                            0 <= j < i ==> !names_of(active@).contains((#[trigger] list@[j])@),
                    decreases list@.len() - i,
                {
                    if holds_name(active, list[i].as_str()) {
                        assert(mine.contains(list@[i as int]@));
                        return true;
                    }
                    i += 1;
                }
                proof {
                    assert forall|n: Seq<char>| !(#[trigger] mine.contains(n) && names_of(
                        active@,
                    ).contains(n)) by {
                        if mine.contains(n) {
                            let k = choose|k: int| 0 <= k < list@.len() && (#[trigger] list@[k])@
                                == n;
                        }
                    }
                }
                false
            },
            None => true,
        }
    }
}

/// An action in no context fires under any active set; one in contexts
/// fires exactly where one of them is active.
pub proof fn law_contexts_gate_their_members<A>(
    m: ActionMapModel<A>,
    action: A,
    active: Set<Seq<char>>,
    name: Seq<char>,
)
    ensures
        !m.contexts.contains_key(action) ==> live_under(m, action, active),
        m.contexts.contains_key(action) && m.contexts[action].contains(name) ==> live_under(
            m,
            action,
            active.insert(name),
        ),
        m.contexts.contains_key(action) && m.contexts[action].disjoint(active) ==> !live_under(
            m,
            action,
            active,
        ),
        m.contexts.contains_key(action) ==> !live_under(m, action, Set::empty()),
        live_under(m, action, active) ==> live_under(m, action, active.insert(name)),
{
    if live_under(m, action, active) && m.contexts.contains_key(action) {
        let n = choose|n: Seq<char>| #[trigger]
            m.contexts[action].contains(n) && active.contains(n);
        assert(active.insert(name).contains(n));
    }
}

/// The sources of an action are those that the map lists for it, in order;
/// an action that the map does not list has none.
pub proof fn law_unlisted_actions_have_no_sources<A>(m: ActionMapModel<A>, action: A)
    ensures
        !m.bindings.contains_key(action) ==> bindings_of(m, action).len() == 0,
        m.bindings.contains_key(action) ==> bindings_of(m, action) == m.bindings[action],
{
}

/// A list has the names of its members and no others.
pub proof fn law_lists_have_their_members_names(list: Seq<String>, put: String, n: Seq<char>)
    ensures
        !names_of(Seq::empty()).contains(n),
        names_of(list.push(put)).contains(n) <==> names_of(list).contains(n) || put@ == n,
{
    let all = list.push(put);
    if names_of(list).contains(n) {
        let i = choose|i: int| 0 <= i < list.len() && (#[trigger] list[i])@ == n;
        assert(all[i]@ == n);
    }
    if put@ == n {
        assert(all[list.len() as int]@ == n);
    }
    if names_of(all).contains(n) {
        let i = choose|i: int| 0 <= i < all.len() && (#[trigger] all[i])@ == n;
        if i < list.len() {
            assert(list[i]@ == n);
        }
    }
}

} // verus!

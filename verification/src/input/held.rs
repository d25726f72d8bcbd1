//! Held-level repair against the platform snapshot.
//!
//! Events own press edges; the polled list only repairs missed releases
//! (release outside the window, swallowed key-up) and missed presses (down
//! while unfocused). Never synthesizes edges, so repaired levels cannot
//! double-fire gameplay pulses or shortcut actions.

use super::actions::{self, holds_name};
use std::collections::HashSet;
use std::hash::Hash;
use vstd::prelude::*;

verus! {

/// The name may be read as the code.
pub open spec fn may_read<C, F: Fn(&str) -> Option<C>>(f: F, name: Seq<char>, code: C) -> bool {
    exists|s: &str| s@ == name && #[trigger] call_ensures(f, (s,), Some(code))
}

/// The name is read as the code and nothing else.
pub open spec fn must_read<C, F: Fn(&str) -> Option<C>>(f: F, name: Seq<char>, code: C) -> bool {
    forall|s: &str, r: Option<C>|
        s@ == name && #[trigger] call_ensures(f, (s,), r) ==> r == Some(code)
}

/// One of the driving names is down, or nothing drives the level.
pub open spec fn driven(names: Option<&[&str]>, down: Set<Seq<char>>) -> bool {
    match names {
        None => true,
        Some(list) => one_down(list@, down),
    }
}

/// One of the names is down.
pub open spec fn one_down(names: Seq<&str>, down: Set<Seq<char>>) -> bool {
    exists|k: int| 0 <= k < names.len() && down.contains((#[trigger] names[k])@)
}

/// The level may stay.
pub open spec fn may_keep<C, F: Fn(&C) -> Option<&'static [&'static str]>>(
    f: F,
    code: C,
    down: Set<Seq<char>>,
) -> bool {
    exists|r: Option<&'static [&'static str]>| #[trigger]
        call_ensures(f, (&code,), r) && driven(r, down)
}

/// The level stays.
pub open spec fn must_keep<C, F: Fn(&C) -> Option<&'static [&'static str]>>(
    f: F,
    code: C,
    down: Set<Seq<char>>,
) -> bool {
    forall|r: Option<&'static [&'static str]>| #[trigger]
        call_ensures(f, (&code,), r) ==> driven(r, down)
}

/// `after` are the levels of `before` plus those of the polled names,
/// without those whose driving names are all up. Where the two readings
/// answer in one way only, this fixes `after`.
pub open spec fn reconciled<
    C,
    F: Fn(&str) -> Option<C>,
    G: Fn(&C) -> Option<&'static [&'static str]>,
>(before: Set<C>, after: Set<C>, polled: Seq<String>, code_for: F, names_for: G) -> bool {
    &&& forall|c: C| #[trigger]
        after.contains(c) ==> (before.contains(c) || exists|i: int|
            0 <= i < polled.len() && may_read(code_for, (#[trigger] polled[i])@, c)) && may_keep(
            names_for,
            c,
            actions::names_of(polled),
        )
    &&& forall|c: C|
        (before.contains(c) || exists|i: int|
            0 <= i < polled.len() && must_read(code_for, (#[trigger] polled[i])@, c))
            && must_keep(names_for, c, actions::names_of(polled)) ==> #[trigger] after.contains(
            c,
        )
}

/// Reconcile an event-staged held set against polled hardware truth.
///
/// - `staged`: the game's level set, mutated in place.
/// - `polled`: names of the positions currently down.
/// - `code_for`: polled name -> staged code (`None` = unread key).
/// - `names_for`: staged code -> driving names; `None` means "no physical
///   source" (leave the level alone).
///
/// Levels only: inserts polled-down codes, drops codes whose names are all
/// up. Callers stage edges exclusively from events.
pub fn reconcile_held<C: Eq + Hash + Clone>(
    staged: &mut HashSet<C>,
    polled: &Vec<String>,
    code_for: impl Fn(&str) -> Option<C>,
    names_for: impl Fn(&C) -> Option<&'static [&'static str]>,
)
    requires
        actions::lawful::<C>(),
        forall|s: &str| #[trigger] call_requires(code_for, (s,)),
        forall|c: &C| #[trigger] call_requires(names_for, (c,)),
    ensures
        reconciled(old(staged)@, final(staged)@, polled@, code_for, names_for),
{
    broadcast use vstd::std_specs::hash::group_hash_axioms;

    let ghost before = staged@;
    let ghost down = actions::names_of(polled@);
    let mut i: usize = 0;
    while i < polled.len()
        invariant
            i <= polled@.len(),
            actions::lawful::<C>(),
            forall|s: &str| #[trigger] call_requires(code_for, (s,)),
            forall|c: C| #[trigger]
                staged@.contains(c) ==> before.contains(c) || exists|k: int|
                    0 <= k < i && may_read(code_for, (#[trigger] polled@[k])@, c),
            forall|c: C|
                before.contains(c) || (exists|k: int|
                    0 <= k < i && must_read(code_for, (#[trigger] polled@[k])@, c))
                    ==> #[trigger] staged@.contains(c),
        decreases polled@.len() - i,
    {
        let ghost was = staged@;
        let name = polled[i].as_str();
        let read = code_for(name);
        assert(call_ensures(code_for, (name,), read));
        assert(name@ == polled@[i as int]@);
        match read {
            Some(code) => {
                staged.insert(code);
                assert(may_read(code_for, polled@[i as int]@, code));
            },
            None => {},
        }
        i += 1;
    }
    let ghost full = staged@;
    // Codes to drop: those with names, none of them down.
    let mut drops: Vec<C> = Vec::new();
    for code in it: staged.iter()
        invariant
            actions::lawful::<C>(),
            forall|c: &C| #[trigger] call_requires(names_for, (c,)),
            down == actions::names_of(polled@),
            it.seq().unref().to_set() == full,
            forall|j: int|
                0 <= j < it.index() ==> {
                    let c = #[trigger] it.seq().unref()[j];
                    ||| drops@.contains(c)
                    ||| may_keep(names_for, c, down)
                },
            it.index() == it.seq().len() ==> forall|c: C|
                full.contains(c) ==> #[trigger] drops@.contains(c) || may_keep(names_for, c, down),
            forall|c: C| #[trigger] drops@.contains(c) ==> !must_keep(names_for, c, down),
    {
        let names = names_for(code);
        assert(call_ensures(names_for, (code,), names));
        let keep = any_down(names, polled);
        let ghost was = drops@;
        if !keep {
            let copy: C = code.clone();
            assert(call_ensures(C::clone, (code,), copy));
            drops.push(copy);
            proof {
                assert(drops@[was.len() as int] == *code);
                assert forall|c: C| #[trigger] was.contains(c) implies drops@.contains(c) by {
                    let k = choose|k: int| 0 <= k < was.len() && was[k] == c;
                    assert(drops@[k] == c);
                }
                assert forall|c: C| #[trigger] drops@.contains(c) implies !must_keep(
                    names_for,
                    c,
                    down,
                ) by {
                    let k = choose|k: int| 0 <= k < drops@.len() && drops@[k] == c;
                    if k < was.len() {
                        assert(was[k] == c);
                        assert(was.contains(c));
                    }
                }
            }
        } else {
            assert(may_keep(names_for, *code, down));
        }
        proof {
            assert(*code == it.seq().unref()[it.index() as int]);
            assert forall|j: int| 0 <= j < it.index() + 1 implies ({
                let c = #[trigger] it.seq().unref()[j];
                ||| drops@.contains(c)
                ||| may_keep(names_for, c, down)
            }) by {}
            assert(it.index() + 1 == it.seq().len() ==> forall|c: C|
                full.contains(c) ==> #[trigger] drops@.contains(c) || may_keep(
                    names_for,
                    c,
                    down,
                )) by {
                assert forall|c: C|
                    it.index() + 1 == it.seq().len() && full.contains(
                        c,
                    ) implies #[trigger] drops@.contains(c) || may_keep(names_for, c, down) by {
                    assert(it.seq().unref().to_set().contains(c));
                    assert(it.seq().unref().contains(c));
                }
            }
        }
    }
    let mut k: usize = 0;
    while k < drops.len()
        invariant
            k <= drops@.len(),
            actions::lawful::<C>(),
            forall|c: C| #[trigger]
                staged@.contains(c) <==> full.contains(c) && !drops@.take(k as int).contains(c),
        decreases drops@.len() - k,
    {
        let ghost x = drops@[k as int];
        let ghost was = staged@;
        staged.remove(&drops[k]);
        proof {
            assert(drops@.take(k + 1) =~= drops@.take(k as int).push(x));
            let seen = drops@.take(k as int);
            assert forall|c: C| #[trigger] seen.push(x).contains(c) <==> (seen.contains(c) || c
                == x) by {
                if seen.contains(c) {
                    let j = choose|j: int| 0 <= j < seen.len() && seen[j] == c;
                    assert(seen.push(x)[j] == c);
                }
                if c == x {
                    assert(seen.push(x)[k as int] == c);
                }
                if seen.push(x).contains(c) {
                    let j = choose|j: int| 0 <= j < seen.push(x).len() && seen.push(x)[j] == c;
                    if j < k {
                        assert(seen[j] == c);
                    }
                }
            }
        }
        k += 1;
    }
    assert(drops@.take(k as int) =~= drops@);
}

/// Whether one of the names is polled down; true when there are none to ask.
fn any_down(names: Option<&'static [&'static str]>, polled: &Vec<String>) -> (r: bool)
    ensures
        r == driven(names, actions::names_of(polled@)),
{
    match names {
        None => true,
        Some(list) => {
            let mut i: usize = 0;
            while i < list.len()
                invariant
                    names == Some(list),
                    i <= list@.len(),
                    forall|j: int|
                        0 <= j < i ==> !actions::names_of(polled@).contains(
                            (#[trigger] list@[j])@,
                        ),
                decreases list@.len() - i,
            {
                if holds_name(polled, list[i]) {
                    let ghost down = actions::names_of(polled@);
                    assert(down.contains(list@[i as int]@));
                    assert(one_down(list@, down));
                    return true;
                }
                i += 1;
            }
            false
        },
    }
}

/// A code that is driven by no name stays on its own; one that is driven by
/// names stays exactly while one of them is down.
pub proof fn law_driven_codes_follow_their_names(
    names: Option<&[&str]>,
    down: Set<Seq<char>>,
    k: int,
)
    ensures
        names is None ==> driven(names, down),
        names matches Some(list) ==> 0 <= k < list@.len() && down.contains(list@[k]@) ==> driven(
            names,
            down,
        ),
        names matches Some(list) ==> (forall|j: int|
            0 <= j < list@.len() ==> !down.contains((#[trigger] list@[j])@)) ==> !driven(
            names,
            down,
        ),
{
}

/// After a poll a held code is one that was staged or that a polled name
/// stands for, and is driven; a staged code that no name drives is kept,
/// and one whose names are all up is dropped.
pub proof fn law_polls_decide_what_is_held<
    C,
    F: Fn(&str) -> Option<C>,
    G: Fn(&C) -> Option<&'static [&'static str]>,
>(before: Set<C>, after: Set<C>, polled: Seq<String>, code_for: F, names_for: G, code: C)
    requires
        reconciled(before, after, polled, code_for, names_for),
    ensures
        before.contains(code) && (forall|r: Option<&'static [&'static str]>| #[trigger]
            call_ensures(names_for, (&code,), r) ==> r is None) ==> after.contains(code),
        before.contains(code) && (forall|r: Option<&'static [&'static str]>| #[trigger]
            call_ensures(names_for, (&code,), r) ==> driven(r, actions::names_of(polled)))
            ==> after.contains(code),
        (forall|r: Option<&'static [&'static str]>| #[trigger]
            call_ensures(names_for, (&code,), r) ==> !driven(r, actions::names_of(polled)))
            ==> !after.contains(code),
        !before.contains(code) && (forall|i: int|
            0 <= i < polled.len() ==> !may_read(code_for, (#[trigger] polled[i])@, code))
            ==> !after.contains(code),
        forall|i: int|
            0 <= i < polled.len() && must_read(code_for, (#[trigger] polled[i])@, code)
                && must_keep(names_for, code, actions::names_of(polled)) ==> after.contains(code),
{
}

} // verus!

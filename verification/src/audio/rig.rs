//! Rig events to cues.

use crate::audio::bank::{self, Shape, SoundBank};
use crate::audio::channels::{self, AudioState};
use crate::audio::command;
use crate::names::NameMap;
use vstd::prelude::*;

verus! {

/// Event names to cue names. The map of a rig wins over the fallback.
pub struct RigAudio {
    rigs: NameMap<NameMap<String>>,
    fallback: NameMap<String>,
}

#[verifier::ext_equal]
pub struct RigModel {
    pub rigs: Map<Seq<char>, Map<Seq<char>, Seq<char>>>,
    pub fallback: Map<Seq<char>, Seq<char>>,
}

/// The cue of an event of a rig.
pub open spec fn resolved(m: RigModel, rig: Seq<char>, event: Seq<char>) -> Option<Seq<char>> {
    if m.rigs.contains_key(rig) && m.rigs[rig].contains_key(event) {
        Some(m.rigs[rig][event])
    } else if m.fallback.contains_key(event) {
        Some(m.fallback[event])
    } else {
        None
    }
}

/// The cues of a tick's events, in order; unmapped events have none.
pub open spec fn cues_of(m: RigModel, rig: Seq<char>, events: Seq<String>) -> Seq<Seq<char>>
    decreases events.len(),
{
    if events.len() == 0 {
        Seq::empty()
    } else {
        let rest = cues_of(m, rig, events.drop_last());
        match resolved(m, rig, events.last()@) {
            Some(cue) => rest.push(cue),
            None => rest,
        }
    }
}

/// A bank and its link after a run of plays.
pub struct Run {
    pub cues: Map<Seq<char>, bank::CueModel>,
    pub next_voice: u64,
    pub voices: Seq<u64>,
    pub offers: Seq<command::RealtimeCommand>,
}

/// Plays of `names`, one after the other; `sent` is what went through to the
/// link from the first of them on, and which of it was taken. A play starts
/// where the last of its offers was taken.
pub open spec fn run(
    cues: Map<Seq<char>, bank::CueModel>,
    linked: bool,
    first: u64,
    names: Seq<Seq<char>>,
    shape: Shape,
    now_ms: u64,
    sent: Seq<(command::RealtimeCommand, bool)>,
) -> Run
    decreases names.len(),
{
    if names.len() == 0 {
        Run { cues, next_voice: first, voices: Seq::empty(), offers: Seq::empty() }
    } else {
        let r = run(cues, linked, first, names.drop_last(), shape, now_ms, sent);
        let name = names.last();
        if linked && r.cues.contains_key(name) && !bank::cooling(
            r.cues[name],
            now_ms,
        ) {
            let m = r.cues[name];
            let offers = r.offers + bank::play_offers(m, shape, r.next_voice);
            let taken = sent[offers.len() - 1].1;
            Run {
                cues: r.cues.insert(name, bank::played(m, r.next_voice, now_ms, taken)),
                next_voice: channels::voice_after(r.next_voice),
                voices: if taken {
                    r.voices.push(r.next_voice)
                } else {
                    r.voices
                },
                offers,
            }
        } else {
            r
        }
    }
}

/// A run of plays took the bank from one state to another.
pub open spec fn ran(
    before: SoundBank,
    first: u64,
    names: Seq<Seq<char>>,
    shape: Shape,
    now_ms: u64,
    after: SoundBank,
    next: u64,
    voices: Seq<u64>,
) -> bool {
    let sent = after.log().skip(before.log().len() as int);
    let r = run(before@, before.linked(), first, names, shape, now_ms, sent);
    &&& after@ == r.cues
    &&& next == r.next_voice
    &&& voices == r.voices
    &&& bank::offers_made(before.log(), r.offers, after.log())
}

spec fn names_in(m: NameMap<String>) -> Map<Seq<char>, Seq<char>> {
    m@.map_values(|s: String| s@)
}

impl View for RigAudio {
    type V = RigModel;

    closed spec fn view(&self) -> RigModel {
        RigModel {
            rigs: self.rigs@.map_values(|m: NameMap<String>| names_in(m)),
            fallback: names_in(self.fallback),
        }
    }
}

impl RigAudio {
    pub closed spec fn wf(&self) -> bool {
        &&& self.rigs.wf()
        &&& self.fallback.wf()
        &&& forall|r: Seq<char>| #[trigger] self.rigs@.contains_key(r) ==> self.rigs@[r].wf()
    }

    pub fn new() -> (a: RigAudio)
        ensures
            a.wf(),
            a@ == (RigModel { rigs: Map::empty(), fallback: Map::empty() }),
    {
        let a = RigAudio { rigs: NameMap::new(), fallback: NameMap::new() };
        proof {
            assert(a@.rigs =~= Map::<Seq<char>, Map<Seq<char>, Seq<char>>>::empty());
            assert(a@.fallback =~= Map::<Seq<char>, Seq<char>>::empty());
        }
        a
    }

    /// Route an event of a rig to a cue.
    pub fn map_event(&mut self, rig: &str, event: &str, cue: &str)
        requires
            old(self).wf(),
        ensures
            final(self).wf(),
            final(self)@ == (RigModel {
                rigs: old(self)@.rigs.insert(
                    rig@,
                    (if old(self)@.rigs.contains_key(rig@) {
                        old(self)@.rigs[rig@]
                    } else {
                        Map::empty()
                    }).insert(event@, cue@),
                ),
                ..old(self)@
            }),
    {
        let ghost before = self.rigs@;
        match self.rigs.position(rig) {
            Some(i) => {
                self.rigs.at_mut(i).insert(event, cue.to_owned());
                proof {
                    assert(names_in(self.rigs@[rig@]) =~= names_in(before[rig@]).insert(
                        event@,
                        cue@,
                    ));
                    assert(self@.rigs =~= old(self)@.rigs.insert(
                        rig@,
                        old(self)@.rigs[rig@].insert(event@, cue@),
                    ));
                }
            },
            None => {
                let mut events: NameMap<String> = NameMap::new();
                events.insert(event, cue.to_owned());
                proof {
                    assert(names_in(events) =~= Map::<Seq<char>, Seq<char>>::empty().insert(
                        event@,
                        cue@,
                    ));
                }
                self.rigs.insert(rig, events);
                proof {
                    assert(self@.rigs =~= old(self)@.rigs.insert(
                        rig@,
                        Map::<Seq<char>, Seq<char>>::empty().insert(event@, cue@),
                    ));
                }
            },
        }
    }

    /// Route an event of every rig that has no entry of its own for it.
    pub fn map_event_global(&mut self, event: &str, cue: &str)
        requires
            old(self).wf(),
        ensures
            final(self).wf(),
            final(self)@ == (RigModel {
                fallback: old(self)@.fallback.insert(event@, cue@),
                ..old(self)@
            }),
    {
        self.fallback.insert(event, cue.to_owned());
        proof {
            assert(self@.fallback =~= old(self)@.fallback.insert(event@, cue@));
        }
    }

    /// The cue of an event.
    pub fn resolve(&self, rig: &str, event: &str) -> (r: Option<&str>)
        requires
            self.wf(),
        ensures
            match resolved(self@, rig@, event@) {
                Some(cue) => r is Some && r->0@ == cue,
                None => r is None,
            },
    {
        if let Some(events) = self.rigs.get(rig) {
            if let Some(cue) = events.get(event) {
                return Some(cue.as_str());
            }
        }
        match self.fallback.get(event) {
            Some(cue) => Some(cue.as_str()),
            None => None,
        }
    }

    /// Play the cues of one tick's events, all with the same shape. The
    /// voices that started come back.
    pub fn sync_at(
        &self,
        bank: &mut SoundBank,
        state: &mut AudioState,
        rig: &str,
        events: &Vec<String>,
        shape: Shape,
        now_ms: u64,
    ) -> (voices: Vec<u64>)
        requires
            self.wf(),
            old(bank).wf(),
        ensures
            final(bank).wf(),
            final(bank).linked() == old(bank).linked(),
            *final(state) == (AudioState { next_voice: final(state).next_voice, ..*old(state) }),
            ran(
                *old(bank),
                old(state).next_voice,
                cues_of(self@, rig@, events@),
                shape,
                now_ms,
                *final(bank),
                final(state).next_voice,
                voices@,
            ),
    {
        let mut voices: Vec<u64> = Vec::new();
        let ghost base = bank.log();
        let mut i: usize = 0;
        assert(base.take(base.len() as int) =~= base);
        while i < events.len()
            invariant
                i <= events.len(),
                base == old(bank).log(),
                self.wf(),
                bank.wf(),
                bank.linked() == old(bank).linked(),
                *state == (AudioState { next_voice: state.next_voice, ..*old(state) }),
                ran(
                    *old(bank),
                    old(state).next_voice,
                    cues_of(self@, rig@, events@.take(i as int)),
                    shape,
                    now_ms,
                    *bank,
                    state.next_voice,
                    voices@,
                ),
            decreases events.len() - i,
        {
            proof {
                assert(events@.take(i + 1).drop_last() =~= events@.take(i as int));
            }
            let ghost names = cues_of(self@, rig@, events@.take(i as int));
            let ghost mid = bank.log();
            let ghost r = run(
                old(bank)@,
                old(bank).linked(),
                old(state).next_voice,
                names,
                shape,
                now_ms,
                mid.skip(base.len() as int),
            );
            if let Some(cue) = self.resolve(rig, events[i].as_str()) {
                let ghost name = cue@;
                let ghost goes = bank.ready(name, now_ms);
                let started = bank.play_at_ms(state, cue, shape, now_ms);
                proof {
                    let after = bank.log();
                    assert(names.push(name).drop_last() =~= names);
                    if goes {
                        let offers = bank::play_offers(r.cues[name], shape, r.next_voice);
                        lemma_offers_join(base, r.offers, mid, offers, after);
                        let (sent, more) = (
                            mid.skip(base.len() as int),
                            after.skip(base.len() as int),
                        );
                        assert forall|k: int| 0 <= k < r.offers.len() implies #[trigger] sent[k]
                            == more[k] by {
                            assert(after.take(mid.len() as int)[base.len() + k] == mid[base.len()
                                + k]);
                        }
                        lemma_run_by_prefix(
                            old(bank)@,
                            old(bank).linked(),
                            old(state).next_voice,
                            names,
                            shape,
                            now_ms,
                            sent,
                            more,
                        );
                    }
                }
                if let Some((id, _)) = started {
                    voices.push(id);
                }
            }
            i += 1;
        }
        proof {
            assert(events@.take(events@.len() as int) =~= events@);
        }
        voices
    }

    /// Play the cues of one tick's events at the listener.
    pub fn sync(
        &self,
        bank: &mut SoundBank,
        state: &mut AudioState,
        rig: &str,
        events: &Vec<String>,
        now_ms: u64,
    ) -> (voices: Vec<u64>)
        requires
            self.wf(),
            old(bank).wf(),
        ensures
            final(bank).wf(),
            final(bank).linked() == old(bank).linked(),
            *final(state) == (AudioState { next_voice: final(state).next_voice, ..*old(state) }),
            ran(
                *old(bank),
                old(state).next_voice,
                cues_of(self@, rig@, events@),
                bank::plain_shape(),
                now_ms,
                *final(bank),
                final(state).next_voice,
                voices@,
            ),
    {
        self.sync_at(bank, state, rig, events, Shape::default(), now_ms)
    }
}

/// A run goes by what its own offers came to.
proof fn lemma_run_by_prefix(
    cues: Map<Seq<char>, bank::CueModel>,
    linked: bool,
    first: u64,
    names: Seq<Seq<char>>,
    shape: Shape,
    now_ms: u64,
    sent: Seq<(command::RealtimeCommand, bool)>,
    more: Seq<(command::RealtimeCommand, bool)>,
)
    requires
        ({
            let n = run(cues, linked, first, names, shape, now_ms, sent).offers.len();
            forall|k: int| 0 <= k < n ==> #[trigger] sent[k] == more[k]
        }),
    ensures
        run(cues, linked, first, names, shape, now_ms, sent) == run(
            cues,
            linked,
            first,
            names,
            shape,
            now_ms,
            more,
        ),
    decreases names.len(),
{
    if names.len() > 0 {
        lemma_run_by_prefix(cues, linked, first, names.drop_last(), shape, now_ms, sent, more);
    }
}

/// Offers after offers are offers of both lists.
proof fn lemma_offers_join(
    before: Seq<(command::RealtimeCommand, bool)>,
    a: Seq<command::RealtimeCommand>,
    mid: Seq<(command::RealtimeCommand, bool)>,
    b: Seq<command::RealtimeCommand>,
    after: Seq<(command::RealtimeCommand, bool)>,
)
    requires
        bank::offers_made(before, a, mid),
        bank::offers_made(mid, b, after),
    ensures
        bank::offers_made(before, a + b, after),
{
    assert(after.take(before.len() as int) =~= before) by {
        assert forall|j: int| 0 <= j < before.len() implies after[j] == before[j] by {
            assert(after.take(mid.len() as int)[j] == mid[j]);
            assert(mid.take(before.len() as int)[j] == before[j]);
        }
    }
    assert forall|k: int| 0 <= k < (a + b).len() implies (#[trigger] after[before.len() + k]).0 == (
    a + b)[k] by {
        if k < a.len() {
            assert(after.take(mid.len() as int)[before.len() + k] == mid[before.len() + k]);
            assert(mid[before.len() + k].0 == a[k]);
        } else {
            assert(after[mid.len() + (k - a.len())].0 == b[k - a.len()]);
        }
    }
}

/// A rig's own entry wins, and the fallback only speaks where there is
/// none.
pub proof fn law_rig_entries_win(
    m: RigModel,
    rig: Seq<char>,
    event: Seq<char>,
    own: Seq<char>,
    global: Seq<char>,
)
    ensures
        ({
            let events = if m.rigs.contains_key(rig) {
                m.rigs[rig]
            } else {
                Map::empty()
            };
            let a = RigModel {
                rigs: m.rigs.insert(rig, events.insert(event, own)),
                fallback: m.fallback.insert(event, global),
            };
            resolved(a, rig, event) == Some(own)
        }),
        ({
            let b = RigModel { fallback: m.fallback.insert(event, global), ..m };
            !(m.rigs.contains_key(rig) && m.rigs[rig].contains_key(event)) ==> resolved(
                b,
                rig,
                event,
            ) == Some(global)
        }),
{
}

/// Events play the cues they are mapped to, in their order; those that are
/// not mapped play nothing.
pub proof fn law_events_play_their_cues(m: RigModel, rig: Seq<char>, events: Seq<String>, k: int)
    requires
        0 <= k < events.len(),
    ensures
        cues_of(m, rig, events).len() <= events.len(),
        resolved(m, rig, events[k]@) matches Some(cue) ==> cues_of(m, rig, events).contains(cue),
        (forall|j: int|
            0 <= j < events.len() ==> resolved(m, rig, (#[trigger] events[j])@) is Some) ==> cues_of(
            m,
            rig,
            events,
        ).len() == events.len() && cues_of(m, rig, events)[k] == resolved(m, rig, events[k]@)->0,
        (forall|j: int|
            0 <= j < events.len() ==> resolved(m, rig, (#[trigger] events[j])@) is None) ==> cues_of(
            m,
            rig,
            events,
        ).len() == 0,
    decreases events.len(),
{
    let front = events.drop_last();
    let (some, all) = (cues_of(m, rig, front), cues_of(m, rig, events));
    assert(events[events.len() - 1] == events.last());
    if front.len() == 0 {
        assert(some.len() == 0);
        if resolved(m, rig, events[k]@) is Some {
            assert(all[0] == resolved(m, rig, events[k]@)->0);
        }
    } else {
        let j = if k < front.len() {
            k
        } else {
            0
        };
        law_events_play_their_cues(m, rig, front, j);
        assert forall|i: int| 0 <= i < front.len() implies #[trigger] front[i] == events[i] by {}
        if let Some(cue) = resolved(m, rig, events[k]@) {
            if k < front.len() {
                let i = choose|i: int| 0 <= i < some.len() && some[i] == cue;
                assert(all[i] == cue);
            } else {
                assert(all[all.len() - 1] == cue);
            }
        }
    }
}

/// A run of plays does nothing without a link. With one, a single cue that
/// is known and not cooling offers its play under the first id, which is a
/// voice of the run if the last of the offers was taken; a cue that is
/// unknown or cooling is passed over and uses no id.
pub proof fn law_runs_play_known_cues(
    cues: Map<Seq<char>, bank::CueModel>,
    linked: bool,
    first: u64,
    names: Seq<Seq<char>>,
    shape: Shape,
    now_ms: u64,
    sent: Seq<(command::RealtimeCommand, bool)>,
)
    ensures
        ({
            let r = run(cues, linked, first, names, shape, now_ms, sent);
            &&& !linked ==> r.cues == cues && r.next_voice == first && r.voices.len() == 0
                && r.offers.len() == 0
            &&& r.voices.len() <= names.len()
            &&& r.cues.dom() == cues.dom()
            &&& names.len() == 1 && linked && cues.contains_key(names[0]) && !bank::cooling(
                cues[names[0]],
                now_ms,
            ) ==> {
                let offers = bank::play_offers(cues[names[0]], shape, first);
                &&& r.offers == offers
                &&& r.next_voice == channels::voice_after(first)
                &&& r.voices == if sent[offers.len() - 1].1 {
                    seq![first]
                } else {
                    Seq::empty()
                }
            }
            &&& names.len() == 1 && (!cues.contains_key(names[0]) || bank::cooling(
                cues[names[0]],
                now_ms,
            )) ==> r.cues == cues && r.next_voice == first && r.offers.len() == 0
        }),
    decreases names.len(),
{
    let r = run(cues, linked, first, names, shape, now_ms, sent);
    if names.len() > 0 {
        let front = names.drop_last();
        law_runs_play_known_cues(cues, linked, first, front, shape, now_ms, sent);
        assert(r.cues.dom() =~= cues.dom());
        if names.len() == 1 {
            assert(front.len() == 0);
            assert(names.last() == names[0]);
            assert(r.offers =~= if linked && cues.contains_key(names[0]) && !bank::cooling(
                cues[names[0]],
                now_ms,
            ) {
                bank::play_offers(cues[names[0]], shape, first)
            } else {
                Seq::empty()
            });
        }
    }
}

/// A run leaves the cues, the next id and the voices of its plays, and has
/// made their offers behind the ones before.
pub proof fn law_runs_hand_on_what_they_played(
    before: SoundBank,
    first: u64,
    names: Seq<Seq<char>>,
    shape: Shape,
    now_ms: u64,
    after: SoundBank,
    next: u64,
    voices: Seq<u64>,
)
    requires
        ran(before, first, names, shape, now_ms, after, next, voices),
    ensures
        ({
            let sent = after.log().skip(before.log().len() as int);
            let r = run(before@, before.linked(), first, names, shape, now_ms, sent);
            &&& voices.len() == r.voices.len()
            &&& forall|k: int| 0 <= k < voices.len() ==> #[trigger] voices[k] == r.voices[k]
            &&& next == r.next_voice
            &&& after@ == r.cues
            &&& after.log().len() == before.log().len() + r.offers.len()
        }),
{
}

} // verus!

//! The search engine's cancellation protocol.
//!
//! One generation counter identifies each search request. The worker holds at
//! most one search in flight; a new input or an explicit kill cancels it. A
//! finished search is delivered only when its generation is still the current
//! one and above the kill mark, so the UI never observes a stale batch.
//!
//! The protocol is modelled by [`proto_step`] over an abstract state
//! `(generation, killed, pending)`; each executable method of [`Engine`]
//! ensures it performs exactly one protocol step, so the theorems proved over
//! [`proto_run`] — one delivery per generation, nothing after a kill — hold
//! of every sequence of calls.

use vstd::prelude::*;
use crate::plugin::{Action, Command, Label, Registry};
use crate::search::{all_labels, entry_ok, labels_of, run_search, scored, strict_sorted, Entry};

verus! {

/// What reaches the worker between two searches.
#[derive(Clone, Copy, PartialEq, Eq, Structural)]
pub enum ProtoEvent {
    /// A new input arrived: the current generation is cancelled and a fresh
    /// search starts for the next one.
    Input,
    /// The in-flight search, if any, is cancelled.
    Kill,
    /// The in-flight search finished and asks to be delivered.
    Finish,
}

/// Start state: generation zero, nothing killed, nothing in flight.
pub open spec fn proto_init() -> (nat, nat, Option<nat>) {
    (0, 0, None)
}

/// One protocol step: the state after the event, and the generation delivered
/// by it, if any. Only an uncancelled, still-current finish delivers.
pub open spec fn proto_step(s: (nat, nat, Option<nat>), e: ProtoEvent) -> (
    (nat, nat, Option<nat>),
    Option<nat>,
) {
    match e {
        ProtoEvent::Input => (((s.0 + 1) as nat, s.0, Some((s.0 + 1) as nat)), None),
        ProtoEvent::Kill => ((s.0, s.0, None), None),
        ProtoEvent::Finish => match s.2 {
            Some(g) => if g == s.0 && g > s.1 {
                ((s.0, s.1, None), Some(g))
            } else {
                ((s.0, s.1, None), None)
            },
            None => (s, None),
        },
    }
}

/// The protocol run over a whole event sequence: final state and the
/// generations delivered, in order.
pub open spec fn proto_run(s: (nat, nat, Option<nat>), events: Seq<ProtoEvent>) -> (
    (nat, nat, Option<nat>),
    Seq<nat>,
)
    decreases events.len(),
{
    if events.len() == 0 {
        (s, Seq::empty())
    } else {
        let first = proto_step(s, events[0]);
        let rest = proto_run(first.0, events.drop_first());
        (
            rest.0,
            match first.1 {
                Some(g) => seq![g] + rest.1,
                None => rest.1,
            },
        )
    }
}

/// The kill mark never passes the generation, and an in-flight search is
/// always for the current, uncancelled generation.
pub open spec fn proto_inv(s: (nat, nat, Option<nat>)) -> bool {
    &&& s.1 <= s.0
    &&& match s.2 {
        Some(g) => g == s.0 && g > s.1,
        None => true,
    }
}

/// Everything a run preserves and guarantees: the invariant; monotone
/// generation and kill mark; every delivery lies above the starting kill mark
/// and within the final generation; deliveries strictly increase; nothing at
/// or below the start generation is delivered once nothing was in flight; and
/// a search left in flight at the end lies above everything delivered.
pub proof fn lemma_proto_run(s: (nat, nat, Option<nat>), events: Seq<ProtoEvent>)
    requires
        proto_inv(s),
    ensures
        ({
            let r = proto_run(s, events);
            &&& proto_inv(r.0)
            &&& s.0 <= r.0.0
            &&& s.1 <= r.0.1
            &&& forall|i: int| 0 <= i < r.1.len() ==> s.1 < #[trigger] r.1[i] <= r.0.0
            &&& (s.2 is None ==> forall|i: int| 0 <= i < r.1.len() ==> #[trigger] r.1[i] > s.0)
            &&& (forall|g: nat|
                s.2 == Some(g) ==> forall|i: int| 0 <= i < r.1.len() ==> #[trigger] r.1[i] >= g)
            &&& forall|i: int, j: int| 0 <= i < j < r.1.len() ==> r.1[i] < r.1[j]
            &&& (r.0.2 is Some ==> forall|i: int| 0 <= i < r.1.len() ==> #[trigger] r.1[i]
                <= r.0.1)
            &&& (s.2 is None && r.0.2 is Some ==> r.0.1 >= s.0)
        }),
    decreases events.len(),
{
    if events.len() > 0 {
        let first = proto_step(s, events[0]);
        lemma_proto_run(first.0, events.drop_first());
    }
}

/// No generation is ever delivered twice: the UI observes at most one
/// entry batch per generation.
pub proof fn theorem_one_delivery_per_generation(events: Seq<ProtoEvent>)
    ensures
        ({
            let em = proto_run(proto_init(), events).1;
            forall|i: int, j: int| 0 <= i < j < em.len() ==> em[i] != em[j]
        }),
{
    lemma_proto_run(proto_init(), events);
}

/// A run splits at any point: state threads through, deliveries concatenate.
pub proof fn lemma_proto_run_split(
    s: (nat, nat, Option<nat>),
    a: Seq<ProtoEvent>,
    b: Seq<ProtoEvent>,
)
    ensures
        ({
            let ra = proto_run(s, a);
            let rb = proto_run(ra.0, b);
            proto_run(s, a + b) == (rb.0, ra.1 + rb.1)
        }),
    decreases a.len(),
{
    let ra = proto_run(s, a);
    let rb = proto_run(ra.0, b);
    if a.len() == 0 {
        assert(a + b =~= b);
        assert(Seq::<nat>::empty() + rb.1 =~= rb.1);
    } else {
        let first = proto_step(s, a[0]);
        assert((a + b).drop_first() =~= a.drop_first() + b);
        lemma_proto_run_split(first.0, a.drop_first(), b);
        let ra1 = proto_run(first.0, a.drop_first());
        let rb1 = proto_run(ra1.0, b);
        match first.1 {
            Some(g) => {
                assert((seq![g] + ra1.1) + rb1.1 =~= seq![g] + (ra1.1 + rb1.1));
            },
            None => {},
        }
    }
}

/// A cancelled generation is never delivered: if a kill or a new input
/// arrives while a search is in flight, that search's generation appears in
/// no delivery of the whole run — neither before (it had not finished) nor
/// after (the kill mark has passed it).
pub proof fn theorem_cancelled_never_delivered(events: Seq<ProtoEvent>, k: int, g: nat)
    requires
        0 <= k < events.len(),
        proto_run(proto_init(), events.take(k)).0.2 == Some(g),
        events[k] == ProtoEvent::Kill || events[k] == ProtoEvent::Input,
    ensures
        ({
            let em = proto_run(proto_init(), events).1;
            forall|i: int| 0 <= i < em.len() ==> #[trigger] em[i] != g
        }),
{
    let pre = events.take(k);
    let post = events.skip(k);
    assert(events =~= pre + post);
    lemma_proto_run_split(proto_init(), pre, post);
    let rpre = proto_run(proto_init(), pre);
    lemma_proto_run(proto_init(), pre);
    let sk = rpre.0;
    assert(forall|i: int| 0 <= i < rpre.1.len() ==> #[trigger] rpre.1[i] <= sk.1);
    assert(post.len() > 0 && post[0] == events[k]);
    let first = proto_step(sk, post[0]);
    assert(first.1 is None);
    assert(first.0.1 >= g);
    lemma_proto_run(first.0, post.drop_first());
    let rrest = proto_run(first.0, post.drop_first());
    assert(forall|i: int| 0 <= i < rrest.1.len() ==> #[trigger] rrest.1[i] > g);
    assert(proto_run(sk, post).1 == rrest.1);
    assert(proto_run(proto_init(), events).1 == rpre.1 + rrest.1);
}

/// A kill followed at once by a new input: every later delivery is for the
/// new generation or a younger one; nothing older is ever observed again.
pub proof fn theorem_kill_then_input(pre: Seq<ProtoEvent>, post: Seq<ProtoEvent>)
    ensures
        ({
            let s0 = proto_run(proto_init(), pre).0;
            let s1 = proto_step(s0, ProtoEvent::Kill).0;
            let s2 = proto_step(s1, ProtoEvent::Input).0;
            let em = proto_run(s2, post).1;
            &&& s2.0 == s0.0 + 1
            &&& forall|i: int| 0 <= i < em.len() ==> #[trigger] em[i] >= s2.0
        }),
{
    lemma_proto_run(proto_init(), pre);
    let s0 = proto_run(proto_init(), pre).0;
    let s1 = proto_step(s0, ProtoEvent::Kill).0;
    let s2 = proto_step(s1, ProtoEvent::Input).0;
    lemma_proto_run(s2, post);
}

/// One search request: which generation it is for and what was typed.
pub struct SearchTask {
    pub generation: u64,
    pub input: String,
}

/// The worker-side state of the launcher: the registry, the generation
/// counter, the kill mark, which search is in flight, and which plugin the
/// latest input addressed.
pub struct Engine {
    pub registry: Registry,
    pub generation: u64,
    pub killed: u64,
    pub pending: Option<u64>,
    pub current: Option<usize>,
}

impl Engine {
    /// The protocol state this engine is in.
    pub open spec fn proto(&self) -> (nat, nat, Option<nat>) {
        (
            self.generation as nat,
            self.killed as nat,
            match self.pending {
                Some(g) => Some(g as nat),
                None => None,
            },
        )
    }

    /// A well-formed registry, a protocol state the invariant holds of, and a
    /// current plugin that is registered.
    pub open spec fn wf(&self) -> bool {
        &&& self.registry.wf()
        &&& proto_inv(self.proto())
        &&& match self.current {
            Some(i) => i < self.registry.plugins@.len(),
            None => true,
        }
    }

    /// A fresh engine over this registry: generation zero, nothing in flight.
    pub fn new(registry: Registry) -> (r: Engine)
        requires
            registry.wf(),
        ensures
            r.wf(),
            r.proto() == proto_init(),
            r.registry == registry,
            r.current is None,
    {
        Engine { registry, generation: 0, killed: 0, pending: None, current: None }
    }

    /// A new input arrived: cancel the in-flight search, move to the next
    /// generation, resolve the addressed plugin, and hand back the search
    /// task for the new generation. One `Input` protocol step.
    pub fn update_input(&mut self, input: &str) -> (task: SearchTask)
        requires
            old(self).wf(),
            old(self).generation < u64::MAX,
        ensures
            final(self).wf(),
            final(self).proto() == proto_step(old(self).proto(), ProtoEvent::Input).0,
            final(self).registry == old(self).registry,
            task.generation == final(self).generation,
            task.input@ == input@,
            match old(self).registry.resolved(input@) {
                Some(i) => final(self).current == Some(i as usize),
                None => final(self).current is None,
            },
    {
        self.killed = self.generation;
        self.generation = self.generation + 1;
        self.pending = Some(self.generation);
        let sel = self.registry.resolve(input);
        proof {
            match sel {
                Some(i) => self.registry.lemma_first_route_some(input@, 0, i as int),
                None => (),
            }
        }
        self.current = sel;
        SearchTask { generation: self.generation, input: input.to_owned() }
    }

    /// Cancel the in-flight search and the pending debounce for the current
    /// generation: nothing at or below it will ever be delivered. One `Kill`
    /// protocol step.
    pub fn kill(&mut self)
        requires
            old(self).wf(),
        ensures
            final(self).wf(),
            final(self).proto() == proto_step(old(self).proto(), ProtoEvent::Kill).0,
            final(self).registry == old(self).registry,
            final(self).current == old(self).current,
    {
        self.killed = self.generation;
        self.pending = None;
    }

    /// Run the task's search pass over the registry. All of
    /// [`run_search`]'s guarantees hold of the result, for the task's input.
    pub fn compute(&self, task: &SearchTask) -> (out: Vec<Entry>)
        requires
            self.wf(),
        ensures
            strict_sorted(out@),
            out@.len() == scored(self.registry, task.input@).len(),
            forall|k: int|
                0 <= k < out@.len() ==> entry_ok(
                    self.registry,
                    self.registry.effective(task.input@),
                    #[trigger] out@[k],
                ),
            forall|k: int| 0 <= k < out@.len() ==> scored(self.registry, task.input@).contains(
                (#[trigger] out@[k]).label,
            ),
            forall|l: Label|
                scored(self.registry, task.input@).contains(l) ==> exists|k: int|
                    0 <= k < out@.len() && (#[trigger] out@[k]).label == l,
            task.input@.len() == 0 ==> labels_of(out@) == all_labels(self.registry),
            task.input@.len() == 0 ==> forall|k: int|
                0 <= k < out@.len() ==> (#[trigger] out@[k]).rank == 0,
    {
        run_search(&self.registry, task.input.as_str())
    }

    /// The finished search for `generation` asks to be delivered. It is
    /// handed back for the UI exactly when it is still current and
    /// uncancelled; a stale batch is dropped here, inside the worker. One
    /// `Finish` protocol step.
    pub fn complete(&mut self, generation: u64, entries: Vec<Entry>) -> (msg: Option<
        (u64, Vec<Entry>),
    >)
        requires
            old(self).wf(),
        ensures
            final(self).wf(),
            final(self).registry == old(self).registry,
            final(self).current == old(self).current,
            old(self).pending == Some(generation) ==> final(self).proto() == proto_step(
                old(self).proto(),
                ProtoEvent::Finish,
            ).0,
            old(self).pending == Some(generation) ==> match proto_step(
                old(self).proto(),
                ProtoEvent::Finish,
            ).1 {
                Some(g) => msg == Some((generation, entries)) && g == generation as nat,
                None => msg is None,
            },
            old(self).pending != Some(generation) ==> *final(self) == *old(self) && msg is None,
    {
        match self.pending {
            Some(g) => {
                if g == generation {
                    self.pending = None;
                    if generation == self.generation && generation > self.killed {
                        Some((generation, entries))
                    } else {
                        None
                    }
                } else {
                    None
                }
            },
            None => None,
        }
    }

    /// The plugin the latest input addressed, if any.
    pub fn current(&self) -> (r: Option<usize>)
        ensures
            r == self.current,
    {
        self.current
    }

    /// The prefix of the plugin the latest input addressed, if any; it is
    /// what `ChangeQuery` composes the next input with.
    pub fn current_prefix(&self) -> (r: Option<&String>)
        requires
            self.wf(),
        ensures
            match self.current {
                Some(i) => r == Some(&self.registry.plugins@[i as int].prefix),
                None => r is None,
            },
    {
        match self.current {
            Some(i) => Some(&self.registry.plugins[i].prefix),
            None => None,
        }
    }

    /// Launch the entry a label points at: the owning candidate's action, or
    /// nothing when the label no longer resolves (the input has changed since
    /// it was captured).
    pub fn launch(&self, label: Option<Label>) -> (a: Action)
        requires
            self.wf(),
        ensures
            action_equiv(&a, &launched_action(&self.registry, label)),
    {
        match label {
            Some(l) => {
                if l.plugin < self.registry.plugins.len() {
                    let plugin = &self.registry.plugins[l.plugin];
                    if l.index < plugin.candidates.len() {
                        duplicate_action(&plugin.candidates[l.index].action)
                    } else {
                        Action::Nothing
                    }
                } else {
                    Action::Nothing
                }
            },
            None => Action::Nothing,
        }
    }
}

/// What launching a label yields: the candidate's declared action when the
/// label still resolves, nothing otherwise.
pub open spec fn launched_action(reg: &Registry, label: Option<Label>) -> Action {
    match label {
        Some(l) => if l.plugin < reg.plugins@.len() && l.index < reg.plugins@[
            l.plugin as int
        ].candidates@.len() {
            reg.plugins@[l.plugin as int].candidates@[l.index as int].action
        } else {
            Action::Nothing
        },
        None => Action::Nothing,
    }
}

/// The two commands hold the same program and the same arguments.
pub open spec fn command_equiv(a: &Command, b: &Command) -> bool {
    a.program == b.program && a.args@ == b.args@
}

/// The two actions are the same effect over the same texts.
pub open spec fn action_equiv(a: &Action, b: &Action) -> bool {
    match (a, b) {
        (Action::Nothing, Action::Nothing) => true,
        (Action::ChangeInput(x), Action::ChangeInput(y)) => x == y,
        (Action::ChangeQuery(x), Action::ChangeQuery(y)) => x == y,
        (Action::Exec(c), Action::Exec(d)) => command_equiv(c, d),
        (Action::PrintAndClose(x), Action::PrintAndClose(y)) => x == y,
        (Action::Fork, Action::Fork) => true,
        (Action::WaitAndClose, Action::WaitAndClose) => true,
        _ => false,
    }
}

/// An equal copy of a command.
fn duplicate_command(c: &Command) -> (r: Command)
    ensures
        command_equiv(&r, c),
{
    let mut args: Vec<String> = Vec::new();
    let mut i: usize = 0;
    while i < c.args.len()
        invariant
            i <= c.args@.len(),
            args@ =~= c.args@.subrange(0, i as int),
        decreases c.args@.len() - i,
    {
        args.push(c.args[i].clone());
        i = i + 1;
    }
    proof {
        assert(args@ =~= c.args@);
    }
    Command { program: c.program.clone(), args }
}

/// An equal copy of an action.
fn duplicate_action(a: &Action) -> (r: Action)
    ensures
        action_equiv(&r, a),
{
    match a {
        Action::Nothing => Action::Nothing,
        Action::ChangeInput(s) => Action::ChangeInput(s.clone()),
        Action::ChangeQuery(s) => Action::ChangeQuery(s.clone()),
        Action::Exec(c) => Action::Exec(duplicate_command(c)),
        Action::PrintAndClose(s) => Action::PrintAndClose(s.clone()),
        Action::Fork => Action::Fork,
        Action::WaitAndClose => Action::WaitAndClose,
    }
}

/// Move the selection one step and clamp it to the entry list: down saturates
/// at the last entry, up at the first; an empty list pins it at zero.
pub fn move_selection(selected: usize, len: usize, down: bool) -> (r: usize)
    ensures
        down ==> r == (if len == 0 {
            0int
        } else if selected + 1 < len {
            selected + 1
        } else {
            len - 1
        }),
        !down ==> r == (if selected > 0 {
            (selected - 1) as int
        } else {
            0int
        }),
{
    if down {
        if len == 0 {
            0
        } else if selected < len - 1 {
            selected + 1
        } else {
            len - 1
        }
    } else {
        if selected > 0 {
            selected - 1
        } else {
            0
        }
    }
}

} // verus!

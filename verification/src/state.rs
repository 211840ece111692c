//! The editor's modal input state and the key-sequence resolver.
//!
//! On each key event the resolver walks the current mode's trie (and the
//! active extra-mode trie layered on top) from the node reached by the pending
//! key record. A complete binding fires at once; an ambiguous prefix arms a
//! bounded wait that either the next key or the deadline settles; an
//! impossible sequence fires its abandoned prefix if that prefix was bound,
//! and re-evaluates the new key from the root.

use vstd::prelude::*;
use crate::bind::{KeyMap, KeyMapInner};
use crate::event::{Event, KeyEvent};
use crate::modd::Mod;
use crate::Action;

verus! {

/// The value behind an optional node reference.
pub open spec fn opt_val(r: Option<&KeyMapInner>) -> Option<KeyMapInner> {
    match r {
        Some(n) => Some(*n),
        None => None,
    }
}

/// The node reached by walking `s` from an optional root.
pub open spec fn opt_node_at(r: Option<KeyMapInner>, s: Seq<KeyEvent>) -> Option<KeyMapInner> {
    match r {
        Some(n) => n.spec_node_at(s),
        None => None,
    }
}

/// The effective action of a base-trie node layered under an extra-mode
/// node: a privileged base binding wins; otherwise the extra-mode binding;
/// otherwise the base binding.
pub open spec fn eff_action(b: Option<KeyMapInner>, x: Option<KeyMapInner>) -> Option<Action> {
    if b matches Some(bn) && bn.action is Some && bn.privileged {
        b.unwrap().action
    } else if x matches Some(xn) && xn.action is Some {
        x.unwrap().action
    } else {
        match b {
            Some(bn) => bn.action,
            None => None,
        }
    }
}

/// Whether an optional node can still be extended by another key.
pub open spec fn has_children(n: Option<KeyMapInner>) -> bool {
    n matches Some(m) && m.next@.len() > 0
}

/// How one key extends a walk that reached the given pair of nodes.
#[derive(Debug, Clone, Copy, PartialEq, Eq, Structural)]
pub enum KeyStep {
    /// A complete binding: the action fires at once.
    Fire(Action),
    /// An ambiguous prefix: this action fires if the deadline elapses first.
    Wait(Action),
    /// A pure prefix: wait for the next key with nothing to fire.
    Extend,
    /// The sequence cannot be extended this way.
    NoEdge,
}

/// Classifies the pair of nodes one key leads to.
pub open spec fn spec_step_nodes(b: Option<KeyMapInner>, x: Option<KeyMapInner>) -> KeyStep {
    if b is None && x is None {
        KeyStep::NoEdge
    } else {
        match eff_action(b, x) {
            Some(a) => if has_children(b) || has_children(x) {
                KeyStep::Wait(a)
            } else {
                KeyStep::Fire(a)
            },
            None => KeyStep::Extend,
        }
    }
}

/// The effective action bound to the path `s` under base trie `b` and
/// optional extra-mode trie `x`.
pub open spec fn eff_action_at(b: KeyMapInner, x: Option<KeyMapInner>, s: Seq<KeyEvent>) -> Option<
    Action,
> {
    eff_action(b.spec_node_at(s), opt_node_at(x, s))
}

/// Classifies the path `s` under base trie `b` and extra-mode trie `x`.
pub open spec fn spec_step_at(b: KeyMapInner, x: Option<KeyMapInner>, s: Seq<KeyEvent>) -> KeyStep {
    spec_step_nodes(b.spec_node_at(s), opt_node_at(x, s))
}

/// A privileged binding in the base trie is exempt from extra-mode
/// shadowing: whatever the extra-mode trie binds at the same sequence, the
/// effective action is the base trie's.
pub proof fn lemma_privileged_precedence(b: KeyMapInner, x: Option<KeyMapInner>, s: Seq<KeyEvent>)
    requires
        b.spec_privileged_at(s),
    ensures
        eff_action_at(b, x, s) == b.spec_action_at(s),
{
}

/// Longer bindings take precedence over shorter ones sharing a prefix: while
/// the walked sequence can still be extended, a bound action does not fire at
/// once but only arms the deadline.
pub proof fn lemma_longer_binding_waits(b: KeyMapInner, x: Option<KeyMapInner>, s: Seq<KeyEvent>)
    requires
        eff_action_at(b, x, s) is Some,
    ensures
        (b.spec_extendable_at(s) || (opt_node_at(x, s) matches Some(n) && n.next@.len() > 0))
            ==> spec_step_at(b, x, s) == KeyStep::Wait(eff_action_at(b, x, s).unwrap()),
        !(b.spec_extendable_at(s) || (opt_node_at(x, s) matches Some(n) && n.next@.len() > 0))
            ==> spec_step_at(b, x, s) == KeyStep::Fire(eff_action_at(b, x, s).unwrap()),
{
}

proof fn lemma_node_at_concat(n: KeyMapInner, a: Seq<KeyEvent>, b: Seq<KeyEvent>)
    ensures
        n.spec_node_at(a + b) == (match n.spec_node_at(a) {
            Some(m) => m.spec_node_at(b),
            None => None,
        }),
    decreases a.len(),
{
    if a.len() == 0 {
        assert(a + b =~= b);
    } else {
        assert((a + b)[0] == a[0]);
        assert((a + b).drop_first() =~= a.drop_first() + b);
        match n.spec_child(a[0]) {
            Some(c) => {
                lemma_node_at_concat(c, a.drop_first(), b);
            },
            None => {},
        }
    }
}

proof fn lemma_node_at_snoc(n: KeyMapInner, p: Seq<KeyEvent>, e: KeyEvent)
    ensures
        n.spec_node_at(p.push(e)) == (match n.spec_node_at(p) {
            Some(m) => m.spec_child(e),
            None => None,
        }),
{
    assert(p.push(e) =~= p + seq![e]);
    lemma_node_at_concat(n, p, seq![e]);
    assert(seq![e].drop_first() =~= Seq::<KeyEvent>::empty());
    match n.spec_node_at(p) {
        Some(m) => {
            match m.spec_child(e) {
                Some(c) => {
                    assert(c.spec_node_at(seq![e].drop_first()) == Some(c));
                },
                None => {},
            }
        },
        None => {},
    }
}

/// Walk `path` from `root`, returning the node it reaches.
fn walk_from<'a>(root: &'a KeyMapInner, path: &Vec<KeyEvent>) -> (r: Option<&'a KeyMapInner>)
    ensures
        opt_val(r) == root.spec_node_at(path@),
{
    let mut cur: &'a KeyMapInner = root;
    let mut i: usize = 0;
    proof {
        assert(path@.take(0) =~= Seq::<KeyEvent>::empty());
    }
    while i < path.len()
        invariant
            i <= path@.len(),
            root.spec_node_at(path@.take(i as int)) == Some(*cur),
        decreases path@.len() - i,
    {
        proof {
            assert(path@.take(i as int + 1) =~= path@.take(i as int).push(path@[i as int]));
            lemma_node_at_snoc(*root, path@.take(i as int), path@[i as int]);
        }
        match cur.child(&path[i]) {
            Some(c) => {
                cur = c;
                i = i + 1;
            },
            None => {
                proof {
                    assert(path@ =~= path@.take(i as int + 1) + path@.skip(i as int + 1));
                    lemma_node_at_concat(*root, path@.take(i as int + 1), path@.skip(i as int + 1));
                }
                return None;
            },
        }
    }
    proof {
        assert(path@.take(path@.len() as int) =~= path@);
    }
    Some(cur)
}

/// One child step from an optional node.
fn opt_child<'a>(n: Option<&'a KeyMapInner>, k: &KeyEvent) -> (r: Option<&'a KeyMapInner>)
    ensures
        opt_val(r) == (match opt_val(n) {
            Some(m) => m.spec_child(*k),
            None => None,
        }),
{
    match n {
        Some(m) => m.child(k),
        None => None,
    }
}

fn eff_action_of(b: Option<&KeyMapInner>, x: Option<&KeyMapInner>) -> (r: Option<Action>)
    ensures
        r == eff_action(opt_val(b), opt_val(x)),
{
    if let Some(bn) = b {
        if bn.privileged && bn.action.is_some() {
            return bn.action;
        }
    }
    if let Some(xn) = x {
        if xn.action.is_some() {
            return xn.action;
        }
    }
    match b {
        Some(bn) => bn.action,
        None => None,
    }
}

fn step_of(b: Option<&KeyMapInner>, x: Option<&KeyMapInner>) -> (r: KeyStep)
    ensures
        r == spec_step_nodes(opt_val(b), opt_val(x)),
{
    if b.is_none() && x.is_none() {
        return KeyStep::NoEdge;
    }
    let kids = match b {
        Some(bn) => bn.next.len() > 0,
        None => false,
    } || match x {
        Some(xn) => xn.next.len() > 0,
        None => false,
    };
    match eff_action_of(b, x) {
        Some(a) => if kids {
            KeyStep::Wait(a)
        } else {
            KeyStep::Fire(a)
        },
        None => KeyStep::Extend,
    }
}

/// The error of looking up an extra mode that was never registered.
#[derive(Debug, Clone, Copy, PartialEq, Eq, Structural)]
pub enum LookupError {
    NotRegistered,
}

/// The process-wide registry of extra-mode names. Each entry persists until
/// explicitly removed; activation looks names up here.
pub struct Mem {
    pub extra_mods: Vec<String>,
}

impl Mem {
    /// Whether an extra mode of this name is registered.
    pub open spec fn spec_contains(self, name: Seq<char>) -> bool {
        exists|i: int|
            0 <= i < self.extra_mods@.len() && (#[trigger] self.extra_mods@[i])@ == name
    }

    pub fn new() -> (m: Mem)
        ensures
            m.extra_mods@.len() == 0,
            forall|n: Seq<char>| !m.spec_contains(n),
    {
        Mem { extra_mods: Vec::new() }
    }

    /// Register an extra-mode name; already-registered names stay registered.
    pub fn register(&mut self, name: String)
        ensures
            final(self).extra_mods@ == old(self).extra_mods@.push(name),
            final(self).spec_contains(name@),
            forall|n: Seq<char>| old(self).spec_contains(n) ==> final(self).spec_contains(n),
    {
        self.extra_mods.push(name);
        proof {
            assert(self.extra_mods@[self.extra_mods@.len() - 1]@ == name@);
            assert forall|n: Seq<char>| old(self).spec_contains(n) implies self.spec_contains(
                n,
            ) by {
                let i = choose|i: int|
                    0 <= i < old(self).extra_mods@.len() && (#[trigger] old(
                        self,
                    ).extra_mods@[i])@ == n;
                assert(self.extra_mods@[i]@ == n);
            }
        }
    }

    /// Remove the first registration of `name`; a name that was never
    /// registered leaves the registry untouched.
    pub fn unregister(&mut self, name: &String)
        ensures
            old(self).spec_contains(name@) ==> (exists|j: int|
                {
                    &&& 0 <= j < old(self).extra_mods@.len()
                    &&& (#[trigger] old(self).extra_mods@[j])@ == name@
                    &&& forall|i: int|
                        0 <= i < j ==> (#[trigger] old(self).extra_mods@[i])@ != name@
                    &&& final(self).extra_mods@ == old(self).extra_mods@.remove(j)
                }),
            !old(self).spec_contains(name@) ==> *final(self) == *old(self),
    {
        let mut j: usize = 0;
        while j < self.extra_mods.len()
            invariant
                j <= self.extra_mods@.len(),
                *self == *old(self),
                forall|i: int| 0 <= i < j ==> (#[trigger] self.extra_mods@[i])@ != name@,
            decreases self.extra_mods@.len() - j,
        {
            if self.extra_mods[j] == *name {
                self.extra_mods.remove(j);
                return ;
            }
            j = j + 1;
        }
    }

    pub fn contains(&self, name: &String) -> (r: bool)
        ensures
            r == self.spec_contains(name@),
    {
        let mut j: usize = 0;
        while j < self.extra_mods.len()
            invariant
                j <= self.extra_mods@.len(),
                forall|i: int| 0 <= i < j ==> (#[trigger] self.extra_mods@[i])@ != name@,
            decreases self.extra_mods@.len() - j,
        {
            if self.extra_mods[j] == *name {
                return true;
            }
            j = j + 1;
        }
        false
    }
}

/// The editor's input state: the current mode, the active extra mode, and
/// the keys typed since the last fully-resolved or abandoned sequence.
pub struct State {
    pub modd: Mod,
    pub extra_mod: Option<String>,
    pub key_record: Vec<KeyEvent>,
}

impl State {
    /// The base-mode trie the state resolves against.
    pub open spec fn spec_base_root(self, keymap: KeyMap) -> KeyMapInner {
        keymap.spec_root_for(self.modd)
    }

    /// The active extra-mode trie, if an extra mode is active and registered.
    pub open spec fn spec_extra_root(self, keymap: KeyMap) -> Option<KeyMapInner> {
        match self.extra_mod {
            Some(name) => keymap.spec_extra_root(name@),
            None => None,
        }
    }

    /// The pending key record is empty or a path that exists in the base or
    /// the active extra-mode trie.
    pub open spec fn pending_wf(self, keymap: KeyMap) -> bool {
        self.key_record@.len() == 0 || self.spec_base_root(keymap).spec_node_at(
            self.key_record@,
        ) is Some || opt_node_at(self.spec_extra_root(keymap), self.key_record@) is Some
    }

    pub fn new() -> (s: State)
        ensures
            s.modd == Mod::Normal,
            s.extra_mod is None,
            s.key_record@ == Seq::<KeyEvent>::empty(),
    {
        State { modd: Mod::Normal, extra_mod: None, key_record: Vec::new() }
    }

    /// Append one key to the pending record.
    pub fn record_key(&mut self, event: KeyEvent)
        ensures
            final(self).key_record@ == old(self).key_record@.push(event),
            final(self).modd == old(self).modd,
            final(self).extra_mod == old(self).extra_mod,
    {
        self.key_record.push(event);
    }

    /// Clear the pending record: a binding resolved or a sequence became
    /// impossible.
    pub fn reset_pending(&mut self)
        ensures
            final(self).key_record@ == Seq::<KeyEvent>::empty(),
            final(self).modd == old(self).modd,
            final(self).extra_mod == old(self).extra_mod,
    {
        self.key_record.clear();
    }

    /// Change the base mode. A mode change always clears the pending record,
    /// since each mode resolves against its own trie.
    pub fn transition(&mut self, new_mode: Mod)
        ensures
            final(self).modd == new_mode,
            final(self).key_record@ == Seq::<KeyEvent>::empty(),
            final(self).extra_mod == old(self).extra_mod,
    {
        self.modd = new_mode;
        self.key_record.clear();
    }

    /// Activate the extra mode `name`: fails exactly when the registry does
    /// not know the name, and changes nothing in that case.
    pub fn activate_extra_mode(&mut self, name: &String, registry: &Mem) -> (r: Result<
        (),
        LookupError,
    >)
        ensures
            r is Ok <==> registry.spec_contains(name@),
            r is Ok ==> (final(self).extra_mod matches Some(n) && n@ == name@),
            r is Err ==> *final(self) == *old(self),
            final(self).modd == old(self).modd,
            final(self).key_record@ == old(self).key_record@,
    {
        if registry.contains(name) {
            self.extra_mod = Some(name.clone());
            Ok(())
        } else {
            Err(LookupError::NotRegistered)
        }
    }

    /// Deactivate any active extra mode, unconditionally.
    pub fn deactivate_extra_mode(&mut self)
        ensures
            final(self).extra_mod is None,
            final(self).modd == old(self).modd,
            final(self).key_record@ == old(self).key_record@,
    {
        self.extra_mod = None;
    }
}

/// What resolving one key produced: the actions that fired (the abandoned
/// prefix's action first, at most two), whether the key was reported unbound,
/// and the action that fires if the ambiguity deadline elapses before the
/// next key.
pub struct KeyOutcome {
    pub fired: Vec<Action>,
    pub unbound: bool,
    pub deadline: Option<Action>,
}

/// The whole contract of `handle_key`: how the state after one key and the
/// outcome relate to the state before, by the cases of the resolution
/// algorithm.
pub open spec fn key_outcome_spec(
    pre: State,
    post: State,
    keymap: KeyMap,
    e: KeyEvent,
    out: KeyOutcome,
) -> bool {
    let b = pre.spec_base_root(keymap);
    let x = pre.spec_extra_root(keymap);
    let p = pre.key_record@;
    let q = p.push(e);
    &&& post.modd == pre.modd
    &&& post.extra_mod == pre.extra_mod
    &&& match spec_step_at(b, x, q) {
        KeyStep::Fire(a) => out.fired@ == seq![a] && !out.unbound && out.deadline is None
            && post.key_record@ == Seq::<KeyEvent>::empty(),
        KeyStep::Wait(a) => out.fired@ == Seq::<Action>::empty() && !out.unbound && out.deadline
            == Some(a) && post.key_record@ == q,
        KeyStep::Extend => out.fired@ == Seq::<Action>::empty() && !out.unbound
            && out.deadline is None && post.key_record@ == q,
        KeyStep::NoEdge => {
            let head = if p.len() > 0 && eff_action_at(b, x, p) is Some {
                seq![eff_action_at(b, x, p).unwrap()]
            } else {
                Seq::<Action>::empty()
            };
            match spec_step_at(b, x, seq![e]) {
                KeyStep::Fire(a2) => out.fired@ == head.push(a2) && !out.unbound
                    && out.deadline is None && post.key_record@ == Seq::<KeyEvent>::empty(),
                KeyStep::Wait(a2) => out.fired@ == head && !out.unbound && out.deadline == Some(a2)
                    && post.key_record@ == seq![e],
                KeyStep::Extend => out.fired@ == head && !out.unbound && out.deadline is None
                    && post.key_record@ == seq![e],
                KeyStep::NoEdge => out.fired@ == head && out.unbound && out.deadline is None
                    && post.key_record@ == Seq::<KeyEvent>::empty(),
            }
        },
    }
}

/// Resolve one key event against the current mode's trie, with the active
/// extra-mode trie layered on top.
pub fn handle_key(state: &mut State, keymap: &KeyMap, e: KeyEvent) -> (out: KeyOutcome)
    ensures
        key_outcome_spec(*old(state), *final(state), *keymap, e, out),
        final(state).pending_wf(*keymap),
{
    let ghost pre = *state;
    let ghost p = state.key_record@;
    let ghost q = p.push(e);
    let base: &KeyMapInner = keymap.root_for(&state.modd);
    let extra: Option<&KeyMapInner> = match &state.extra_mod {
        Some(n) => keymap.extra_root(n),
        None => None,
    };
    let bnode = walk_from(base, &state.key_record);
    let xnode = match extra {
        Some(r) => walk_from(r, &state.key_record),
        None => None,
    };
    let bq = opt_child(bnode, &e);
    let xq = opt_child(xnode, &e);
    proof {
        lemma_node_at_snoc(*base, p, e);
        assert(opt_val(bq) == pre.spec_base_root(*keymap).spec_node_at(q));
        match pre.spec_extra_root(*keymap) {
            Some(xr) => {
                lemma_node_at_snoc(xr, p, e);
            },
            None => {},
        }
        assert(opt_val(xq) == opt_node_at(pre.spec_extra_root(*keymap), q));
    }
    match step_of(bq, xq) {
        KeyStep::Fire(a) => {
            state.key_record.clear();
            let mut fired: Vec<Action> = Vec::new();
            fired.push(a);
            proof {
                assert(fired@ =~= seq![a]);
            }
            KeyOutcome { fired, unbound: false, deadline: None }
        },
        KeyStep::Wait(a) => {
            state.key_record.push(e);
            KeyOutcome { fired: Vec::new(), unbound: false, deadline: Some(a) }
        },
        KeyStep::Extend => {
            state.key_record.push(e);
            KeyOutcome { fired: Vec::new(), unbound: false, deadline: None }
        },
        KeyStep::NoEdge => {
            let mut fired: Vec<Action> = Vec::new();
            if state.key_record.len() > 0 {
                match eff_action_of(bnode, xnode) {
                    Some(a) => fired.push(a),
                    None => {},
                }
            }
            let b1 = base.child(&e);
            let x1 = match extra {
                Some(r) => r.child(&e),
                None => None,
            };
            proof {
                assert(Seq::<KeyEvent>::empty().push(e) =~= seq![e]);
                lemma_node_at_snoc(pre.spec_base_root(*keymap), Seq::<KeyEvent>::empty(), e);
                match pre.spec_extra_root(*keymap) {
                    Some(xr) => {
                        lemma_node_at_snoc(xr, Seq::<KeyEvent>::empty(), e);
                    },
                    None => {},
                }
                assert(opt_val(b1) == pre.spec_base_root(*keymap).spec_node_at(seq![e]));
                assert(opt_val(x1) == opt_node_at(pre.spec_extra_root(*keymap), seq![e]));
            }
            match step_of(b1, x1) {
                KeyStep::Fire(a2) => {
                    fired.push(a2);
                    state.key_record.clear();
                    KeyOutcome { fired, unbound: false, deadline: None }
                },
                KeyStep::Wait(a2) => {
                    state.key_record.clear();
                    state.key_record.push(e);
                    proof {
                        assert(state.key_record@ =~= seq![e]);
                    }
                    KeyOutcome { fired, unbound: false, deadline: Some(a2) }
                },
                KeyStep::Extend => {
                    state.key_record.clear();
                    state.key_record.push(e);
                    proof {
                        assert(state.key_record@ =~= seq![e]);
                    }
                    KeyOutcome { fired, unbound: false, deadline: None }
                },
                KeyStep::NoEdge => {
                    state.key_record.clear();
                    KeyOutcome { fired, unbound: true, deadline: None }
                },
            }
        },
    }
}

/// The ambiguity deadline elapsed: the action bound to the pending sequence
/// fires and the pending record clears. A pure prefix fires nothing.
pub fn handle_timeout(state: &mut State, keymap: &KeyMap) -> (out: Option<Action>)
    ensures
        out == eff_action_at(
            old(state).spec_base_root(*keymap),
            old(state).spec_extra_root(*keymap),
            old(state).key_record@,
        ),
        final(state).modd == old(state).modd,
        final(state).extra_mod == old(state).extra_mod,
        out is Some ==> final(state).key_record@ == Seq::<KeyEvent>::empty(),
        out is None ==> final(state).key_record@ == old(state).key_record@,
        final(state).pending_wf(*keymap) || !old(state).pending_wf(*keymap),
{
    let base: &KeyMapInner = keymap.root_for(&state.modd);
    let extra: Option<&KeyMapInner> = match &state.extra_mod {
        Some(n) => keymap.extra_root(n),
        None => None,
    };
    let bnode = walk_from(base, &state.key_record);
    let xnode = match extra {
        Some(r) => walk_from(r, &state.key_record),
        None => None,
    };
    let act = eff_action_of(bnode, xnode);
    if act.is_some() {
        state.key_record.clear();
    }
    act
}

/// The owning session shut down while a wait was pending: the wait is
/// cancelled and the pending sequence is discarded without firing anything.
pub fn cancel_pending(state: &mut State)
    ensures
        final(state).key_record@ == Seq::<KeyEvent>::empty(),
        final(state).modd == old(state).modd,
        final(state).extra_mod == old(state).extra_mod,
{
    state.key_record.clear();
}

/// What one decoded input event produced: a key resolution, or the event
/// passed through untouched for the application to handle.
pub enum InputOutcome {
    Keys(KeyOutcome),
    Passthrough(Event),
}

/// Feed one decoded input event: only key events drive the resolver, every
/// other event passes through and leaves the state untouched.
pub fn handle_event(state: &mut State, keymap: &KeyMap, ev: Event) -> (out: InputOutcome)
    ensures
        match ev {
            Event::Key(k) => out matches InputOutcome::Keys(ko) && key_outcome_spec(
                *old(state),
                *final(state),
                *keymap,
                k,
                ko,
            ) && final(state).pending_wf(*keymap),
            _ => out == InputOutcome::Passthrough(ev) && *final(state) == *old(state),
        },
{
    match ev {
        Event::Key(k) => InputOutcome::Keys(handle_key(state, keymap, k)),
        other => InputOutcome::Passthrough(other),
    }
}

} // verus!

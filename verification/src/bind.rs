//! Per-mode prefix tries mapping ordered key-event sequences to actions.
//!
//! A trie node holds an optional bound action (with its privilege flag) and a
//! list of labeled edges to child nodes. Lookups compare keys in the
//! case-normalized equality domain of `KeyEvent`. A node may carry an action
//! and still have children: that is the ambiguous-prefix case the resolver
//! settles with a bounded wait.

use vstd::prelude::*;
use vstd::seq_lib::*;
use crate::event::KeyEvent;
use crate::modd::Mod;
use crate::Action;

verus! {

/// The sequence with every key event replaced by its case-normalized form:
/// the equality domain of trie paths.
pub open spec fn norm_seq(s: Seq<KeyEvent>) -> Seq<KeyEvent> {
    s.map_values(|e: KeyEvent| e.spec_normalize())
}

/// `s` is a prefix of `t` up to case normalization.
pub open spec fn is_norm_prefix_of(s: Seq<KeyEvent>, t: Seq<KeyEvent>) -> bool {
    norm_seq(s).is_prefix_of(norm_seq(t))
}

/// One node of a keybinding trie.
pub struct KeyMapInner {
    /// The action bound to the sequence that reaches this node, if any.
    pub action: Option<Action>,
    /// Whether that binding is privileged (exempt from extra-mode shadowing).
    pub privileged: bool,
    /// Labeled edges to child nodes.
    pub next: Vec<(KeyEvent, KeyMapInner)>,
}

/// The child reached from the edge list `s` by the edge labeled (up to
/// normalization) with `k`: the first matching entry wins.
pub open spec fn spec_child_in(s: Seq<(KeyEvent, KeyMapInner)>, k: KeyEvent) -> Option<KeyMapInner>
    decreases s.len(),
{
    if s.len() == 0 {
        None
    } else if s[0].0.spec_normalize() == k.spec_normalize() {
        Some(s[0].1)
    } else {
        spec_child_in(s.drop_first(), k)
    }
}

impl KeyMapInner {
    pub open spec fn spec_child(self, k: KeyEvent) -> Option<KeyMapInner> {
        spec_child_in(self.next@, k)
    }

    /// The node reached by walking the path `s` from this node.
    pub open spec fn spec_node_at(self, s: Seq<KeyEvent>) -> Option<KeyMapInner>
        decreases s.len(),
    {
        if s.len() == 0 {
            Some(self)
        } else {
            match self.spec_child(s[0]) {
                Some(c) => c.spec_node_at(s.drop_first()),
                None => None,
            }
        }
    }

    /// The action bound to the path `s`, if the path exists and is bound.
    pub open spec fn spec_action_at(self, s: Seq<KeyEvent>) -> Option<Action> {
        match self.spec_node_at(s) {
            Some(n) => n.action,
            None => None,
        }
    }

    /// Whether the path `s` carries a privileged binding.
    pub open spec fn spec_privileged_at(self, s: Seq<KeyEvent>) -> bool {
        match self.spec_node_at(s) {
            Some(n) => n.action is Some && n.privileged,
            None => false,
        }
    }

    /// Whether some longer bound sequence continues past the path `s`.
    pub open spec fn spec_extendable_at(self, s: Seq<KeyEvent>) -> bool {
        match self.spec_node_at(s) {
            Some(n) => n.next@.len() > 0,
            None => false,
        }
    }
}

/// What binding the path `t` in a trie does to every lookup: the action at
/// `t` becomes `action` with privilege `privileged`, every other action is
/// unchanged, subtrees off the path are untouched, every prefix of `t` now
/// exists, and the bound node keeps its children.
pub open spec fn bind_effect(
    pre: KeyMapInner,
    post: KeyMapInner,
    t: Seq<KeyEvent>,
    action: Action,
    privileged: bool,
) -> bool {
    &&& forall|s: Seq<KeyEvent>|
        norm_seq(s) == norm_seq(t) ==> #[trigger] post.spec_action_at(s) == Some(action)
    &&& forall|s: Seq<KeyEvent>|
        norm_seq(s) == norm_seq(t) ==> #[trigger] post.spec_privileged_at(s) == privileged
    &&& forall|s: Seq<KeyEvent>|
        norm_seq(s) != norm_seq(t) ==> #[trigger] post.spec_action_at(s) == pre.spec_action_at(s)
    &&& forall|s: Seq<KeyEvent>|
        norm_seq(s) != norm_seq(t) ==> #[trigger] post.spec_privileged_at(s)
            == pre.spec_privileged_at(s)
    &&& forall|s: Seq<KeyEvent>|
        !is_norm_prefix_of(s, t) ==> #[trigger] post.spec_node_at(s) == pre.spec_node_at(s)
    &&& forall|s: Seq<KeyEvent>|
        is_norm_prefix_of(s, t) ==> #[trigger] post.spec_node_at(s) is Some
    &&& forall|s: Seq<KeyEvent>|
        norm_seq(s) == norm_seq(t) ==> #[trigger] post.spec_extendable_at(s)
            == pre.spec_extendable_at(s)
}

proof fn lemma_norm_drop_first(s: Seq<KeyEvent>)
    requires
        s.len() > 0,
    ensures
        norm_seq(s.drop_first()) == norm_seq(s).drop_first(),
{
    assert(norm_seq(s.drop_first()) =~= norm_seq(s).drop_first());
}

proof fn lemma_norm_eq_decompose(s: Seq<KeyEvent>, t: Seq<KeyEvent>)
    requires
        s.len() > 0,
        t.len() > 0,
    ensures
        (norm_seq(s) == norm_seq(t)) <==> (s[0].spec_normalize() == t[0].spec_normalize()
            && norm_seq(s.drop_first()) == norm_seq(t.drop_first())),
{
    lemma_norm_drop_first(s);
    lemma_norm_drop_first(t);
    if s[0].spec_normalize() == t[0].spec_normalize() && norm_seq(s.drop_first()) == norm_seq(
        t.drop_first(),
    ) {
        assert(norm_seq(s.drop_first()).len() == norm_seq(t.drop_first()).len());
        assert(s.len() == t.len());
        assert forall|i: int| 0 <= i < s.len() implies norm_seq(s)[i] == norm_seq(t)[i] by {
            if i > 0 {
                assert(norm_seq(s.drop_first())[i - 1] == norm_seq(t.drop_first())[i - 1]);
                assert(s.drop_first()[i - 1] == s[i]);
                assert(t.drop_first()[i - 1] == t[i]);
            }
        }
        assert(norm_seq(s) =~= norm_seq(t));
    }
    if norm_seq(s) == norm_seq(t) {
        assert(norm_seq(s)[0] == norm_seq(t)[0]);
        assert(norm_seq(s).drop_first() == norm_seq(t).drop_first());
    }
}

proof fn lemma_norm_prefix_decompose(s: Seq<KeyEvent>, t: Seq<KeyEvent>)
    requires
        s.len() > 0,
        t.len() > 0,
    ensures
        is_norm_prefix_of(s, t) <==> (s[0].spec_normalize() == t[0].spec_normalize()
            && is_norm_prefix_of(s.drop_first(), t.drop_first())),
{
    lemma_norm_drop_first(s);
    lemma_norm_drop_first(t);
    let ns = norm_seq(s);
    let nt = norm_seq(t);
    if ns.is_prefix_of(nt) {
        assert(ns[0] == nt.subrange(0, ns.len() as int)[0]);
        assert forall|i: int|
            0 <= i < ns.len() - 1 implies ns.drop_first()[i] == nt.drop_first().subrange(
            0,
            ns.len() - 1,
        )[i] by {
            assert(ns[i + 1] == nt.subrange(0, ns.len() as int)[i + 1]);
        }
        assert(ns.drop_first() =~= nt.drop_first().subrange(0, ns.len() - 1));
    }
    if ns[0] == nt[0] && ns.drop_first().is_prefix_of(nt.drop_first()) {
        assert(ns.drop_first().len() <= nt.drop_first().len());
        assert forall|i: int| 0 <= i < ns.len() implies ns[i] == nt.subrange(
            0,
            ns.len() as int,
        )[i] by {
            if i > 0 {
                assert(ns.drop_first()[i - 1] == nt.drop_first().subrange(0, ns.len() - 1)[i - 1]);
                assert(nt.drop_first()[i - 1] == nt[i]);
            }
        }
        assert(ns =~= nt.subrange(0, ns.len() as int));
    }
}

proof fn lemma_child_in_first_match(s: Seq<(KeyEvent, KeyMapInner)>, k: KeyEvent, j: int)
    requires
        0 <= j < s.len(),
        s[j].0.spec_normalize() == k.spec_normalize(),
        forall|i: int| 0 <= i < j ==> (#[trigger] s[i].0).spec_normalize() != k.spec_normalize(),
    ensures
        spec_child_in(s, k) == Some(s[j].1),
    decreases j,
{
    if j > 0 {
        lemma_child_in_first_match(s.drop_first(), k, j - 1);
    }
}

proof fn lemma_child_in_no_match(s: Seq<(KeyEvent, KeyMapInner)>, k: KeyEvent)
    requires
        forall|i: int|
            0 <= i < s.len() ==> (#[trigger] s[i].0).spec_normalize() != k.spec_normalize(),
    ensures
        spec_child_in(s, k) is None,
    decreases s.len(),
{
    if s.len() > 0 {
        lemma_child_in_no_match(s.drop_first(), k);
    }
}

/// Replacing the child of the first edge that matches `k` changes the lookup
/// of `k` alone.
proof fn lemma_child_in_update(
    s: Seq<(KeyEvent, KeyMapInner)>,
    j: int,
    c: KeyMapInner,
    k: KeyEvent,
    q: KeyEvent,
)
    requires
        0 <= j < s.len(),
        s[j].0.spec_normalize() == k.spec_normalize(),
        forall|i: int| 0 <= i < j ==> (#[trigger] s[i].0).spec_normalize() != k.spec_normalize(),
    ensures
        spec_child_in(s.update(j, (s[j].0, c)), q) == if q.spec_normalize() == k.spec_normalize() {
            Some(c)
        } else {
            spec_child_in(s, q)
        },
    decreases j,
{
    let s2 = s.update(j, (s[j].0, c));
    if j == 0 {
        if q.spec_normalize() != k.spec_normalize() {
            assert(s2.drop_first() =~= s.drop_first());
        }
    } else {
        let sd = s.drop_first();
        assert(sd[j - 1].0 == s[j].0);
        assert(s2.drop_first() =~= sd.update(j - 1, (sd[j - 1].0, c)));
        lemma_child_in_update(sd, j - 1, c, k, q);
    }
}

/// Appending an edge whose key matches nothing already present changes the
/// lookup of that key alone.
proof fn lemma_child_in_push(
    s: Seq<(KeyEvent, KeyMapInner)>,
    kk: KeyEvent,
    c: KeyMapInner,
    q: KeyEvent,
)
    requires
        forall|i: int|
            0 <= i < s.len() ==> (#[trigger] s[i].0).spec_normalize() != kk.spec_normalize(),
    ensures
        spec_child_in(s.push((kk, c)), q) == if q.spec_normalize() == kk.spec_normalize() {
            Some(c)
        } else {
            spec_child_in(s, q)
        },
    decreases s.len(),
{
    let s2 = s.push((kk, c));
    if s.len() == 0 {
        assert(s2[0] == (kk, c));
        if q.spec_normalize() == kk.spec_normalize() {
            assert(spec_child_in(s2, q) == Some(c));
        } else {
            assert(s2.drop_first() =~= Seq::<(KeyEvent, KeyMapInner)>::empty());
            assert(spec_child_in(s2.drop_first(), q) is None);
        }
    } else {
        assert(s2[0] == s[0]);
        assert(s2.drop_first() =~= s.drop_first().push((kk, c)));
        lemma_child_in_push(s.drop_first(), kk, c, q);
    }
}

impl KeyMapInner {
    /// A fresh node with no binding and no children.
    pub fn new() -> (n: KeyMapInner)
        ensures
            n.action is None,
            !n.privileged,
            n.next@.len() == 0,
    {
        KeyMapInner { action: None, privileged: false, next: Vec::new() }
    }

    /// The index of the first edge labeled with `k`, in the normalized
    /// equality domain.
    fn find_edge(&self, k: &KeyEvent) -> (r: Option<usize>)
        ensures
            match r {
                Some(j) => 0 <= j < self.next@.len() && self.next@[j as int].0.spec_normalize()
                    == k.spec_normalize() && forall|i: int|
                    0 <= i < j ==> (#[trigger] self.next@[i].0).spec_normalize()
                        != k.spec_normalize(),
                None => forall|i: int|
                    0 <= i < self.next@.len() ==> (#[trigger] self.next@[i].0).spec_normalize()
                        != k.spec_normalize(),
            },
    {
        let mut j: usize = 0;
        while j < self.next.len()
            invariant
                j <= self.next@.len(),
                forall|i: int|
                    0 <= i < j ==> (#[trigger] self.next@[i].0).spec_normalize()
                        != k.spec_normalize(),
            decreases self.next@.len() - j,
        {
            if self.next[j].0 == *k {
                return Some(j);
            }
            j = j + 1;
        }
        None
    }

    /// The child reached by the edge labeled with `k`, if one exists.
    pub fn child(&self, k: &KeyEvent) -> (r: Option<&KeyMapInner>)
        ensures
            match r {
                Some(c) => self.spec_child(*k) == Some(*c),
                None => self.spec_child(*k) is None,
            },
    {
        match self.find_edge(k) {
            Some(j) => {
                proof {
                    lemma_child_in_first_match(self.next@, *k, j as int);
                }
                Some(&self.next[j].1)
            },
            None => {
                proof {
                    lemma_child_in_no_match(self.next@, *k);
                }
                None
            },
        }
    }

    /// Bind the tail `keys[i..]` to `action` below this node, overwriting any
    /// action previously bound to the same normalized sequence.
    fn bind_from(&mut self, keys: &Vec<KeyEvent>, i: usize, action: Action, privileged: bool)
        requires
            i <= keys@.len(),
        ensures
            bind_effect(*old(self), *final(self), keys@.skip(i as int), action, privileged),
        decreases keys@.len() - i,
    {
        let ghost pre = *self;
        let ghost t = keys@.skip(i as int);
        if i == keys.len() {
            self.action = Some(action);
            self.privileged = privileged;
            proof {
                assert(t =~= Seq::<KeyEvent>::empty());
                assert(norm_seq(t) =~= Seq::<KeyEvent>::empty());
                assert forall|s: Seq<KeyEvent>| norm_seq(s) == norm_seq(t) implies #[trigger] self
                    .spec_action_at(s) == Some(action) && #[trigger] self.spec_privileged_at(s)
                    == privileged && #[trigger] self.spec_extendable_at(s)
                    == pre.spec_extendable_at(s) by {
                    assert(norm_seq(s).len() == s.len());
                    assert(s =~= Seq::<KeyEvent>::empty());
                }
                assert forall|s: Seq<KeyEvent>| norm_seq(s) != norm_seq(t) implies #[trigger] self
                    .spec_action_at(s) == pre.spec_action_at(s)
                    && #[trigger] self.spec_privileged_at(s) == pre.spec_privileged_at(s) by {
                    if s.len() == 0 {
                        assert(norm_seq(s) =~= Seq::<KeyEvent>::empty());
                    } else {
                        assert(self.spec_node_at(s) == pre.spec_node_at(s));
                    }
                }
                assert forall|s: Seq<KeyEvent>| !is_norm_prefix_of(s, t) implies #[trigger] self
                    .spec_node_at(s) == pre.spec_node_at(s) by {
                    if s.len() == 0 {
                        lemma_norm_prefix_empty(t);
                    }
                }
                assert forall|s: Seq<KeyEvent>| is_norm_prefix_of(s, t) implies #[trigger] self
                    .spec_node_at(s) is Some by {
                    assert(norm_seq(s).len() == s.len());
                    assert(norm_seq(s).len() <= norm_seq(t).len());
                    assert(s =~= Seq::<KeyEvent>::empty());
                }
            }
        } else {
            let ghost k = keys@[i as int];
            proof {
                assert(t[0] == k);
                assert(t.drop_first() =~= keys@.skip(i as int + 1));
            }
            match self.find_edge(&keys[i]) {
                Some(j) => {
                    let (kk, mut child) = self.next.remove(j);
                    let ghost c0 = child;
                    child.bind_from(keys, i + 1, action, privileged);
                    self.next.insert(j, (kk, child));
                    proof {
                        assert(self.next@ =~= pre.next@.update(j as int, (kk, child)));
                        lemma_child_in_first_match(pre.next@, k, j as int);
                        assert forall|q: KeyEvent| #[trigger] spec_child_in(self.next@, q) == (
                        if q.spec_normalize() == k.spec_normalize() {
                            Some(child)
                        } else {
                            spec_child_in(pre.next@, q)
                        }) by {
                            lemma_child_in_update(pre.next@, j as int, child, k, q);
                        }
                        self.lemma_bind_step(pre, c0, child, t, k, action, privileged);
                    }
                },
                None => {
                    let mut child = KeyMapInner::new();
                    let ghost c0 = child;
                    child.bind_from(keys, i + 1, action, privileged);
                    let kk = keys[i];
                    self.next.push((kk, child));
                    proof {
                        assert(self.next@ =~= pre.next@.push((kk, child)));
                        lemma_child_in_no_match(pre.next@, k);
                        assert forall|q: KeyEvent| #[trigger] spec_child_in(self.next@, q) == (
                        if q.spec_normalize() == k.spec_normalize() {
                            Some(child)
                        } else {
                            spec_child_in(pre.next@, q)
                        }) by {
                            lemma_child_in_push(pre.next@, kk, child, q);
                        }
                        self.lemma_bind_step(pre, c0, child, t, k, action, privileged);
                    }
                },
            }
        }
    }

    /// Lifts the effect of a bind on the child for `t[0]` to the parent node.
    proof fn lemma_bind_step(
        &self,
        pre: KeyMapInner,
        c0: KeyMapInner,
        c1: KeyMapInner,
        t: Seq<KeyEvent>,
        k: KeyEvent,
        action: Action,
        privileged: bool,
    )
        requires
            t.len() > 0,
            t[0] == k,
            self.action == pre.action,
            self.privileged == pre.privileged,
            forall|q: KeyEvent| #[trigger]
                spec_child_in(self.next@, q) == if q.spec_normalize() == k.spec_normalize() {
                    Some(c1)
                } else {
                    spec_child_in(pre.next@, q)
                },
            pre.spec_child(k) is Some ==> pre.spec_child(k) == Some(c0),
            pre.spec_child(k) is None ==> c0.action is None && !c0.privileged && c0.next@.len()
                == 0,
            bind_effect(c0, c1, t.drop_first(), action, privileged),
        ensures
            bind_effect(pre, *self, t, action, privileged),
    {
        // How the node reached by a non-empty path `s` relates, before and
        // after, to the corresponding walk through the child for `s[0]`.
        assert forall|s: Seq<KeyEvent>| s.len() > 0 implies #[trigger] self.spec_node_at(s) == (
        if s[0].spec_normalize() == k.spec_normalize() {
            c1.spec_node_at(s.drop_first())
        } else {
            pre.spec_node_at(s)
        }) by {
            if s[0].spec_normalize() != k.spec_normalize() {
                assert(spec_child_in(self.next@, s[0]) == spec_child_in(pre.next@, s[0]));
            }
        }
        assert forall|s: Seq<KeyEvent>|
            s.len() > 0 && s[0].spec_normalize() == k.spec_normalize() implies pre.spec_node_at(s)
            == c0.spec_node_at(s.drop_first()) || (pre.spec_node_at(s) is None && c0.next@.len()
            == 0 && c0.action is None) by {
            if pre.spec_child(k) is Some {
                lemma_child_of_same(pre, k, s[0]);
            } else {
                lemma_child_in_no_match_of(pre, k, s[0]);
            }
        }
        assert forall|s: Seq<KeyEvent>| norm_seq(s) == norm_seq(t) implies #[trigger] self
            .spec_action_at(s) == Some(action) by {
            self.lemma_bind_step_on_path(pre, c0, c1, t, k, action, privileged, s);
        }
        assert forall|s: Seq<KeyEvent>| norm_seq(s) == norm_seq(t)
            implies #[trigger] self.spec_privileged_at(s) == privileged by {
            self.lemma_bind_step_on_path(pre, c0, c1, t, k, action, privileged, s);
        }
        assert forall|s: Seq<KeyEvent>| norm_seq(s) == norm_seq(t)
            implies #[trigger] self.spec_extendable_at(s) == pre.spec_extendable_at(s) by {
            self.lemma_bind_step_on_path(pre, c0, c1, t, k, action, privileged, s);
        }
        assert forall|s: Seq<KeyEvent>| norm_seq(s) != norm_seq(t) implies #[trigger] self
            .spec_action_at(s) == pre.spec_action_at(s) by {
            self.lemma_bind_step_off_path(pre, c0, c1, t, k, action, privileged, s);
        }
        assert forall|s: Seq<KeyEvent>| norm_seq(s) != norm_seq(t)
            implies #[trigger] self.spec_privileged_at(s) == pre.spec_privileged_at(s) by {
            self.lemma_bind_step_off_path(pre, c0, c1, t, k, action, privileged, s);
        }
        assert forall|s: Seq<KeyEvent>| !is_norm_prefix_of(s, t) implies #[trigger] self
            .spec_node_at(s) == pre.spec_node_at(s) by {
            if s.len() == 0 {
                lemma_norm_prefix_empty(t);
            } else {
                lemma_norm_prefix_decompose(s, t);
                if s[0].spec_normalize() == k.spec_normalize() {
                    let sd = s.drop_first();
                    assert(!is_norm_prefix_of(sd, t.drop_first()));
                    assert(c1.spec_node_at(sd) == c0.spec_node_at(sd));
                    if sd.len() == 0 {
                        lemma_norm_prefix_empty(t.drop_first());
                    } else if pre.spec_child(k) is None {
                        lemma_node_at_empty_none(c0, sd);
                    }
                }
            }
        }
        assert forall|s: Seq<KeyEvent>| is_norm_prefix_of(s, t) implies #[trigger] self.spec_node_at(
            s,
        ) is Some by {
            if s.len() > 0 {
                lemma_norm_prefix_decompose(s, t);
                assert(c1.spec_node_at(s.drop_first()) is Some);
            }
        }
    }

    /// The facts of `lemma_bind_step` at one path that normalizes like `t`.
    proof fn lemma_bind_step_on_path(
        &self,
        pre: KeyMapInner,
        c0: KeyMapInner,
        c1: KeyMapInner,
        t: Seq<KeyEvent>,
        k: KeyEvent,
        action: Action,
        privileged: bool,
        s: Seq<KeyEvent>,
    )
        requires
            t.len() > 0,
            t[0] == k,
            self.action == pre.action,
            self.privileged == pre.privileged,
            forall|q: KeyEvent| #[trigger]
                spec_child_in(self.next@, q) == if q.spec_normalize() == k.spec_normalize() {
                    Some(c1)
                } else {
                    spec_child_in(pre.next@, q)
                },
            pre.spec_child(k) is Some ==> pre.spec_child(k) == Some(c0),
            pre.spec_child(k) is None ==> c0.action is None && !c0.privileged && c0.next@.len()
                == 0,
            bind_effect(c0, c1, t.drop_first(), action, privileged),
            norm_seq(s) == norm_seq(t),
        ensures
            self.spec_action_at(s) == Some(action),
            self.spec_privileged_at(s) == privileged,
            self.spec_extendable_at(s) == pre.spec_extendable_at(s),
    {
        assert(norm_seq(s).len() == s.len());
        assert(norm_seq(t).len() == t.len());
        lemma_norm_eq_decompose(s, t);
        assert(spec_child_in(self.next@, s[0]) == Some(c1));
        let sd = s.drop_first();
        assert(c1.spec_action_at(sd) == Some(action));
        assert(c1.spec_privileged_at(sd) == privileged);
        assert(c1.spec_extendable_at(sd) == c0.spec_extendable_at(sd));
        if pre.spec_child(k) is Some {
            lemma_child_of_same(pre, k, s[0]);
        } else {
            lemma_child_in_no_match_of(pre, k, s[0]);
            if sd.len() > 0 {
                lemma_node_at_empty_none(c0, sd);
            }
        }
    }

    /// The facts of `lemma_bind_step` at one path that does not normalize
    /// like `t`.
    proof fn lemma_bind_step_off_path(
        &self,
        pre: KeyMapInner,
        c0: KeyMapInner,
        c1: KeyMapInner,
        t: Seq<KeyEvent>,
        k: KeyEvent,
        action: Action,
        privileged: bool,
        s: Seq<KeyEvent>,
    )
        requires
            t.len() > 0,
            t[0] == k,
            self.action == pre.action,
            self.privileged == pre.privileged,
            forall|q: KeyEvent| #[trigger]
                spec_child_in(self.next@, q) == if q.spec_normalize() == k.spec_normalize() {
                    Some(c1)
                } else {
                    spec_child_in(pre.next@, q)
                },
            pre.spec_child(k) is Some ==> pre.spec_child(k) == Some(c0),
            pre.spec_child(k) is None ==> c0.action is None && !c0.privileged && c0.next@.len()
                == 0,
            bind_effect(c0, c1, t.drop_first(), action, privileged),
            norm_seq(s) != norm_seq(t),
        ensures
            self.spec_action_at(s) == pre.spec_action_at(s),
            self.spec_privileged_at(s) == pre.spec_privileged_at(s),
    {
        if s.len() > 0 {
            lemma_norm_eq_decompose(s, t);
            if s[0].spec_normalize() == k.spec_normalize() {
                assert(spec_child_in(self.next@, s[0]) == Some(c1));
                let sd = s.drop_first();
                assert(norm_seq(sd) != norm_seq(t.drop_first()));
                assert(c1.spec_action_at(sd) == c0.spec_action_at(sd));
                assert(c1.spec_privileged_at(sd) == c0.spec_privileged_at(sd));
                if pre.spec_child(k) is Some {
                    lemma_child_of_same(pre, k, s[0]);
                } else {
                    lemma_child_in_no_match_of(pre, k, s[0]);
                    if sd.len() > 0 {
                        lemma_node_at_empty_none(c0, sd);
                    }
                }
            } else {
                assert(spec_child_in(self.next@, s[0]) == spec_child_in(pre.next@, s[0]));
            }
        }
    }
}

/// The empty path is a prefix of every path.
proof fn lemma_norm_prefix_empty(t: Seq<KeyEvent>)
    ensures
        is_norm_prefix_of(Seq::<KeyEvent>::empty(), t),
{
    assert(norm_seq(Seq::<KeyEvent>::empty()) =~= Seq::<KeyEvent>::empty());
    assert(Seq::<KeyEvent>::empty() =~= norm_seq(t).subrange(0, 0));
}

/// A node with no children has no node at any non-empty path.
proof fn lemma_node_at_empty_none(n: KeyMapInner, s: Seq<KeyEvent>)
    requires
        n.next@.len() == 0,
        s.len() > 0,
    ensures
        n.spec_node_at(s) is None,
{
}

/// If `q` normalizes like `k`, then looking up `q` finds what looking up `k`
/// finds.
proof fn lemma_child_of_same(n: KeyMapInner, k: KeyEvent, q: KeyEvent)
    requires
        q.spec_normalize() == k.spec_normalize(),
    ensures
        n.spec_child(q) == n.spec_child(k),
{
    lemma_child_in_same(n.next@, k, q);
}

proof fn lemma_child_in_same(s: Seq<(KeyEvent, KeyMapInner)>, k: KeyEvent, q: KeyEvent)
    requires
        q.spec_normalize() == k.spec_normalize(),
    ensures
        spec_child_in(s, q) == spec_child_in(s, k),
    decreases s.len(),
{
    if s.len() > 0 {
        lemma_child_in_same(s.drop_first(), k, q);
    }
}

proof fn lemma_child_in_no_match_of(n: KeyMapInner, k: KeyEvent, q: KeyEvent)
    requires
        q.spec_normalize() == k.spec_normalize(),
        n.spec_child(k) is None,
    ensures
        n.spec_child(q) is None,
{
    lemma_child_in_same(n.next@, k, q);
}

impl KeyMapInner {
    /// Bind the whole sequence `keys` to `action` below this node,
    /// overwriting any action previously bound to the same normalized
    /// sequence. A later binding for the same sequence wins.
    pub fn bind(&mut self, keys: &Vec<KeyEvent>, action: Action, privileged: bool)
        ensures
            bind_effect(*old(self), *final(self), keys@, action, privileged),
    {
        self.bind_from(keys, 0, action, privileged);
        proof {
            assert(keys@.skip(0) =~= keys@);
        }
    }
}

/// One configured binding: a key sequence bound to an action in one mode.
pub struct KeyBind {
    pub modd: Mod,
    pub keys: Vec<KeyEvent>,
    pub action: Action,
    pub privileged: bool,
}

/// A textual form of a group of bindings, as configuration files carry them:
/// the names of the modes they apply to and the spelled-out key sequence.
pub struct KeyBindSet {
    pub privileged: bool,
    pub on: Vec<String>,
    pub keys: String,
}

/// The trie registered under `name` in an extra-mode namespace list: the
/// first entry with that name wins.
pub open spec fn spec_extra_in(s: Seq<(String, KeyMapInner)>, name: Seq<char>) -> Option<
    KeyMapInner,
>
    decreases s.len(),
{
    if s.len() == 0 {
        None
    } else if s[0].0@ == name {
        Some(s[0].1)
    } else {
        spec_extra_in(s.drop_first(), name)
    }
}

proof fn lemma_extra_in_first_match(s: Seq<(String, KeyMapInner)>, name: Seq<char>, j: int)
    requires
        0 <= j < s.len(),
        s[j].0@ == name,
        forall|i: int| 0 <= i < j ==> (#[trigger] s[i].0)@ != name,
    ensures
        spec_extra_in(s, name) == Some(s[j].1),
    decreases j,
{
    if j > 0 {
        lemma_extra_in_first_match(s.drop_first(), name, j - 1);
    }
}

proof fn lemma_extra_in_no_match(s: Seq<(String, KeyMapInner)>, name: Seq<char>)
    requires
        forall|i: int| 0 <= i < s.len() ==> (#[trigger] s[i].0)@ != name,
    ensures
        spec_extra_in(s, name) is None,
    decreases s.len(),
{
    if s.len() > 0 {
        lemma_extra_in_no_match(s.drop_first(), name);
    }
}

proof fn lemma_extra_in_update(
    s: Seq<(String, KeyMapInner)>,
    j: int,
    c: KeyMapInner,
    name: Seq<char>,
    n2: Seq<char>,
)
    requires
        0 <= j < s.len(),
        s[j].0@ == name,
        forall|i: int| 0 <= i < j ==> (#[trigger] s[i].0)@ != name,
    ensures
        spec_extra_in(s.update(j, (s[j].0, c)), n2) == if n2 == name {
            Some(c)
        } else {
            spec_extra_in(s, n2)
        },
    decreases j,
{
    let s2 = s.update(j, (s[j].0, c));
    if j == 0 {
        if n2 != name {
            assert(s2.drop_first() =~= s.drop_first());
        }
    } else {
        let sd = s.drop_first();
        assert(s2.drop_first() =~= sd.update(j - 1, (sd[j - 1].0, c)));
        lemma_extra_in_update(sd, j - 1, c, name, n2);
    }
}

proof fn lemma_extra_in_push(
    s: Seq<(String, KeyMapInner)>,
    nm: String,
    c: KeyMapInner,
    n2: Seq<char>,
)
    requires
        forall|i: int| 0 <= i < s.len() ==> (#[trigger] s[i].0)@ != nm@,
    ensures
        spec_extra_in(s.push((nm, c)), n2) == if n2 == nm@ {
            Some(c)
        } else {
            spec_extra_in(s, n2)
        },
    decreases s.len(),
{
    let s2 = s.push((nm, c));
    if s.len() == 0 {
        assert(s2[0] == (nm, c));
        if n2 == nm@ {
            assert(spec_extra_in(s2, n2) == Some(c));
        } else {
            assert(s2.drop_first() =~= Seq::<(String, KeyMapInner)>::empty());
            assert(spec_extra_in(s2.drop_first(), n2) is None);
        }
    } else {
        assert(s2[0] == s[0]);
        assert(s2.drop_first() =~= s.drop_first().push((nm, c)));
        lemma_extra_in_push(s.drop_first(), nm, c, n2);
    }
}

/// The action and privilege that the last binding in `binds` for mode `m`
/// and sequence `s` (in the normalized equality domain) configures, if any:
/// registration order does not matter except that a later binding for an
/// identical sequence in the same mode wins.
pub open spec fn spec_last_binding(binds: Seq<KeyBind>, m: Mod, s: Seq<KeyEvent>) -> Option<
    (Action, bool),
>
    decreases binds.len(),
{
    if binds.len() == 0 {
        None
    } else {
        let b = binds.last();
        if shares_trie(b.modd, m) && norm_seq(b.keys@) == norm_seq(s) {
            Some((b.action, b.privileged))
        } else {
            spec_last_binding(binds.drop_last(), m, s)
        }
    }
}

/// Two modes resolve against the same trie when they share the base mode,
/// whatever the extension.
pub open spec fn shares_trie(a: Mod, b: Mod) -> bool {
    match (a, b) {
        (Mod::Normal, Mod::Normal) => true,
        (Mod::Insert(_), Mod::Insert(_)) => true,
        (Mod::Visual(_), Mod::Visual(_)) => true,
        (Mod::Command, Mod::Command) => true,
        _ => false,
    }
}

/// One prefix trie per base mode, plus one per named extra-mode namespace.
/// Tries are built at configuration time and read-only during resolution.
pub struct KeyMap {
    pub imap: KeyMapInner,
    pub nmap: KeyMapInner,
    pub cmap: KeyMapInner,
    pub vmap: KeyMapInner,
    pub extra: Vec<(String, KeyMapInner)>,
}

impl KeyMap {
    /// The base-mode trie that `m` resolves against.
    pub open spec fn spec_root_for(self, m: Mod) -> KeyMapInner {
        match m {
            Mod::Normal => self.nmap,
            Mod::Insert(_) => self.imap,
            Mod::Visual(_) => self.vmap,
            Mod::Command => self.cmap,
        }
    }

    /// The trie of the extra-mode namespace `name`, if one is registered.
    pub open spec fn spec_extra_root(self, name: Seq<char>) -> Option<KeyMapInner> {
        spec_extra_in(self.extra@, name)
    }

    /// An empty keymap: no binding in any mode and no extra namespace.
    pub fn new() -> (m: KeyMap)
        ensures
            forall|md: Mod| (#[trigger] m.spec_root_for(md)).action is None
                && m.spec_root_for(md).next@.len() == 0,
            m.extra@.len() == 0,
    {
        KeyMap {
            imap: KeyMapInner::new(),
            nmap: KeyMapInner::new(),
            cmap: KeyMapInner::new(),
            vmap: KeyMapInner::new(),
            extra: Vec::new(),
        }
    }

    /// Bind `keys` to `action` in the trie of mode `modd`. Later bindings for
    /// the same normalized sequence in the same mode overwrite earlier ones;
    /// the other modes and the extra namespaces are untouched.
    pub fn bind(&mut self, modd: Mod, keys: &Vec<KeyEvent>, action: Action, privileged: bool)
        ensures
            bind_effect(
                old(self).spec_root_for(modd),
                final(self).spec_root_for(modd),
                keys@,
                action,
                privileged,
            ),
            forall|m: Mod|
                !shares_trie(m, modd) ==> #[trigger] final(self).spec_root_for(m) == old(
                    self,
                ).spec_root_for(m),
            final(self).extra@ == old(self).extra@,
    {
        match modd {
            Mod::Normal => self.nmap.bind(keys, action, privileged),
            Mod::Insert(_) => self.imap.bind(keys, action, privileged),
            Mod::Visual(_) => self.vmap.bind(keys, action, privileged),
            Mod::Command => self.cmap.bind(keys, action, privileged),
        }
    }

    /// Build the base-mode tries from an ordered list of bindings, applied
    /// deterministically at build time: in every mode, each sequence is bound
    /// to the action of the last binding in the list that configures it.
    pub fn build(binds: &Vec<KeyBind>) -> (m: KeyMap)
        ensures
            forall|md: Mod, s: Seq<KeyEvent>| #[trigger]
                m.spec_root_for(md).spec_action_at(s) == (match spec_last_binding(binds@, md, s) {
                    Some(ap) => Some(ap.0),
                    None => None,
                }),
            forall|md: Mod, s: Seq<KeyEvent>| #[trigger]
                m.spec_root_for(md).spec_privileged_at(s) == (match spec_last_binding(
                    binds@,
                    md,
                    s,
                ) {
                    Some(ap) => ap.1,
                    None => false,
                }),
            m.extra@.len() == 0,
    {
        let mut m = KeyMap::new();
        let mut i: usize = 0;
        proof {
            assert forall|md: Mod, s: Seq<KeyEvent>|
                spec_last_binding(binds@.take(0), md, s) is None by {
                assert(binds@.take(0).len() == 0);
            }
            assert forall|md: Mod, s: Seq<KeyEvent>| #[trigger]
                m.spec_root_for(md).spec_action_at(s) is None
                    && !m.spec_root_for(md).spec_privileged_at(s) by {
                if s.len() > 0 {
                    assert(m.spec_root_for(md).spec_child(s[0]) is None);
                }
            }
        }
        while i < binds.len()
            invariant
                i <= binds@.len(),
                m.extra@.len() == 0,
                forall|md: Mod, s: Seq<KeyEvent>| #[trigger]
                    m.spec_root_for(md).spec_action_at(s) == (match spec_last_binding(
                        binds@.take(i as int),
                        md,
                        s,
                    ) {
                        Some(ap) => Some(ap.0),
                        None => None,
                    }),
                forall|md: Mod, s: Seq<KeyEvent>| #[trigger]
                    m.spec_root_for(md).spec_privileged_at(s) == (match spec_last_binding(
                        binds@.take(i as int),
                        md,
                        s,
                    ) {
                        Some(ap) => ap.1,
                        None => false,
                    }),
            decreases binds@.len() - i,
        {
            let ghost pre = m;
            let b = &binds[i];
            m.bind(b.modd, &b.keys, b.action, b.privileged);
            proof {
                let tk = binds@.take(i as int + 1);
                assert(tk.drop_last() =~= binds@.take(i as int));
                assert(tk.last() == binds@[i as int]);
                assert forall|md: Mod, s: Seq<KeyEvent>| #[trigger]
                    m.spec_root_for(md).spec_action_at(s) == (match spec_last_binding(tk, md, s) {
                        Some(ap) => Some(ap.0),
                        None => None,
                    }) && #[trigger] m.spec_root_for(md).spec_privileged_at(s) == (
                match spec_last_binding(tk, md, s) {
                    Some(ap) => ap.1,
                    None => false,
                }) by {
                    if shares_trie(md, b.modd) {
                        assert(m.spec_root_for(md) == m.spec_root_for(b.modd));
                        assert(pre.spec_root_for(md) == pre.spec_root_for(b.modd));
                        assert(shares_trie(b.modd, md));
                    } else {
                        assert(!shares_trie(b.modd, md));
                        assert(m.spec_root_for(md) == pre.spec_root_for(md));
                    }
                }
            }
            i = i + 1;
        }
        proof {
            assert(binds@.take(binds@.len() as int) =~= binds@);
        }
        m
    }

    /// A reference to the trie of mode `m`.
    pub fn root_for(&self, m: &Mod) -> (r: &KeyMapInner)
        ensures
            *r == self.spec_root_for(*m),
    {
        match m {
            Mod::Normal => &self.nmap,
            Mod::Insert(_) => &self.imap,
            Mod::Visual(_) => &self.vmap,
            Mod::Command => &self.cmap,
        }
    }

    fn find_extra(&self, name: &String) -> (r: Option<usize>)
        ensures
            match r {
                Some(j) => 0 <= j < self.extra@.len() && self.extra@[j as int].0@ == name@
                    && forall|i: int| 0 <= i < j ==> (#[trigger] self.extra@[i].0)@ != name@,
                None => forall|i: int|
                    0 <= i < self.extra@.len() ==> (#[trigger] self.extra@[i].0)@ != name@,
            },
    {
        let mut j: usize = 0;
        while j < self.extra.len()
            invariant
                j <= self.extra@.len(),
                forall|i: int| 0 <= i < j ==> (#[trigger] self.extra@[i].0)@ != name@,
            decreases self.extra@.len() - j,
        {
            if self.extra[j].0 == *name {
                return Some(j);
            }
            j = j + 1;
        }
        None
    }

    /// A reference to the trie of the extra namespace `name`, if registered.
    pub fn extra_root(&self, name: &String) -> (r: Option<&KeyMapInner>)
        ensures
            match r {
                Some(n) => self.spec_extra_root(name@) == Some(*n),
                None => self.spec_extra_root(name@) is None,
            },
    {
        match self.find_extra(name) {
            Some(j) => {
                proof {
                    lemma_extra_in_first_match(self.extra@, name@, j as int);
                }
                Some(&self.extra[j].1)
            },
            None => {
                proof {
                    lemma_extra_in_no_match(self.extra@, name@);
                }
                None
            },
        }
    }

    /// Bind `keys` to `action` in the extra namespace `name`, creating the
    /// namespace if it does not exist yet. The base-mode tries and the other
    /// namespaces are untouched.
    pub fn bind_extra(
        &mut self,
        name: &String,
        keys: &Vec<KeyEvent>,
        action: Action,
        privileged: bool,
    )
        ensures
            final(self).spec_extra_root(name@) is Some,
            exists|pre_root: KeyMapInner|
                (match old(self).spec_extra_root(name@) {
                    Some(r) => pre_root == r,
                    None => pre_root.action is None && !pre_root.privileged && pre_root.next@.len()
                        == 0,
                }) && #[trigger] bind_effect(
                    pre_root,
                    final(self).spec_extra_root(name@).unwrap(),
                    keys@,
                    action,
                    privileged,
                ),
            forall|n2: Seq<char>|
                n2 != name@ ==> #[trigger] final(self).spec_extra_root(n2) == old(
                    self,
                ).spec_extra_root(n2),
            forall|m: Mod| #[trigger]
                final(self).spec_root_for(m) == old(self).spec_root_for(m),
    {
        let ghost pre = *self;
        match self.find_extra(name) {
            Some(j) => {
                let (nm, mut node) = self.extra.remove(j);
                let ghost n0 = node;
                node.bind(keys, action, privileged);
                self.extra.insert(j, (nm, node));
                proof {
                    assert(self.extra@ =~= pre.extra@.update(j as int, (nm, node)));
                    lemma_extra_in_first_match(pre.extra@, name@, j as int);
                    assert forall|n2: Seq<char>| #[trigger] spec_extra_in(self.extra@, n2) == (
                    if n2 == name@ {
                        Some(node)
                    } else {
                        spec_extra_in(pre.extra@, n2)
                    }) by {
                        lemma_extra_in_update(pre.extra@, j as int, node, name@, n2);
                    }
                    assert(self.spec_extra_root(name@) == Some(node));
                    assert(bind_effect(n0, self.spec_extra_root(name@).unwrap(), keys@, action, privileged));
                }
            },
            None => {
                let mut node = KeyMapInner::new();
                let ghost n0 = node;
                node.bind(keys, action, privileged);
                let nm = name.clone();
                self.extra.push((nm, node));
                proof {
                    assert(self.extra@ =~= pre.extra@.push((nm, node)));
                    lemma_extra_in_no_match(pre.extra@, name@);
                    assert forall|n2: Seq<char>| #[trigger] spec_extra_in(self.extra@, n2) == (
                    if n2 == name@ {
                        Some(node)
                    } else {
                        spec_extra_in(pre.extra@, n2)
                    }) by {
                        lemma_extra_in_push(pre.extra@, nm, node, n2);
                    }
                    assert(self.spec_extra_root(name@) == Some(node));
                    assert(bind_effect(n0, self.spec_extra_root(name@).unwrap(), keys@, action, privileged));
                }
            },
        }
    }
}

} // verus!

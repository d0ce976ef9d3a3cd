use vstd::prelude::*;

use crate::actions::{update, update_ok, updated, Action, ApplyLayoutChange, Effect};
use crate::store::{ObservedGraphStore, Store};

verus! {

/// `ms` and `es` record the first `n` steps of applying `q` from `s`: `ms[i]`
/// is the store before step `i`, `es[i]` the effects of step `i`.
pub open spec fn is_run<W, P, V, L, C>(
    s: Store<W, P, V, L>,
    q: Seq<Action<W, P, C>>,
    ms: Seq<Store<W, P, V, L>>,
    es: Seq<Seq<Effect>>,
    n: int,
) -> bool {
    &&& 0 <= n <= q.len()
    &&& ms.len() == n + 1
    &&& es.len() == n
    &&& ms[0] == s
    &&& forall|i: int| 0 <= i < n ==> #[trigger] updated(ms[i], q[i], ms[i + 1], es[i])
}

/// The effects of the steps in order.
pub open spec fn flatten(es: Seq<Seq<Effect>>) -> Seq<Effect>
    decreases es.len(),
{
    if es.len() == 0 {
        Seq::empty()
    } else {
        flatten(es.drop_last()) + es.last()
    }
}

/// `q` can be applied in turn from `s` without failing, whatever each step yields.
pub open spec fn queue_ok<W, P, V, L, C>(s: Store<W, P, V, L>, q: Seq<Action<W, P, C>>) -> bool {
    forall|ms: Seq<Store<W, P, V, L>>, es: Seq<Seq<Effect>>, n: int|
        #[trigger] is_run(s, q, ms, es, n) && n < q.len() ==> update_ok(ms[n], q[n])
}

/// Applying the actions `q` in turn to `s` gives `t` and the effects `e`, in order.
pub open spec fn applied<W, P, V, L, C>(
    s: Store<W, P, V, L>,
    q: Seq<Action<W, P, C>>,
    t: Store<W, P, V, L>,
    e: Seq<Effect>,
) -> bool {
    exists|ms: Seq<Store<W, P, V, L>>, es: Seq<Seq<Effect>>|
        #[trigger] is_run(s, q, ms, es, q.len() as int) && ms.last() == t && e == flatten(es)
}

/// The editor: the store, a cache of derived data, and the queues of actions
/// waiting to be applied and of effects waiting to be run.
pub struct State<W, P, V, L, C, K> {
    pub store: Store<W, P, V, L>,
    pub cache: K,
    action_queue: Vec<Action<W, P, C>>,
    effect_queue: Vec<Effect>,
}

impl<W: Copy, P, V: Copy, L: ApplyLayoutChange<C>, C, K> State<W, P, V, L, C, K> {
    /// The store.
    pub closed spec fn current(&self) -> Store<W, P, V, L> {
        self.store
    }

    /// The cache.
    pub closed spec fn current_cache(&self) -> K {
        self.cache
    }

    /// The actions waiting to be applied, oldest first.
    pub closed spec fn queued(&self) -> Seq<Action<W, P, C>> {
        self.action_queue@
    }

    /// The effects waiting to be run, oldest first.
    pub closed spec fn pending(&self) -> Seq<Effect> {
        self.effect_queue@
    }

    /// Empty queues.
    pub fn new(store: Store<W, P, V, L>, cache: K) -> (r: Self)
        ensures
            r.current() == store,
            r.current_cache() == cache,
            r.queued().len() == 0,
            r.pending().len() == 0,
    {
        State { store, cache, action_queue: Vec::new(), effect_queue: Vec::new() }
    }

    /// Queues an action.
    pub fn dispatch(&mut self, action: Action<W, P, C>)
        ensures
            final(self).queued() == old(self).queued().push(action),
            final(self).current() == old(self).current(),
            final(self).current_cache() == old(self).current_cache(),
            final(self).pending() == old(self).pending(),
    {
        self.action_queue.push(action);
    }

    /// Applies the queued actions in order, queues their effects, and marks the
    /// observed graph up to date.
    pub fn flush_actions(&mut self)
        requires
            old(self).current().wf(),
            queue_ok(old(self).current(), old(self).queued()),
        ensures
            final(self).current().wf(),
            final(self).queued().len() == 0,
            final(self).current_cache() == old(self).current_cache(),
            exists|m: Store<W, P, V, L>, e: Seq<Effect>|
                #[trigger] applied(old(self).current(), old(self).queued(), m, e) && final(self).pending()
                    == old(self).pending() + e && final(self).current() == (Store {
                    observed: ObservedGraphStore { observed_graph_dirty: false, ..m.observed },
                    ..m
                }),
    {
        let ghost s0 = self.store;
        let ghost q0 = self.action_queue@;
        let ghost e0 = self.effect_queue@;
        let mut actions: Vec<Action<W, P, C>> = Vec::new();
        std::mem::swap(&mut actions, &mut self.action_queue);
        let ghost mut ms: Seq<Store<W, P, V, L>> = seq![s0];
        let ghost mut es: Seq<Seq<Effect>> = Seq::empty();
        let ghost mut k: int = 0;
        assert(q0.skip(0) =~= q0);
        while actions.len() > 0
            invariant
                0 <= k <= q0.len(),
                actions@ == q0.skip(k),
                self.store.wf(),
                queue_ok(s0, q0),
                is_run(s0, q0, ms, es, k),
                self.store == ms[k],
                self.effect_queue@ == e0 + flatten(es),
                self.action_queue@.len() == 0,
                self.cache == old(self).cache,
            decreases actions@.len(),
        {
            let action = actions.remove(0);
            assert(q0.skip(k)[0] == action);
            assert(action == q0[k]);
            assert(q0.skip(k).drop_first() =~= q0.skip(k + 1));
            assert(update_ok(ms[k], q0[k]));
            let mut effects = update(&mut self.store, action);
            let ghost e1 = effects@;
            self.effect_queue.append(&mut effects);
            proof {
                let ms2 = ms.push(self.store);
                let es2 = es.push(e1);
                assert(es2.drop_last() =~= es);
                assert(self.effect_queue@ =~= e0 + flatten(es2));
                assert forall|i: int| 0 <= i < k + 1 implies #[trigger] updated(ms2[i], q0[i], ms2[i + 1], es2[i]) by {
                    if i < k {
                        assert(updated(ms[i], q0[i], ms[i + 1], es[i]));
                    }
                }
                ms = ms2;
                es = es2;
                k = k + 1;
            }
        }
        let ghost m = self.store;
        assert(is_run(s0, q0, ms, es, q0.len() as int));
        assert(applied(s0, q0, m, flatten(es)));
        self.store.ensure_observed_graph_fresh();
    }

    /// Hands out the effects waiting to be run, oldest first, and empties the queue.
    pub fn take_effects(&mut self) -> (r: Vec<Effect>)
        ensures
            r@ == old(self).pending(),
            final(self).pending().len() == 0,
            final(self).current() == old(self).current(),
            final(self).current_cache() == old(self).current_cache(),
            final(self).queued() == old(self).queued(),
    {
        let mut effects: Vec<Effect> = Vec::new();
        std::mem::swap(&mut effects, &mut self.effect_queue);
        effects
    }
}

} // verus!

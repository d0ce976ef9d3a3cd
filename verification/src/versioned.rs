use vstd::prelude::*;
use vstd::std_specs::cmp::PartialEqSpec;

verus! {

/// The version that follows `v`: one more, wrapping around at `u64::MAX`.
pub open spec fn next_version(v: u64) -> u64 {
    if v == u64::MAX {
        0
    } else {
        (v + 1) as u64
    }
}

fn bump(v: u64) -> (r: u64)
    ensures
        r == next_version(v),
{
    if v == u64::MAX {
        0
    } else {
        v + 1
    }
}

// -------------------------------------------------------------------
// Versioned
// -------------------------------------------------------------------

/// A value together with a counter that changes on every mutable access.
#[derive(Clone)]
pub struct Versioned<T> {
    version: u64,
    data: T,
}

impl<T> Versioned<T> {
    /// The wrapped value.
    pub closed spec fn value(&self) -> T {
        self.data
    }

    /// The current version.
    pub closed spec fn spec_version(&self) -> u64 {
        self.version
    }

    /// Wraps `data` at version 0.
    pub fn new(data: T) -> (r: Self)
        ensures
            r.value() == data,
            r.spec_version() == 0,
    {
        Self { version: 0, data }
    }

    /// Read access; the version does not change.
    pub fn get(&self) -> (r: &T)
        ensures
            *r == self.value(),
    {
        &self.data
    }

    /// Write access; the version moves on, whether or not the value is then changed.
    pub fn get_mut(&mut self) -> (r: &mut T)
        ensures
            *r == old(self).value(),
            final(self).value() == *final(r),
            final(self).spec_version() == next_version(old(self).spec_version()),
    {
        self.version = bump(self.version);
        &mut self.data
    }

    /// Replaces the value; the version moves on.
    pub fn set(&mut self, data: T)
        ensures
            final(self).value() == data,
            final(self).spec_version() == next_version(old(self).spec_version()),
    {
        self.data = data;
        self.version = bump(self.version);
    }

    /// The current version.
    pub fn version(&self) -> (v: u64)
        ensures
            v == self.spec_version(),
    {
        self.version
    }
}

// -------------------------------------------------------------------
// Memoized
// -------------------------------------------------------------------

/// A value computed from a store `S`, recomputed only when the key that
/// `get_key` extracts from the store changes.
pub struct Memoized<S, K, V, GK, GC> {
    version: u64,
    last_key: Option<K>,
    last_value: Option<V>,
    get_key: GK,
    calc: GC,
    store: core::marker::PhantomData<S>,
}

impl<S, K: PartialEq, V, GK: Fn(&S) -> K, GC: Fn(&S) -> V> Memoized<S, K, V, GK, GC> {
    pub closed spec fn key_fn(&self) -> GK {
        self.get_key
    }

    pub closed spec fn calc_fn(&self) -> GC {
        self.calc
    }

    pub closed spec fn spec_last_key(&self) -> Option<K> {
        self.last_key
    }

    pub closed spec fn spec_last_value(&self) -> Option<V> {
        self.last_value
    }

    pub closed spec fn spec_version(&self) -> u64 {
        self.version
    }

    /// Both functions may be called on any store, and a key is cached exactly
    /// when a value is.
    pub open spec fn wf(&self) -> bool {
        &&& forall|s: &S| call_requires(self.key_fn(), (s,))
        &&& forall|s: &S| call_requires(self.calc_fn(), (s,))
        &&& (self.spec_last_key() is Some <==> self.spec_last_value() is Some)
    }

    /// Whether `fresh` differs from the cached key, so that a lookup recomputes.
    pub open spec fn key_changed(&self, fresh: K) -> bool {
        match self.spec_last_key() {
            Some(k) => !k.eq_spec(&fresh),
            None => true,
        }
    }

    /// Creates an empty cache at version 0.
    pub fn new(get_key: GK, calc: GC) -> (r: Self)
        requires
            forall|s: &S| call_requires(get_key, (s,)),
            forall|s: &S| call_requires(calc, (s,)),
        ensures
            r.wf(),
            r.key_fn() == get_key,
            r.calc_fn() == calc,
            r.spec_last_key() is None,
            r.spec_last_value() is None,
            r.spec_version() == 0,
    {
        Self {
            version: 0,
            last_key: None,
            last_value: None,
            get_key,
            calc,
            store: core::marker::PhantomData,
        }
    }

    fn refresh(&mut self, store: &S) -> (recomputed: bool)
        requires
            old(self).wf(),
        ensures
            final(self).wf(),
            final(self).key_fn() == old(self).key_fn(),
            final(self).calc_fn() == old(self).calc_fn(),
            final(self).spec_last_value() is Some,
            old(self).spec_last_key() is None ==> recomputed,
            exists|k: K|
                #[trigger] call_ensures(old(self).key_fn(), (store,), k) && (K::obeys_eq_spec()
                    ==> (recomputed <==> old(self).key_changed(k))) && (recomputed
                    ==> final(self).spec_last_key() == Some(k)),
            recomputed ==> {
                &&& final(self).spec_version() == next_version(old(self).spec_version())
                &&& call_ensures(old(self).calc_fn(), (store,), final(self).spec_last_value().unwrap())
            },
            !recomputed ==> {
                &&& final(self).spec_version() == old(self).spec_version()
                &&& final(self).spec_last_key() == old(self).spec_last_key()
                &&& final(self).spec_last_value() == old(self).spec_last_value()
            },
    {
        proof {
            assert(call_requires(self.key_fn(), (store,)));
            assert(call_requires(self.calc_fn(), (store,)));
        }
        let ghost before = *self;
        let key = (self.get_key)(store);
        let changed = match &self.last_key {
            Some(k) => *k != key,
            None => true,
        };
        if changed {
            let val = (self.calc)(store);
            self.last_key = Some(key);
            self.last_value = Some(val);
            self.version = bump(self.version);
        }
        proof {
            assert forall|s: &S| call_requires(self.key_fn(), (s,)) by {
                assert(call_requires(before.key_fn(), (s,)));
            }
            assert forall|s: &S| call_requires(self.calc_fn(), (s,)) by {
                assert(call_requires(before.calc_fn(), (s,)));
            }
        }
        changed
    }

    /// Recomputes only if the key changed; returns the cached value.
    pub fn get(&mut self, store: &S) -> (r: &V)
        requires
            old(self).wf(),
        ensures
            final(self).wf(),
            final(self).key_fn() == old(self).key_fn(),
            final(self).calc_fn() == old(self).calc_fn(),
            final(self).spec_last_value() == Some(*r),
            exists|k: K|
                #[trigger] call_ensures(old(self).key_fn(), (store,), k) && (K::obeys_eq_spec()
                    ==> (final(self).spec_version() != old(self).spec_version()
                    <==> old(self).key_changed(k))),
            final(self).spec_version() != old(self).spec_version() ==> {
                &&& final(self).spec_version() == next_version(old(self).spec_version())
                &&& call_ensures(old(self).calc_fn(), (store,), *r)
                &&& exists|k: K|
                    #[trigger] call_ensures(old(self).key_fn(), (store,), k)
                        && final(self).spec_last_key() == Some(k)
            },
            final(self).spec_version() == old(self).spec_version() ==> {
                &&& final(self).spec_last_key() == old(self).spec_last_key()
                &&& final(self).spec_last_value() == old(self).spec_last_value()
            },
            old(self).spec_last_key() is None ==> final(self).spec_version() == next_version(old(self).spec_version())
                && call_ensures(old(self).calc_fn(), (store,), *r),
    {
        self.refresh(store);
        self.last_value.as_ref().unwrap()
    }

    /// Mutable access to the cached value, computing it first if the key changed.
    pub fn get_mut(&mut self, store: &S) -> (r: &mut V)
        requires
            old(self).wf(),
        ensures
            final(self).wf(),
            final(self).key_fn() == old(self).key_fn(),
            final(self).calc_fn() == old(self).calc_fn(),
            final(self).spec_last_value() == Some(*final(r)),
            exists|k: K|
                #[trigger] call_ensures(old(self).key_fn(), (store,), k) && (K::obeys_eq_spec()
                    ==> (final(self).spec_version() != old(self).spec_version()
                    <==> old(self).key_changed(k))),
            final(self).spec_version() != old(self).spec_version() ==> {
                &&& final(self).spec_version() == next_version(old(self).spec_version())
                &&& call_ensures(old(self).calc_fn(), (store,), *r)
                &&& exists|k: K|
                    #[trigger] call_ensures(old(self).key_fn(), (store,), k)
                        && final(self).spec_last_key() == Some(k)
            },
            final(self).spec_version() == old(self).spec_version() ==> {
                &&& final(self).spec_last_key() == old(self).spec_last_key()
                &&& Some(*r) == old(self).spec_last_value()
            },
            old(self).spec_last_key() is None ==> final(self).spec_version() == next_version(old(self).spec_version())
                && call_ensures(old(self).calc_fn(), (store,), *r),
    {
        self.refresh(store);
        self.last_value.as_mut().unwrap()
    }

    /// The number of recomputations so far, wrapping at `u64::MAX`.
    pub fn version(&self) -> (v: u64)
        ensures
            v == self.spec_version(),
    {
        self.version
    }
}

} // verus!

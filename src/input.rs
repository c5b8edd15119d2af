//! The set of currently held keys, kept up to date by press and release events.
use vstd::prelude::*;

verus! {

/// Held keys, identified by key code. `keys_down` holds each held key once;
/// `new_keys` holds the keys that became held since the last tick, also those
/// released again in the meantime.
pub struct KeyboardState {
    pub keys_down: Vec<u32>,
    pub new_keys: Vec<u32>,
}

fn index_of(v: &Vec<u32>, key: u32) -> (r: Option<usize>)
    ensures
        match r {
            Some(i) => i < v@.len() && v@[i as int] == key,
            None => !v@.contains(key),
        },
{
    let mut i: usize = 0;
    while i < v.len()
        invariant
            i <= v@.len(),
            forall|j: int| 0 <= j < i ==> v@[j] != key,
        decreases v@.len() - i,
    {
        if v[i] == key {
            return Some(i);
        }
        i += 1;
    }
    None
}

impl KeyboardState {
    /// Neither list holds a key twice.
    pub open spec fn wf(&self) -> bool {
        &&& self.keys_down@.no_duplicates()
        &&& self.new_keys@.no_duplicates()
    }

    /// The set of held keys.
    pub open spec fn held(&self) -> Set<u32> {
        self.keys_down@.to_set()
    }

    /// The set of keys pressed since the last tick.
    pub open spec fn fresh(&self) -> Set<u32> {
        self.new_keys@.to_set()
    }

    /// No key held.
    pub fn new() -> (r: KeyboardState)
        ensures
            r.wf(),
            r.held() == Set::<u32>::empty(),
            r.fresh() == Set::<u32>::empty(),
    {
        let r = KeyboardState { keys_down: Vec::new(), new_keys: Vec::new() };
        assert(r.held() =~= Set::<u32>::empty());
        assert(r.fresh() =~= Set::<u32>::empty());
        r
    }

    /// Records a press of `key`; returns whether the key was not held before.
    /// A key newly held is also recorded as pressed in this tick.
    pub fn press(&mut self, key: u32) -> (r: bool)
        requires
            old(self).wf(),
        ensures
            final(self).wf(),
            r == !old(self).held().contains(key),
            final(self).held() == old(self).held().insert(key),
            r ==> final(self).fresh() == old(self).fresh().insert(key),
            !r ==> final(self).fresh() == old(self).fresh(),
    {
        match index_of(&self.keys_down, key) {
            Some(_) => {
                assert(self.keys_down@.to_set().contains(key));
                assert(old(self).held().insert(key) =~= self.held());
                false
            },
            None => {
                self.keys_down.push(key);
                proof {
                    lemma_push_contains(old(self).keys_down@, key);
                }
                assert(self.keys_down@ == old(self).keys_down@.push(key));
                assert(self.held() =~= old(self).held().insert(key));
                if index_of(&self.new_keys, key).is_none() {
                    self.new_keys.push(key);
                    proof {
                        lemma_push_contains(old(self).new_keys@, key);
                    }
                    assert(self.new_keys@ == old(self).new_keys@.push(key));
                } else {
                    assert(self.new_keys@.to_set().contains(key));
                }
                assert(self.fresh() =~= old(self).fresh().insert(key));
                true
            },
        }
    }

    /// Records a release of `key`: it is no longer held. The keys pressed in
    /// this tick stay as they are until the tick ends.
    pub fn release(&mut self, key: u32)
        requires
            old(self).wf(),
        ensures
            final(self).wf(),
            final(self).held() == old(self).held().remove(key),
            final(self).fresh() == old(self).fresh(),
    {
        remove_key(&mut self.keys_down, key);
        assert(self.held() =~= old(self).held().remove(key));
    }

    /// Ends a tick: no key counts as newly pressed any more.
    pub fn end_tick(&mut self)
        requires
            old(self).wf(),
        ensures
            final(self).wf(),
            final(self).held() == old(self).held(),
            final(self).fresh() == Set::<u32>::empty(),
    {
        self.new_keys.clear();
        assert(self.fresh() =~= Set::<u32>::empty());
    }

    /// Whether `key` is held.
    pub fn is_down(&self, key: u32) -> (r: bool)
        ensures
            r == self.held().contains(key),
    {
        index_of(&self.keys_down, key).is_some()
    }
}

proof fn lemma_push_contains(s: Seq<u32>, x: u32)
    ensures
        forall|k: u32| s.push(x).contains(k) <==> (s.contains(k) || k == x),
{
    assert forall|k: u32| s.push(x).contains(k) <==> (s.contains(k) || k == x) by {
        if s.contains(k) {
            let j = choose|j: int| 0 <= j < s.len() && s[j] == k;
            assert(s.push(x)[j] == k);
        }
        if k == x {
            assert(s.push(x)[s.len() as int] == k);
        }
        if s.push(x).contains(k) && k != x {
            let j = choose|j: int| 0 <= j < s.len() + 1 && s.push(x)[j] == k;
            assert(s[j] == k);
        }
    };
}

fn remove_key(v: &mut Vec<u32>, key: u32)
    requires
        old(v)@.no_duplicates(),
    ensures
        final(v)@.no_duplicates(),
        forall|k: u32| final(v)@.contains(k) <==> (old(v)@.contains(k) && k != key),
{
    match index_of(v, key) {
        Some(i) => {
            let ghost s = v@;
            v.remove(i);
            assert(v@ =~= s.remove(i as int));
            assert forall|k: u32| v@.contains(k) <==> (s.contains(k) && k != key) by {
                if v@.contains(k) {
                    let j = choose|j: int| 0 <= j < v@.len() && v@[j] == k;
                    if j < i {
                        assert(s[j] == k);
                    } else {
                        assert(s[j + 1] == k);
                    }
                }
                if s.contains(k) && k != key {
                    let j = choose|j: int| 0 <= j < s.len() && s[j] == k;
                    if j < i {
                        assert(v@[j] == k);
                    } else {
                        assert(v@[j - 1] == k);
                    }
                }
            };
        },
        None => {},
    }
}

} // verus!

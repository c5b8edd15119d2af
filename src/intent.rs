//! Direction mapping from keys to grid directions, and the movement intent
//! that a set of held keys adds up to.
use vstd::prelude::*;
use crate::vector::{IVec2, vec2_add};
use crate::input::KeyboardState;

verus! {

/// Key code of the "forward" key (W).
pub const KEY_W: u32 = 0x77;
/// Key code of the "left" key (A).
pub const KEY_A: u32 = 0x61;
/// Key code of the "backward" key (S).
pub const KEY_S: u32 = 0x73;
/// Key code of the "right" key (D).
pub const KEY_D: u32 = 0x64;

/// A rejected mapping entry.
#[derive(Debug, Clone, Copy, PartialEq, Eq, Structural)]
pub enum ConfigError {
    /// The direction is not one of the four unit grid directions.
    NotUnitDirection,
    /// The key is mapped already.
    DuplicateKey,
}

/// A fixed lookup from key code to a unit grid direction. Each key is mapped
/// at most once.
pub struct DirectionMapping {
    pub entries: Vec<(u32, IVec2)>,
}

/// A unit grid direction: `(1, 0)`, `(-1, 0)`, `(0, 1)` or `(0, -1)`.
pub open spec fn valid_dir(d: IVec2) -> bool {
    ||| d[0] == 0 && (d[1] == 1 || d[1] == -1)
    ||| d[1] == 0 && (d[0] == 1 || d[0] == -1)
}

/// The direction mapped to `k` in `m`, looked up from the back.
pub open spec fn dir_of(m: Seq<(u32, IVec2)>, k: u32) -> Option<IVec2>
    decreases m.len(),
{
    if m.len() == 0 {
        None
    } else if m.last().0 == k {
        Some(m.last().1)
    } else {
        dir_of(m.drop_last(), k)
    }
}

/// What key `k` adds to the intent: its direction, or nothing if unmapped.
pub open spec fn contribution(m: Seq<(u32, IVec2)>, k: u32) -> (int, int) {
    match dir_of(m, k) {
        Some(d) => (d[0] as int, d[1] as int),
        None => (0, 0),
    }
}

/// The sum of the mapped directions of the keys in `held`.
pub open spec fn intent_sum(held: Seq<u32>, m: Seq<(u32, IVec2)>) -> (int, int)
    decreases held.len(),
{
    if held.len() == 0 {
        (0, 0)
    } else {
        let rest = intent_sum(held.drop_last(), m);
        let c = contribution(m, held.last());
        (rest.0 + c.0, rest.1 + c.1)
    }
}

impl DirectionMapping {
    pub open spec fn wf(&self) -> bool {
        &&& forall|i: int| 0 <= i < self.entries@.len() ==> valid_dir(#[trigger] self.entries@[i].1)
        &&& forall|i: int, j: int|
            0 <= i < j < self.entries@.len() ==> self.entries@[i].0 != self.entries@[j].0
    }

    pub open spec fn view(&self) -> Seq<(u32, IVec2)> {
        self.entries@
    }

    /// A mapping with no key.
    pub fn new() -> (r: DirectionMapping)
        ensures
            r.wf(),
            forall|k: u32| dir_of(r@, k) is None,
    {
        DirectionMapping { entries: Vec::new() }
    }

    /// The mapping W forward `(0, -1)`, S backward `(0, 1)`, A left `(-1, 0)`,
    /// D right `(1, 0)`.
    pub fn standard() -> (r: DirectionMapping)
        ensures
            r.wf(),
            dir_of(r@, KEY_W) == Some([0i64, -1i64]),
            dir_of(r@, KEY_S) == Some([0i64, 1i64]),
            dir_of(r@, KEY_A) == Some([-1i64, 0i64]),
            dir_of(r@, KEY_D) == Some([1i64, 0i64]),
            forall|k: u32| k != KEY_W && k != KEY_S && k != KEY_A && k != KEY_D ==> dir_of(r@, k) is None,
    {
        let mut m = DirectionMapping::new();
        let _ = m.add_mapping(KEY_W, [0, -1]);
        let _ = m.add_mapping(KEY_S, [0, 1]);
        let _ = m.add_mapping(KEY_A, [-1, 0]);
        let _ = m.add_mapping(KEY_D, [1, 0]);
        m
    }

    /// Maps `key` to `dir`. Fails, leaving the mapping as it was, when `dir`
    /// is not a unit grid direction or `key` is mapped already.
    pub fn add_mapping(&mut self, key: u32, dir: IVec2) -> (r: Result<(), ConfigError>)
        requires
            old(self).wf(),
        ensures
            final(self).wf(),
            !valid_dir(dir) ==> r == Err::<(), ConfigError>(ConfigError::NotUnitDirection)
                && final(self)@ == old(self)@,
            valid_dir(dir) && dir_of(old(self)@, key) is Some ==> r == Err::<(), ConfigError>(
                ConfigError::DuplicateKey,
            ) && final(self)@ == old(self)@,
            valid_dir(dir) && dir_of(old(self)@, key) is None ==> r is Ok && dir_of(final(self)@, key)
                == Some(dir) && forall|k: u32| k != key ==> dir_of(final(self)@, k) == dir_of(old(self)@, k),
    {
        let unit = (dir[0] == 0 && (dir[1] == 1 || dir[1] == -1))
            || (dir[1] == 0 && (dir[0] == 1 || dir[0] == -1));
        if !unit {
            return Err(ConfigError::NotUnitDirection);
        }
        if self.direction(key).is_some() {
            return Err(ConfigError::DuplicateKey);
        }
        proof {
            lemma_dir_of_none(self@, key);
        }
        self.entries.push((key, dir));
        assert(self@.drop_last() == old(self)@);
        Ok(())
    }

    /// The direction mapped to `key`, if any.
    pub fn direction(&self, key: u32) -> (r: Option<IVec2>)
        requires
            self.wf(),
        ensures
            r == dir_of(self@, key),
            r matches Some(d) ==> valid_dir(d),
    {
        let mut i: usize = self.entries.len();
        assert(self@.take(i as int) =~= self@);
        while i > 0
            invariant
                self.wf(),
                i <= self@.len(),
                dir_of(self@, key) == dir_of(self@.take(i as int), key),
            decreases i,
        {
            let e = self.entries[i - 1];
            proof {
                assert(self@.take(i as int).drop_last() == self@.take(i - 1));
            }
            if e.0 == key {
                return Some(e.1);
            }
            i -= 1;
        }
        None
    }
}

/// The movement intent of the held keys: the sum of the mapped directions of
/// every held key; held keys that are not mapped add nothing.
pub fn resolve_intent(keys: &KeyboardState, mapping: &DirectionMapping) -> (r: IVec2)
    requires
        mapping.wf(),
        keys.keys_down@.len() <= i64::MAX,
    ensures
        r[0] == intent_sum(keys.keys_down@, mapping@).0,
        r[1] == intent_sum(keys.keys_down@, mapping@).1,
{
    let mut acc: IVec2 = [0, 0];
    let mut i: usize = 0;
    while i < keys.keys_down.len()
        invariant
            mapping.wf(),
            keys.keys_down@.len() <= i64::MAX,
            i <= keys.keys_down@.len(),
            acc[0] == intent_sum(keys.keys_down@.take(i as int), mapping@).0,
            acc[1] == intent_sum(keys.keys_down@.take(i as int), mapping@).1,
            -(i as int) <= acc[0] <= i,
            -(i as int) <= acc[1] <= i,
        decreases keys.keys_down@.len() - i,
    {
        let key = keys.keys_down[i];
        proof {
            let t = keys.keys_down@.take(i + 1);
            assert(t.drop_last() == keys.keys_down@.take(i as int));
            assert(t.last() == key);
        }
        match mapping.direction(key) {
            Some(d) => {
                acc = vec2_add(acc, d);
            },
            None => {},
        }
        i += 1;
    }
    assert(keys.keys_down@.take(i as int) == keys.keys_down@);
    acc
}

/// Removing the key at `i` takes exactly its contribution out of the sum.
proof fn lemma_intent_sum_remove(s: Seq<u32>, i: int, m: Seq<(u32, IVec2)>)
    requires
        0 <= i < s.len(),
    ensures
        intent_sum(s, m).0 == intent_sum(s.remove(i), m).0 + contribution(m, s[i]).0,
        intent_sum(s, m).1 == intent_sum(s.remove(i), m).1 + contribution(m, s[i]).1,
    decreases s.len(),
{
    if i == s.len() - 1 {
        assert(s.remove(i) =~= s.drop_last());
    } else {
        lemma_intent_sum_remove(s.drop_last(), i, m);
        assert(s.remove(i).drop_last() =~= s.drop_last().remove(i));
        assert(s.remove(i).last() == s.last());
    }
}

/// The intent of a set of held keys does not depend on the order in which
/// they are listed: two duplicate-free lists of the same keys add up to the
/// same vector.
pub proof fn lemma_intent_order_independent(a: Seq<u32>, b: Seq<u32>, m: Seq<(u32, IVec2)>)
    requires
        a.no_duplicates(),
        b.no_duplicates(),
        a.to_set() == b.to_set(),
    ensures
        intent_sum(a, m) == intent_sum(b, m),
    decreases a.len(),
{
    assert forall|k: u32| a.contains(k) <==> b.contains(k) by {
        assert(a.to_set().contains(k) == a.contains(k));
        assert(b.to_set().contains(k) == b.contains(k));
    };
    if a.len() == 0 {
        if b.len() > 0 {
            assert(b.contains(b[0]));
        }
    } else {
        let x = a.last();
        assert(a.contains(x));
        let i = choose|i: int| 0 <= i < b.len() && b[i] == x;
        let a2 = a.drop_last();
        let b2 = b.remove(i);
        assert forall|k: u32| a2.contains(k) <==> (a.contains(k) && k != x) by {
            if a2.contains(k) {
                let j = choose|j: int| 0 <= j < a2.len() && a2[j] == k;
                assert(a[j] == k);
            }
            if a.contains(k) && k != x {
                let j = choose|j: int| 0 <= j < a.len() && a[j] == k;
                assert(a2[j] == k);
            }
        };
        assert forall|k: u32| b2.contains(k) <==> (b.contains(k) && k != x) by {
            if b2.contains(k) {
                let j = choose|j: int| 0 <= j < b2.len() && b2[j] == k;
                if j < i {
                    assert(b[j] == k);
                } else {
                    assert(b[j + 1] == k);
                }
            }
            if b.contains(k) && k != x {
                let j = choose|j: int| 0 <= j < b.len() && b[j] == k;
                if j < i {
                    assert(b2[j] == k);
                } else {
                    assert(b2[j - 1] == k);
                }
            }
        };
        assert(a2.no_duplicates());
        assert(b2.no_duplicates()) by {
            assert forall|p: int, q: int| 0 <= p < b2.len() && 0 <= q < b2.len() && p != q implies b2[p]
                != b2[q] by {
                let pp = if p < i { p } else { p + 1 };
                let qq = if q < i { q } else { q + 1 };
                assert(b2[p] == b[pp]);
                assert(b2[q] == b[qq]);
            };
        };
        assert(a2.to_set() =~= b2.to_set());
        lemma_intent_order_independent(a2, b2, m);
        lemma_intent_sum_remove(b, i, m);
    }
}

proof fn lemma_dir_of_none(m: Seq<(u32, IVec2)>, k: u32)
    requires
        dir_of(m, k) is None,
    ensures
        forall|i: int| 0 <= i < m.len() ==> m[i].0 != k,
    decreases m.len(),
{
    if m.len() > 0 {
        lemma_dir_of_none(m.drop_last(), k);
        assert forall|i: int| 0 <= i < m.len() implies m[i].0 != k by {
            if i < m.len() - 1 {
                assert(m.drop_last()[i] == m[i]);
            }
        };
    }
}

} // verus!

//! The register bank: one independent stack per single-character key.
//!
//! A register absent from the bank acts as "not yet set" for reads, but is
//! created with an empty stack on first write and persists from then on.
//! The view of the bank is a map from key to the contents of its stack.

use vstd::prelude::*;
use crate::errors::CalcError;
use crate::stack::Stack;

verus! {

/// A mapping from a single character key to its own stack, lazily created.
pub struct Registers<T> {
    entries: Vec<(char, Stack<T>)>,
}

impl<T> View for Registers<T> {
    type V = Map<char, Seq<T>>;

    closed spec fn view(&self) -> Map<char, Seq<T>> {
        map_of(self.entries@)
    }
}

/// The map described by a sequence of key/stack entries, later entries
/// winning (the bank keeps its keys distinct, so order never matters).
pub closed spec fn map_of<T>(s: Seq<(char, Stack<T>)>) -> Map<char, Seq<T>>
    decreases s.len(),
{
    if s.len() == 0 {
        Map::empty()
    } else {
        map_of(s.drop_last()).insert(s.last().0, s.last().1@)
    }
}

/// The contents of register `reg` in bank state `m`: its stack if the
/// register exists, and the empty stack it would be created with otherwise.
pub open spec fn reg_contents<T>(m: Map<char, Seq<T>>, reg: char) -> Seq<T> {
    if m.contains_key(reg) {
        m[reg]
    } else {
        Seq::empty()
    }
}

/// The error for a read of a register that has never been created.
pub fn not_set(reg: char) -> (r: CalcError)
    ensures
        r == CalcError::RegisterNotSet(reg),
{
    CalcError::RegisterNotSet(reg)
}

proof fn lemma_map_of_contains<T>(s: Seq<(char, Stack<T>)>, reg: char)
    ensures
        map_of(s).contains_key(reg) <==> exists|i: int| 0 <= i < s.len() && s[i].0 == reg,
    decreases s.len(),
{
    if s.len() > 0 {
        lemma_map_of_contains(s.drop_last(), reg);
        if map_of(s).contains_key(reg) {
            if s.last().0 == reg {
                assert(s[s.len() - 1].0 == reg);
            } else {
                let i = choose|i: int| 0 <= i < s.drop_last().len() && s.drop_last()[i].0 == reg;
                assert(s[i].0 == reg);
            }
        }
        if exists|i: int| 0 <= i < s.len() && s[i].0 == reg {
            let i = choose|i: int| 0 <= i < s.len() && s[i].0 == reg;
            if i < s.len() - 1 {
                assert(s.drop_last()[i].0 == reg);
            }
        }
    }
}

/// In a bank with distinct keys, the entry at `i` gives the map's value.
proof fn lemma_map_of_lookup<T>(s: Seq<(char, Stack<T>)>, i: int)
    requires
        0 <= i < s.len(),
        forall|j: int, k: int| 0 <= j < k < s.len() ==> (#[trigger] s[j]).0 != (#[trigger] s[k]).0,
        forall|j: int| i < j < s.len() ==> (#[trigger] s[j]).0 != s[i].0,
    ensures
        map_of(s).contains_key(s[i].0),
        map_of(s)[s[i].0] == s[i].1@,
    decreases s.len(),
{
    if i == s.len() - 1 {
    } else {
        assert(s.drop_last()[i] == s[i]);
        lemma_map_of_lookup(s.drop_last(), i);
        assert(s.last().0 != s[i].0);
    }
}

/// Updating the entry at `i` while keeping its key updates the map at that
/// key alone.
proof fn lemma_map_of_update<T>(s: Seq<(char, Stack<T>)>, i: int, st: Stack<T>)
    requires
        0 <= i < s.len(),
        forall|j: int, k: int| 0 <= j < k < s.len() ==> (#[trigger] s[j]).0 != (#[trigger] s[k]).0,
    ensures
        map_of(s.update(i, (s[i].0, st))) =~= map_of(s).insert(s[i].0, st@),
    decreases s.len(),
{
    let t = s.update(i, (s[i].0, st));
    if i == s.len() - 1 {
        assert(t.drop_last() =~= s.drop_last());
        assert(t.last() == (s[i].0, st));
    } else {
        assert(t.drop_last() =~= s.drop_last().update(i, (s[i].0, st)));
        assert(s.drop_last()[i] == s[i]);
        lemma_map_of_update(s.drop_last(), i, st);
        assert(t.last() == s.last());
        assert(s.last().0 != s[i].0);
    }
}

/// Appending an entry with a fresh key inserts that key into the map.
proof fn lemma_map_of_push<T>(s: Seq<(char, Stack<T>)>, reg: char, st: Stack<T>)
    ensures
        map_of(s.push((reg, st))) =~= map_of(s).insert(reg, st@),
{
    assert(s.push((reg, st)).drop_last() =~= s);
    assert(s.push((reg, st)).last() == (reg, st));
}

impl<T> Registers<T> {
    /// The key-distinctness invariant of the backing vector.
    pub closed spec fn well_formed(&self) -> bool {
        forall|j: int, k: int|
            0 <= j < k < self.entries@.len()
                ==> (#[trigger] self.entries@[j]).0 != (#[trigger] self.entries@[k]).0
    }

    /// An empty bank: no register exists yet.
    pub fn new() -> (r: Self)
        ensures
            r@ == Map::<char, Seq<T>>::empty(),
            r.well_formed(),
    {
        Registers { entries: Vec::new() }
    }

    /// The position of the entry for `reg`, if the register exists.
    fn find_index(&self, reg: char) -> (r: Option<usize>)
        ensures
            r matches Some(i) ==> i < self.entries@.len() && self.entries@[i as int].0 == reg,
            r is None ==> forall|j: int|
                0 <= j < self.entries@.len() ==> (#[trigger] self.entries@[j]).0 != reg,
    {
        let mut i: usize = 0;
        while i < self.entries.len()
            invariant
                i <= self.entries@.len(),
                forall|j: int| 0 <= j < i ==> (#[trigger] self.entries@[j]).0 != reg,
            decreases self.entries@.len() - i,
        {
            if self.entries[i].0 == reg {
                return Some(i);
            }
            i = i + 1;
        }
        None
    }

    /// The stack of register `reg`, created empty first if the register does
    /// not exist yet.  Never fails.
    pub fn stack_mut(&mut self, reg: char) -> (r: &mut Stack<T>)
        requires
            old(self).well_formed(),
        ensures
            (*r)@ == reg_contents(old(self)@, reg),
            final(self)@ == old(self)@.insert(reg, final(r)@),
            final(self).well_formed(),
    {
        proof {
            lemma_map_of_contains(self.entries@, reg);
        }
        let idx: usize = match self.find_index(reg) {
            Some(i) => {
                proof {
                    lemma_map_of_lookup(self.entries@, i as int);
                }
                i
            },
            None => {
                let i = self.entries.len();
                self.entries.push((reg, Stack::new()));
                proof {
                    lemma_map_of_push(old(self).entries@, reg, self.entries@[i as int].1);
                    assert(reg_contents(old(self)@, reg) =~= self.entries@[i as int].1@);
                    assert(map_of(self.entries@) =~= map_of(old(self).entries@).insert(
                        reg,
                        Seq::empty(),
                    ));
                }
                i
            },
        };
        let ghost entries_now = self.entries@;
        assert(idx < self.entries.len());
        let entry = &mut self.entries[idx];
        let r = &mut entry.1;
        proof {
            lemma_map_of_update(entries_now, idx as int, *final(r));
            assert(entries_now.update(idx as int, (entries_now[idx as int].0, *final(r)))
                =~= entries_now.update(idx as int, (reg, *final(r))));
            assert(map_of(entries_now.update(idx as int, (reg, *final(r)))) =~= old(
                self,
            )@.insert(reg, final(r)@));
        }
        r
    }

    /// Pushes `value` onto register `reg`, creating the register if needed.
    pub fn push(&mut self, reg: char, value: T)
        requires
            old(self).well_formed(),
        ensures
            final(self)@ == old(self)@.insert(reg, reg_contents(old(self)@, reg).push(value)),
            final(self).well_formed(),
    {
        self.stack_mut(reg).push(value);
    }

    /// Pops from register `reg`, creating the register first; an empty (or
    /// freshly created) register fails with `RegisterUnderflow`.
    pub fn pop(&mut self, reg: char) -> (r: Result<T, CalcError>)
        requires
            old(self).well_formed(),
        ensures
            ({
                let s0 = reg_contents(old(self)@, reg);
                if s0.len() == 0 {
                    r == Err::<T, CalcError>(CalcError::RegisterUnderflow(reg))
                        && final(self)@ == old(self)@.insert(reg, s0)
                } else {
                    r matches Ok(v) && v == s0.last() && final(self)@ == old(self)@.insert(
                        reg,
                        s0.drop_last(),
                    )
                }
            }),
            final(self).well_formed(),
    {
        match self.stack_mut(reg).pop() {
            Ok(v) => Ok(v),
            Err(_) => Err(CalcError::RegisterUnderflow(reg)),
        }
    }

    /// Peeks at the top of register `reg`.  A register that has never been
    /// created fails with `RegisterNotSet`; a created but empty one fails
    /// with `RegisterUnderflow`.
    pub fn top(&self, reg: char) -> (r: Result<&T, CalcError>)
        requires
            self.well_formed(),
        ensures
            !self@.contains_key(reg) ==> r == Err::<&T, CalcError>(
                CalcError::RegisterNotSet(reg),
            ),
            self@.contains_key(reg) && self@[reg].len() == 0 ==> r == Err::<&T, CalcError>(
                CalcError::RegisterUnderflow(reg),
            ),
            self@.contains_key(reg) && self@[reg].len() > 0 ==> (r matches Ok(v) && *v
                == self@[reg].last()),
    {
        proof {
            lemma_map_of_contains(self.entries@, reg);
        }
        match self.find_index(reg) {
            None => Err(not_set(reg)),
            Some(i) => {
                proof {
                    lemma_map_of_lookup(self.entries@, i as int);
                }
                match self.entries[i].1.top() {
                    Ok(v) => Ok(v),
                    Err(_) => Err(CalcError::RegisterUnderflow(reg)),
                }
            },
        }
    }
}

/// Register round trip: pushing a value onto any register (set or not) makes
/// that value the register's top, and popping it afterwards returns exactly
/// it and restores the register's previous contents.
pub proof fn lemma_register_round_trip<T>(m: Map<char, Seq<T>>, reg: char, v: T)
    ensures
        ({
            let pushed = m.insert(reg, reg_contents(m, reg).push(v));
            reg_contents(pushed, reg).len() > 0 && reg_contents(pushed, reg).last() == v
                && reg_contents(pushed, reg).drop_last() == reg_contents(m, reg)
        }),
{
    let pushed = m.insert(reg, reg_contents(m, reg).push(v));
    assert(reg_contents(pushed, reg) == reg_contents(m, reg).push(v));
    assert(reg_contents(m, reg).push(v).drop_last() =~= reg_contents(m, reg));
}

} // verus!

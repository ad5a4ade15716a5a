//! Wires and partial witnesses: the addressable slots of a circuit's trace
//! and the incrementally built assignment of field values to them.
//!
//! A partial witness is written at most once per wire; a generator reads its
//! declared dependencies from one and hands back the values it derived.

use vstd::prelude::*;

use crate::field::in_field;

verus! {

/// One addressable slot of the trace: a slot index inside a gate's row.
#[derive(Clone, Copy, PartialEq, Eq, Structural, Debug)]
pub struct Wire {
    /// The row: the index of the instance that owns the slot.
    pub gate: usize,
    /// The slot number within the row.
    pub input: usize,
}

/// Whether a list of wire/value pairs assigns the wire `w`.
pub open spec fn has_wire(s: Seq<(Wire, u64)>, w: Wire) -> bool
    decreases s.len(),
{
    if s.len() == 0 {
        false
    } else if s[0].0 == w {
        true
    } else {
        has_wire(s.drop_first(), w)
    }
}

/// The value the pairs assign to `w`: the first match wins.
pub open spec fn lookup(s: Seq<(Wire, u64)>, w: Wire) -> u64
    decreases s.len(),
{
    if s.len() == 0 {
        0u64
    } else if s[0].0 == w {
        s[0].1
    } else {
        lookup(s.drop_first(), w)
    }
}

/// A pair list assigns `w` exactly when some entry carries it.
pub proof fn lemma_has_wire_index(s: Seq<(Wire, u64)>, w: Wire)
    ensures
        has_wire(s, w) <==> exists|i: int| 0 <= i < s.len() && (#[trigger] s[i]).0 == w,
    decreases s.len(),
{
    if s.len() > 0 {
        lemma_has_wire_index(s.drop_first(), w);
        if s[0].0 == w {
            assert(s[0].0 == w);
        } else if has_wire(s.drop_first(), w) {
            let i = choose|i: int| 0 <= i < s.drop_first().len() && (#[trigger] s.drop_first()[i]).0
                == w;
            assert(s[i + 1].0 == w);
        } else {
            assert forall|i: int| 0 <= i < s.len() implies (#[trigger] s[i]).0 != w by {
                if i > 0 {
                    assert(s.drop_first()[i - 1] == s[i]);
                }
            }
        }
    }
}

/// Looking a wire up after appending pairs that do not carry it gives the
/// value the original pairs assigned.
pub proof fn lemma_lookup_at(s: Seq<(Wire, u64)>, w: Wire, i: int)
    requires
        0 <= i < s.len(),
        s[i].0 == w,
        forall|j: int| 0 <= j < i ==> (#[trigger] s[j]).0 != w,
    ensures
        has_wire(s, w),
        lookup(s, w) == s[i].1,
    decreases i,
{
    if i > 0 {
        assert forall|j: int| 0 <= j < i - 1 implies (#[trigger] s.drop_first()[j]).0 != w by {
            assert(s.drop_first()[j] == s[j + 1]);
        }
        assert(s.drop_first()[i - 1] == s[i]);
        lemma_lookup_at(s.drop_first(), w, i - 1);
    }
}

/// A lookup in pairs whose values are all canonical stays canonical.
pub proof fn lemma_lookup_in_field(s: Seq<(Wire, u64)>, w: Wire)
    requires
        forall|i: int| 0 <= i < s.len() ==> in_field((#[trigger] s[i]).1),
        has_wire(s, w),
    ensures
        in_field(lookup(s, w)),
    decreases s.len(),
{
    if s.len() > 0 && s[0].0 != w {
        assert forall|i: int| 0 <= i < s.drop_first().len() implies in_field(
            (#[trigger] s.drop_first()[i]).1,
        ) by {
            assert(s.drop_first()[i] == s[i + 1]);
        }
        lemma_lookup_in_field(s.drop_first(), w);
    }
}

/// The growing assignment of field values to wires. A wire, once written,
/// is never overwritten.
pub struct PartialWitness {
    pub entries: Vec<(Wire, u64)>,
}

impl PartialWitness {
    /// Every recorded value is a canonical field element.
    pub open spec fn wf(self) -> bool {
        forall|i: int|
            0 <= i < self.entries@.len() ==> in_field((#[trigger] self.entries@[i]).1)
    }

    pub fn new() -> (r: Self)
        ensures
            r.entries@.len() == 0,
            r.wf(),
    {
        PartialWitness { entries: Vec::new() }
    }

    /// Records a value for a wire that has not been written yet.
    pub fn set_wire(&mut self, w: Wire, v: u64)
        requires
            old(self).wf(),
            !has_wire(old(self).entries@, w),
            in_field(v),
        ensures
            final(self).wf(),
            final(self).entries@ == old(self).entries@.push((w, v)),
    {
        self.entries.push((w, v));
    }

    /// Reads the value of a wire that has been written.
    pub fn get_wire(&self, w: Wire) -> (r: u64)
        requires
            has_wire(self.entries@, w),
        ensures
            r == lookup(self.entries@, w),
    {
        let n = self.entries.len();
        let mut i: usize = 0;
        while i < n
            invariant
                0 <= i <= n,
                n == self.entries@.len(),
                has_wire(self.entries@, w),
                forall|j: int| 0 <= j < i ==> (#[trigger] self.entries@[j]).0 != w,
            decreases n - i,
        {
            let (cand, v) = self.entries[i];
            if cand == w {
                proof {
                    lemma_lookup_at(self.entries@, w, i as int);
                }
                return v;
            }
            i += 1;
        }
        proof {
            lemma_has_wire_index(self.entries@, w);
            assert(false);
        }
        0
    }
}

/// The output of one generator run: the wire/value pairs it derived.
pub struct GeneratedValues {
    pub pairs: Vec<(Wire, u64)>,
}

impl GeneratedValues {
    pub fn new() -> (r: Self)
        ensures
            r.pairs@.len() == 0,
    {
        GeneratedValues { pairs: Vec::new() }
    }

    /// Records one derived value.
    pub fn set_wire(&mut self, w: Wire, v: u64)
        ensures
            final(self).pairs@ == old(self).pairs@.push((w, v)),
    {
        self.pairs.push((w, v));
    }
}

} // verus!

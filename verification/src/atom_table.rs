//! Interned identifier strings.
//!
//! Nodes never own identifier text: they carry an [`Atom`], a small integer
//! issued by the heap's [`AtomTable`]. Interning the same text twice yields
//! the same atom, and atom id 0 is reserved as the invalid sentinel, so the
//! table never issues it.

use vstd::prelude::*;

verus! {

/// Small integer identity for an interned string. Id 0 is never issued.
#[derive(Clone, Copy, PartialEq, Eq, Structural, Debug, Hash)]
pub struct Atom(pub u32);

impl Atom {
    /// The reserved invalid atom, id 0.
    pub fn invalid() -> (r: Atom)
        ensures
            r.0 == 0,
    {
        Atom(0)
    }
}

/// Compare two string slices by their character content.
pub(crate) fn text_eq(a: &str, b: &str) -> (r: bool)
    ensures
        r == (a@ == b@),
{
    let sa = a.to_owned();
    let sb = b.to_owned();
    sa == sb
}

/// Maps strings to stable small integer ids, deduplicating as it goes.
pub struct AtomTable {
    strings: Vec<String>,
}

impl AtomTable {
    /// The interned strings, in order of first interning. The atom for the
    /// string at index `i` has id `i + 1`.
    pub closed spec fn atoms_seq(&self) -> Seq<Seq<char>> {
        self.strings@.map_values(|s: String| s@)
    }

    /// The table never repeats a string and never outgrows the id space.
    pub open spec fn wf(&self) -> bool {
        &&& self.atoms_seq().len() < u32::MAX
        &&& forall|i: int, j: int|
            0 <= i < j < self.atoms_seq().len() ==> self.atoms_seq()[i] != self.atoms_seq()[j]
    }

    /// An empty table.
    pub fn new() -> (r: AtomTable)
        ensures
            r.wf(),
            r.atoms_seq().len() == 0,
    {
        AtomTable { strings: Vec::new() }
    }

    /// How many atoms have been issued.
    pub fn num_atoms(&self) -> (r: usize)
        ensures
            r == self.atoms_seq().len(),
    {
        self.strings.len()
    }

    /// Intern a string: return the existing atom if the string was interned
    /// before, otherwise issue the next id. Never returns atom 0.
    pub fn atom(&mut self, value: &str) -> (a: Atom)
        requires
            old(self).wf(),
            old(self).atoms_seq().len() + 1 < u32::MAX,
        ensures
            final(self).wf(),
            1 <= a.0 <= final(self).atoms_seq().len(),
            final(self).atoms_seq()[a.0 - 1] == value@,
            old(self).atoms_seq().contains(value@) ==> final(self).atoms_seq()
                == old(self).atoms_seq(),
            !old(self).atoms_seq().contains(value@) ==> final(self).atoms_seq()
                == old(self).atoms_seq().push(value@) && a.0 == old(self).atoms_seq().len() + 1,
    {
        let n = self.strings.len();
        let mut i: usize = 0;
        while i < n
            invariant
                self == old(self),
                n == self.atoms_seq().len(),
                i <= n,
                old(self).wf(),
                forall|j: int| 0 <= j < i ==> self.atoms_seq()[j] != value@,
            decreases n - i,
        {
            if text_eq(self.strings[i].as_str(), value) {
                assert(self.atoms_seq()[i as int] == value@);
                return Atom((i + 1) as u32);
            }
            i += 1;
        }
        assert(!self.atoms_seq().contains(value@));
        self.strings.push(value.to_owned());
        assert(self.atoms_seq() =~= old(self).atoms_seq().push(value@));
        proof {
            let s1 = old(self).atoms_seq();
            let s2 = self.atoms_seq();
            assert forall|i: int, j: int| 0 <= i < j < s2.len() implies s2[i] != s2[j] by {
                if j == s1.len() {
                    assert(s2[j] == value@);
                    if s1[i] == value@ {
                        assert(s1.contains(value@));
                    }
                }
            }
        }
        Atom(n as u32 + 1)
    }

    /// Obtain the contents of an atom issued by this table.
    pub fn str(&self, index: Atom) -> (r: &str)
        requires
            1 <= index.0 <= self.atoms_seq().len(),
        ensures
            r@ == self.atoms_seq()[index.0 - 1],
    {
        self.strings[(index.0 - 1) as usize].as_str()
    }
}

} // verus!

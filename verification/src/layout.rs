//! Where the variables of one compiled function live in its frame.

use crate::text::same_text;
use vstd::prelude::*;

verus! {

/// The number of slots that a frame can address with a 32-bit displacement.
pub const MAX_SLOTS: usize = 0x0fff_ffff;

/// Whether no name occurs twice.
pub open spec fn distinct(names: Seq<Seq<char>>) -> bool {
    forall|i: int, j: int| 0 <= i < j < names.len() ==> names[i] != names[j]
}

/// The position of `name` among `names`, if it occurs there.
pub open spec fn position(names: Seq<Seq<char>>, name: Seq<char>) -> Option<int> {
    if names.contains(name) {
        Some(names.index_of(name))
    } else {
        None
    }
}

/// The frame-relative offset of the slot at position `index`: slots are eight bytes wide
/// and grow downward from the frame base.
pub open spec fn slot_offset(index: int) -> int {
    -8 * (index + 1)
}

/// The views of a list of names.
pub open spec fn name_views(names: Seq<String>) -> Seq<Seq<char>> {
    names.map_values(|s: String| s@)
}

/// The variables of one compiled function, in the order in which they were first written.
/// Each has a slot of its own; a slot is never handed out twice.
#[derive(Debug)]
pub struct VariableLayout {
    names: Vec<String>,
}

impl View for VariableLayout {
    type V = Seq<Seq<char>>;

    /// The names in first-write order.
    closed spec fn view(&self) -> Seq<Seq<char>> {
        name_views(self.names@)
    }
}

impl VariableLayout {
    #[verifier::type_invariant]
    spec fn well_formed(&self) -> bool {
        &&& distinct(name_views(self.names@))
        &&& self.names@.len() <= MAX_SLOTS
    }

    /// A layout without variables.
    pub fn new() -> (layout: VariableLayout)
        ensures
            layout@ == Seq::<Seq<char>>::empty(),
    {
        let layout = VariableLayout { names: Vec::new() };
        assert(layout@ =~= Seq::<Seq<char>>::empty());
        layout
    }

    /// The number of variables. No name occurs twice among them, and they are no more
    /// than a frame can address.
    pub fn len(&self) -> (n: usize)
        ensures
            n == self@.len(),
            n <= MAX_SLOTS,
            distinct(self@),
    {
        proof {
            use_type_invariant(self);
        }
        self.names.len()
    }

    /// The position of `name`, if it has a slot.
    pub fn find(&self, name: &str) -> (found: Option<usize>)
        ensures
            match found {
                Some(i) => position(self@, name@) == Some(i as int),
                None => position(self@, name@) is None,
            },
    {
        proof {
            use_type_invariant(self);
        }
        let ghost names = self@;
        let mut i: usize = 0;
        while i < self.names.len()
            invariant
                i <= self.names.len(),
                names == name_views(self.names@),
                distinct(names),
                forall|j: int| 0 <= j < i ==> names[j] != name@,
            decreases self.names.len() - i,
        {
            if same_text(self.names[i].as_str(), name) {
                proof {
                    assert(names[i as int] == name@);
                    lemma_position(names, i as int);
                }
                return Some(i);
            }
            i += 1;
        }
        assert(!names.contains(name@));
        None
    }

    /// The frame-relative offset of `name`'s slot, if it has one.
    pub fn get(&self, name: &str) -> (offset: Option<i32>)
        ensures
            match position(self@, name@) {
                Some(i) => offset == Some(slot_offset(i) as i32),
                None => offset is None,
            },
            offset is Some ==> -8 * MAX_SLOTS <= offset.unwrap() <= -8,
    {
        proof {
            use_type_invariant(self);
        }
        match self.find(name) {
            Some(i) => Some(offset_of_slot(i)),
            None => None,
        }
    }

    /// Whether `name` has a slot.
    pub fn contains_key(&self, name: &str) -> (found: bool)
        ensures
            found == self@.contains(name@),
    {
        self.find(name).is_some()
    }

    /// The offset of `name`'s slot; a name that has none gets the next free slot. `None`
    /// where the frame has no slot left for a new name.
    pub fn allocate(&mut self, name: String) -> (offset: Option<i32>)
        ensures
            match position(old(self)@, name@) {
                Some(i) => final(self)@ == old(self)@ && offset == Some(slot_offset(i) as i32),
                None => if old(self)@.len() < MAX_SLOTS {
                    &&& final(self)@ == old(self)@.push(name@)
                    &&& offset == Some(slot_offset(old(self)@.len() as int) as i32)
                } else {
                    &&& final(self)@ == old(self)@
                    &&& offset is None
                },
            },
    {
        proof {
            use_type_invariant(&*self);
        }
        match self.find(name.as_str()) {
            Some(i) => Some(offset_of_slot(i)),
            None => {
                let n = self.names.len();
                if n >= MAX_SLOTS {
                    return None;
                }
                let ghost before = self@;
                let mut names: Vec<String> = Vec::new();
                core::mem::swap(&mut self.names, &mut names);
                names.push(name);
                proof {
                    assert(name_views(names@) =~= before.push(name@));
                    assert(!before.contains(name@));
                }
                core::mem::swap(&mut self.names, &mut names);
                Some(offset_of_slot(n))
            },
        }
    }

    /// The names in first-write order.
    pub fn names(&self) -> (names: Vec<String>)
        ensures
            name_views(names@) == self@,
    {
        copy_names(&self.names)
    }
}

impl Clone for VariableLayout {
    /// A copy with the same names in the same order.
    fn clone(&self) -> (copy: VariableLayout)
        ensures
            copy@ == self@,
    {
        proof {
            use_type_invariant(self);
        }
        VariableLayout { names: copy_names(&self.names) }
    }
}

/// The offset of the slot at position `index`.
fn offset_of_slot(index: usize) -> (offset: i32)
    requires
        index < MAX_SLOTS,
    ensures
        offset == slot_offset(index as int),
{
    let i: i32 = index as i32;
    -8 * (i + 1)
}

/// A copy of a list of names.
fn copy_names(names: &Vec<String>) -> (copy: Vec<String>)
    ensures
        copy@ == names@,
{
    let mut copy: Vec<String> = Vec::new();
    let mut i: usize = 0;
    while i < names.len()
        invariant
            i <= names.len(),
            copy@ == names@.subrange(0, i as int),
        decreases names.len() - i,
    {
        copy.push(names[i].clone());
        assert(copy@ =~= names@.subrange(0, i + 1));
        i += 1;
    }
    assert(names@.subrange(0, i as int) =~= names@);
    copy
}

/// Among distinct names, the position of the name at `i` is `i`.
pub proof fn lemma_position(names: Seq<Seq<char>>, i: int)
    requires
        distinct(names),
        0 <= i < names.len(),
    ensures
        position(names, names[i]) == Some(i),
{
    assert(names.contains(names[i]));
    let j = names.index_of(names[i]);
    assert(0 <= j < names.len() && names[j] == names[i]);
    if j < i {
        assert(names[j] != names[i]);
    } else if i < j {
        assert(names[i] != names[j]);
    }
}

} // verus!

//! Stable component type ids shared by every peer, and the capability a
//! component type needs to take part in replication.
use vstd::prelude::*;
use crate::codec::ComponentData;
use crate::text::strings_view;

verus! {

/// A component type with a stable id agreed by every peer.
pub trait Registered {
    fn registered_id(&self) -> u16;
}

/// What replication needs of a component: its bytes, an in-place overwrite
/// from bytes, its byte length and its stable type id.
pub trait Serializable {
    /// Overwrites the value from `bytes`; `false`, with the value left as it
    /// was, where `bytes` does not fit.
    fn from_bytes(&mut self, bytes: &[u8]) -> bool;

    fn to_bytes(&self) -> Vec<u8>;

    fn get_length(&self) -> usize;

    fn get_type_id(&self) -> u16;
}

/// Encoded components replicate as themselves; an overwrite must keep the
/// length.
impl Serializable for ComponentData {
    fn from_bytes(&mut self, bytes: &[u8]) -> (r: bool)
        ensures
            r == (bytes@.len() == old(self).payload@.len()),
            r ==> final(self).payload@ == bytes@,
            !r ==> final(self).payload@ == old(self).payload@,
            final(self).id == old(self).id,
    {
        if bytes.len() != self.payload.len() {
            return false;
        }
        self.payload = crate::codec::copy_range(bytes, 0, bytes.len());
        assert(bytes@.subrange(0, bytes@.len() as int) =~= bytes@);
        true
    }

    fn to_bytes(&self) -> (r: Vec<u8>)
        ensures
            r@ == self.payload@,
    {
        let r = crate::codec::copy_range(self.payload.as_slice(), 0, self.payload.len());
        assert(self.payload@.subrange(0, self.payload@.len() as int) =~= self.payload@);
        r
    }

    fn get_length(&self) -> (r: usize)
        ensures
            r == self.payload@.len(),
    {
        self.payload.len()
    }

    fn get_type_id(&self) -> (r: u16)
        ensures
            r == self.id,
    {
        self.id
    }
}

/// Append-only table that gives each component type name a stable id: its
/// position of registration.
#[derive(Debug)]
pub struct TypeRegistry {
    names: Vec<String>,
}

/// No name is listed twice.
pub open spec fn names_unique(s: Seq<Seq<char>>) -> bool {
    forall|i: int, j: int| 0 <= i < s.len() && 0 <= j < s.len() && s[i] == s[j] ==> i == j
}

impl TypeRegistry {
    /// The registered names; a name's id is its index.
    pub closed spec fn view(&self) -> Seq<Seq<char>> {
        strings_view(self.names@)
    }

    pub open spec fn wf(&self) -> bool {
        names_unique(self.view()) && self.view().len() <= 65536
    }

    pub fn new() -> (r: TypeRegistry)
        ensures
            r.wf(),
            r.view().len() == 0,
    {
        let r = TypeRegistry { names: Vec::new() };
        assert(r.view() =~= Seq::<Seq<char>>::empty());
        r
    }

    /// The id of `name`, if it is registered.
    pub fn lookup(&self, name: &str) -> (r: Option<u16>)
        requires
            self.wf(),
        ensures
            match r {
                Some(id) => id < self.view().len() && self.view()[id as int] == name@,
                None => !self.view().contains(name@),
            },
    {
        let key = name.to_string();
        let mut i: usize = 0;
        while i < self.names.len()
            invariant
                i <= self.names@.len(),
                self.view().len() == self.names@.len(),
                self.view().len() <= 65536,
                key@ == name@,
                forall|j: int| 0 <= j < i ==> self.view()[j] != name@,
            decreases self.names@.len() - i,
        {
            assert(self.view()[i as int] == self.names@[i as int]@);
            if self.names[i] == key {
                return Some(i as u16);
            }
            i = i + 1;
        }
        None
    }

    /// Registers `name` and returns its id. A name registered before keeps
    /// its id and leaves the table as it was; a new one gets the next id.
    /// `None`, with the table unchanged, where a new name finds all 65536
    /// ids taken.
    pub fn register(&mut self, name: &str) -> (r: Option<u16>)
        requires
            old(self).wf(),
        ensures
            final(self).wf(),
            old(self).view().contains(name@) ==> final(self).view() == old(self).view() && (r matches Some(
                id,
            ) && old(self).view()[id as int] == name@),
            !old(self).view().contains(name@) && old(self).view().len() < 65536 ==> final(self).view()
                == old(self).view().push(name@) && r == Some(old(self).view().len() as u16),
            !old(self).view().contains(name@) && old(self).view().len() == 65536 ==> final(self).view()
                == old(self).view() && r is None,
    {
        match self.lookup(name) {
            Some(id) => Some(id),
            None => {
                if self.names.len() >= 65536 {
                    return None;
                }
                let id = self.names.len() as u16;
                let ghost before = self.view();
                self.names.push(name.to_string());
                assert(self.view() =~= before.push(name@));
                assert(names_unique(self.view())) by {
                    assert forall|i: int, j: int| 0 <= i < self.view().len() && 0 <= j < self.view().len()
                        && self.view()[i] == self.view()[j] implies i == j by {
                        if i < before.len() && j == before.len() {
                            assert(before.contains(before[i]));
                        }
                        if j < before.len() && i == before.len() {
                            assert(before.contains(before[j]));
                        }
                    }
                }
                Some(id)
            },
        }
    }
}

} // verus!

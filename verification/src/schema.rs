//! The schema the parser resolves attribute names against: a
//! name-to-identifier directory and the set of names enabled for
//! filtering. Both are read-only during a parse.

use crate::text::{chars_eq, str_to_chars};
use crate::FieldId;
use vstd::prelude::*;

verus! {

/// Whether `name` occurs in `names`.
pub open spec fn has_name(names: Seq<Seq<char>>, name: Seq<char>) -> bool {
    exists|i: int| 0 <= i < names.len() && names[i] == name
}

/// The index of `name` in `names` (unique when the names are distinct).
pub open spec fn name_index(names: Seq<Seq<char>>, name: Seq<char>) -> int {
    choose|i: int| 0 <= i < names.len() && names[i] == name
}

/// A directory assigning each attribute name a small numeric identifier:
/// the name's insertion rank.
#[derive(Debug, PartialEq)]
pub struct FieldsIdsMap {
    names: Vec<Vec<char>>,
}

impl View for FieldsIdsMap {
    type V = Seq<Seq<char>>;

    closed spec fn view(&self) -> Seq<Seq<char>> {
        Seq::new(self.names@.len(), |i: int| self.names@[i]@)
    }
}

impl FieldsIdsMap {
    /// The directory holds distinct names, at most one per identifier.
    pub open spec fn wf(&self) -> bool {
        &&& self@.len() <= 0x1_0000
        &&& forall|i: int, j: int|
            0 <= i < j < self@.len() ==> self@[i] != self@[j]
    }

    /// An empty directory.
    pub fn new() -> (r: FieldsIdsMap)
        ensures
            r@ == Seq::<Seq<char>>::empty(),
            r.wf(),
    {
        let r = FieldsIdsMap { names: Vec::new() };
        proof {
            assert(r@ =~= Seq::<Seq<char>>::empty());
        }
        r
    }

    /// How many names the directory holds.
    pub fn len(&self) -> (r: usize)
        ensures
            r == self@.len(),
    {
        self.names.len()
    }

    /// The identifier of `name`, if the directory holds it.
    pub(crate) fn id_of_chars(&self, name: &Vec<char>) -> (r: Option<FieldId>)
        requires
            self.wf(),
        ensures
            match r {
                Some(id) => has_name(self@, name@) && id == name_index(self@, name@),
                None => !has_name(self@, name@),
            },
    {
        let n = self.names.len();
        let mut i: usize = 0;
        while i < n
            invariant
                i <= n,
                n == self@.len(),
                self.wf(),
                self@.len() == self.names@.len(),
                forall|j: int| 0 <= j < self@.len() ==> self@[j] == self.names@[j]@,
                forall|j: int| 0 <= j < i ==> self@[j] != name@,
            decreases n - i,
        {
            if chars_eq(&self.names[i], name) {
                proof {
                    assert(self@[i as int] == name@);
                    let k = name_index(self@, name@);
                    assert(0 <= k < self@.len() && self@[k] == name@);
                    assert(k == i as int);
                }
                return Some(i as u16);
            }
            i = i + 1;
        }
        None
    }

    /// The identifier of `name`, if the directory holds it.
    pub fn id(&self, name: &str) -> (r: Option<FieldId>)
        requires
            self.wf(),
        ensures
            match r {
                Some(id) => has_name(self@, name@) && id == name_index(self@, name@),
                None => !has_name(self@, name@),
            },
    {
        let chars = str_to_chars(name);
        self.id_of_chars(&chars)
    }

    /// Inserts `name`, returning its identifier: the existing one if the
    /// name is already present, the next free one otherwise. Fails only
    /// when every identifier is taken.
    pub fn insert(&mut self, name: &str) -> (r: Option<FieldId>)
        requires
            old(self).wf(),
        ensures
            final(self).wf(),
            match r {
                Some(id) => if has_name(old(self)@, name@) {
                    final(self)@ == old(self)@ && id == name_index(old(self)@, name@)
                } else {
                    final(self)@ == old(self)@.push(name@) && id == old(self)@.len()
                },
                None => final(self)@ == old(self)@ && old(self)@.len() == 0x1_0000,
            },
    {
        let chars = str_to_chars(name);
        match self.id_of_chars(&chars) {
            Some(id) => Some(id),
            None => {
                if self.names.len() >= 0x1_0000 {
                    None
                } else {
                    let id = self.names.len() as u16;
                    self.names.push(chars);
                    proof {
                        assert(self@ =~= old(self)@.push(name@));
                    }
                    Some(id)
                }
            },
        }
    }
}

/// The set of attribute names enabled for filtering.
#[derive(Debug, PartialEq)]
pub struct AttrSet {
    names: Vec<Vec<char>>,
}

impl View for AttrSet {
    type V = Seq<Seq<char>>;

    closed spec fn view(&self) -> Seq<Seq<char>> {
        Seq::new(self.names@.len(), |i: int| self.names@[i]@)
    }
}

impl AttrSet {
    /// An empty set.
    pub fn new() -> (r: AttrSet)
        ensures
            r@ == Seq::<Seq<char>>::empty(),
    {
        let r = AttrSet { names: Vec::new() };
        proof {
            assert(r@ =~= Seq::<Seq<char>>::empty());
        }
        r
    }

    /// Adds `name` to the set.
    pub fn insert(&mut self, name: &str)
        ensures
            final(self)@ == old(self)@.push(name@),
    {
        let chars = str_to_chars(name);
        self.names.push(chars);
        proof {
            assert(self@ =~= old(self)@.push(name@));
        }
    }

    /// Whether the set holds `name`.
    pub(crate) fn contains_chars(&self, name: &Vec<char>) -> (r: bool)
        ensures
            r == has_name(self@, name@),
    {
        let n = self.names.len();
        let mut i: usize = 0;
        while i < n
            invariant
                i <= n,
                n == self@.len(),
                self@.len() == self.names@.len(),
                forall|j: int| 0 <= j < self@.len() ==> self@[j] == self.names@[j]@,
                forall|j: int| 0 <= j < i ==> self@[j] != name@,
            decreases n - i,
        {
            if chars_eq(&self.names[i], name) {
                proof {
                    assert(self@[i as int] == name@);
                }
                return true;
            }
            i = i + 1;
        }
        false
    }

    /// Whether the set holds `name`.
    pub fn contains(&self, name: &str) -> (r: bool)
        ensures
            r == has_name(self@, name@),
    {
        let chars = str_to_chars(name);
        self.contains_chars(&chars)
    }
}

/// The model of a [`ParseContext`]: the directory's names, in identifier
/// order, and the filterable names.
pub struct CtxV {
    pub names: Seq<Seq<char>>,
    pub filterable: Seq<Seq<char>>,
}

/// Everything a parse resolves attribute names against.
#[derive(Debug, PartialEq)]
pub struct ParseContext {
    pub fields_ids_map: FieldsIdsMap,
    pub filterable_fields: AttrSet,
}

impl View for ParseContext {
    type V = CtxV;

    open spec fn view(&self) -> CtxV {
        CtxV { names: self.fields_ids_map@, filterable: self.filterable_fields@ }
    }
}

/// Resolution of an attribute name: its identifier, provided the name is
/// both known to the directory and enabled for filtering.
pub open spec fn spec_resolve(ctx: CtxV, name: Seq<char>) -> Option<FieldId> {
    if has_name(ctx.names, name) && has_name(ctx.filterable, name) {
        Some(name_index(ctx.names, name) as FieldId)
    } else {
        None
    }
}

impl ParseContext {
    /// A well-formed context has a well-formed directory.
    pub open spec fn wf(&self) -> bool {
        self.fields_ids_map.wf()
    }

    /// Builds a context from a directory and a filterable set.
    pub fn new(fields_ids_map: FieldsIdsMap, filterable_fields: AttrSet) -> (r: ParseContext)
        requires
            fields_ids_map.wf(),
        ensures
            r.wf(),
            r@.names == fields_ids_map@,
            r@.filterable == filterable_fields@,
    {
        ParseContext { fields_ids_map, filterable_fields }
    }

    /// Resolves an attribute name as [`spec_resolve`] describes.
    pub(crate) fn resolve(&self, name: &Vec<char>) -> (r: Option<FieldId>)
        requires
            self.wf(),
        ensures
            r == spec_resolve(self@, name@),
    {
        match self.fields_ids_map.id_of_chars(name) {
            Some(id) => {
                if self.filterable_fields.contains_chars(name) {
                    Some(id)
                } else {
                    None
                }
            },
            None => None,
        }
    }
}

} // verus!

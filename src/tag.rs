//! Named labels on entities, and lookup by label.

use crate::map::EntityHandle;
use vstd::prelude::*;
use vstd::std_specs::convert::IntoSpec;

verus! {

/// A label that marks an entity (`"player"`, `"camera"`).
#[derive(Clone, Debug)]
pub struct Tag(pub String);

impl Tag {
    pub fn new<S: Into<String>>(t: S) -> (r: Tag)
        ensures
            <S as IntoSpec<String>>::obeys_into_spec() ==> r.0 == t.into_spec(),
    {
        Tag(t.into())
    }

    /// The handle of the first entity in `tagged` that carries this label.
    pub fn find(&self, tagged: &Vec<(EntityHandle, Tag)>) -> (r: Option<EntityHandle>)
        ensures
            r is None ==> forall|i: int| 0 <= i < tagged@.len() ==> (#[trigger] tagged@[i]).1.0@ != self.0@,
            r matches Some(h) ==> exists|i: int|
                0 <= i < tagged@.len() && (#[trigger] tagged@[i]).0 == h && tagged@[i].1.0@ == self.0@
                    && forall|k: int| 0 <= k < i ==> (#[trigger] tagged@[k]).1.0@ != self.0@,
    {
        let mut i: usize = 0;
        while i < tagged.len()
            invariant
                i <= tagged@.len(),
                forall|k: int| 0 <= k < i ==> (#[trigger] tagged@[k]).1.0@ != self.0@,
            decreases tagged@.len() - i,
        {
            if tagged[i].1.0.eq(&self.0) {
                return Some(tagged[i].0);
            }
            i = i + 1;
        }
        None
    }
}

} // verus!

//! Launcher sources: how a source lays out its panel, and which of an
//! entry's mime variants is the default one.
use vstd::prelude::*;
use crate::text::str_eq;

verus! {

/// How a source's panel is laid out.
#[derive(PartialEq, Eq, Structural, Clone, Copy, Debug)]
pub enum Layout {
    /// Single panel: list only.
    List,
    /// Wider panel split into a list on the left and a preview pane on the right.
    ListAndPreview,
}

/// The index of the first mime variant equal to `primary`, if any: the
/// row of the mime list that activation picks by default.
pub fn primary_mime_position(mimes: &[String], primary: &str) -> (r: Option<usize>)
    ensures
        match r {
            Some(i) => i < mimes@.len() && mimes@[i as int]@ == primary@
                && forall|j: int| 0 <= j < i ==> mimes@[j]@ != primary@,
            None => forall|j: int| 0 <= j < mimes@.len() ==> mimes@[j]@ != primary@,
        },
{
    let mut i: usize = 0;
    while i < mimes.len()
        invariant
            i <= mimes@.len(),
            forall|j: int| 0 <= j < i ==> mimes@[j]@ != primary@,
        decreases mimes@.len() - i,
    {
        if str_eq(mimes[i].as_str(), primary) {
            return Some(i);
        }
        i = i + 1;
    }
    None
}

} // verus!

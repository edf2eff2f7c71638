//! The swappable render target.
//!
//! Rendering output can go to different targets — a plain string
//! renderer, a live document tree.  The target in use is held in an
//! explicit slot handle that is threaded through calls; replacing the
//! target and reaching it go through the slot, one writer at a time.

use crate::error::ParseResult;
use crate::rsx_node::RsxNode;
use crate::tree_location::TreeLocation;
use vstd::prelude::*;

verus! {

/// What a render target must offer: applying one freshly rendered node
/// at a located position, and rendering its current output for
/// inspection.
pub trait DomTargetImpl {
    /// Patches `node` into the live output at `loc`; an error names what
    /// could not be applied.
    fn update_rsx_node(&mut self, node: RsxNode, loc: TreeLocation) -> (r: ParseResult<()>);

    /// The target's current output as text.
    fn render(&self) -> (r: String);
}

/// The slot holding the render target in use.  One slot stands for one
/// output; callers thread it explicitly and replace its target between
/// independent runs.
#[derive(Debug)]
pub struct DomTarget<T> {
    /// The target currently in use.
    pub target: T,
}

impl<T: DomTargetImpl> DomTarget<T> {
    /// A slot holding `item`.
    pub fn new(item: T) -> (r: DomTarget<T>)
        ensures
            r.target == item,
    {
        DomTarget { target: item }
    }

    /// Replaces the slot's target with `item`.
    pub fn set(&mut self, item: T)
        ensures
            final(self).target == item,
    {
        self.target = item;
    }

    /// Grants access to the current target, to run an update or a render
    /// against it.
    pub fn with(&mut self) -> (r: &mut T)
        ensures
            *r == old(self).target,
            *final(self) == (DomTarget { target: *final(r) }),
    {
        &mut self.target
    }
}

} // verus!

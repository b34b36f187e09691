//! Logical streams that clients subscribe to.
use vstd::prelude::*;

verus! {

/// A logical stream of events. Ids are numeric; a hashtag timeline carries
/// the tag's id.
#[derive(Clone, Copy, Debug, PartialEq, Eq, Structural, Hash, PartialOrd, Ord)]
pub enum Timeline {
    Public,
    PublicLocal,
    User(u64),
    UserNotification(u64),
    Hashtag(u64),
    HashtagLocal(u64),
    List(u64),
    Direct(u64),
}

impl Timeline {
    /// The hashtag id that this timeline carries, if any.
    pub open spec fn spec_tag(self) -> Option<u64> {
        match self {
            Timeline::Hashtag(id) => Some(id),
            Timeline::HashtagLocal(id) => Some(id),
            _ => None,
        }
    }

    pub fn tag(&self) -> (r: Option<u64>)
        ensures
            r == self.spec_tag(),
    {
        match self {
            Timeline::Hashtag(id) => Some(*id),
            Timeline::HashtagLocal(id) => Some(*id),
            _ => None,
        }
    }
}

} // verus!

use vstd::prelude::*;
use vstd::hash_set::StringHashSet;

verus! {

/// The timestamps already processed during this process's lifetime.
/// Membership never expires.
pub struct Deduplicator {
    seen: StringHashSet,
}

impl View for Deduplicator {
    type V = Set<Seq<char>>;

    closed spec fn view(&self) -> Set<Seq<char>> {
        self.seen@
    }
}

impl Deduplicator {
    /// A deduplicator that has seen nothing.
    pub fn new() -> (d: Self)
        ensures
            d@ == Set::<Seq<char>>::empty(),
    {
        Deduplicator { seen: StringHashSet::new() }
    }

    /// Whether `ts` has been marked as seen.
    pub fn is_duplicate(&self, ts: &str) -> (r: bool)
        ensures
            r == self@.contains(ts@),
    {
        self.seen.contains(ts)
    }

    /// Marks `ts` as seen; marking it again changes nothing.
    pub fn mark_seen(&mut self, ts: String)
        ensures
            final(self)@ == old(self)@.insert(ts@),
    {
        self.seen.insert(ts);
    }
}

} // verus!

//! Patterns and the repository that holds them.
use vstd::prelude::*;
use crate::program::CompiledPattern;

verus! {

/// A worked example: a line and the fields a pattern must extract from it.
#[derive(Clone, Debug)]
pub struct TestMessage {
    pub message: String,
    pub values: Vec<(String, String)>,
}

impl TestMessage {
    pub fn new(message: String, values: Vec<(String, String)>) -> (r: TestMessage)
        ensures
            r.message == message,
            r.values == values,
    {
        TestMessage { message, values }
    }
}

/// A named, identified, compiled pattern.
#[derive(Clone, Debug)]
pub struct Pattern {
    pub name: String,
    /// The pattern's UUID as its 128-bit big-endian number; numeric order is the
    /// lexicographic order of the canonical lower-case text.
    pub uuid: u128,
    pub pattern: CompiledPattern,
    pub values: Vec<(String, String)>,
    pub tags: Vec<String>,
    pub test_messages: Vec<TestMessage>,
}

impl Pattern {
    pub fn new(
        name: String,
        uuid: u128,
        pattern: CompiledPattern,
        test_messages: Vec<TestMessage>,
        values: Vec<(String, String)>,
        tags: Vec<String>,
    ) -> (r: Pattern)
        ensures
            r.name == name,
            r.uuid == uuid,
            r.pattern == pattern,
            r.test_messages == test_messages,
            r.values == values,
            r.tags == tags,
    {
        Pattern { name, uuid, pattern, values, tags, test_messages }
    }
}

/// No two patterns of `ps` share a UUID.
pub open spec fn uuids_unique(ps: Seq<Pattern>) -> bool {
    forall|i: int, j: int| 0 <= i < ps.len() && 0 <= j < ps.len() && i != j ==> #[trigger] ps[i].uuid != #[trigger] ps[j].uuid
}

/// Whether a pattern with UUID `u` is among `ps`.
pub open spec fn has_uuid(ps: Seq<Pattern>, u: u128) -> bool {
    exists|i: int| 0 <= i < ps.len() && (#[trigger] ps[i]).uuid == u
}

/// The loaded patterns, in insertion order, with distinct UUIDs.
pub struct Repository {
    patterns: Vec<Pattern>,
}

impl View for Repository {
    type V = Seq<Pattern>;

    closed spec fn view(&self) -> Seq<Pattern> {
        self.patterns@
    }
}

impl Repository {
    pub open spec fn wf(&self) -> bool {
        uuids_unique(self@)
    }

    /// An empty repository.
    pub fn new() -> (r: Repository)
        ensures
            r@ == Seq::<Pattern>::empty(),
            r.wf(),
    {
        Repository { patterns: Vec::new() }
    }

    pub fn len(&self) -> (r: usize)
        ensures
            r == self@.len(),
    {
        self.patterns.len()
    }

    /// The pattern at position `i` in insertion order.
    pub fn get(&self, i: usize) -> (r: &Pattern)
        requires
            i < self@.len(),
        ensures
            *r == self@[i as int],
    {
        &self.patterns[i]
    }

    /// Whether a pattern with UUID `u` is held.
    pub fn contains_uuid(&self, u: u128) -> (r: bool)
        ensures
            r == has_uuid(self@, u),
    {
        let mut i: usize = 0;
        while i < self.patterns.len()
            invariant
                i <= self@.len(),
                self@ == self.patterns@,
                forall|j: int| 0 <= j < i ==> (#[trigger] self@[j]).uuid != u,
            decreases self@.len() - i,
        {
            if self.patterns[i].uuid == u {
                return true;
            }
            i = i + 1;
        }
        false
    }

    /// Adds `p` at the end unless its UUID is already held; says whether it was added.
    pub fn insert(&mut self, p: Pattern) -> (added: bool)
        requires
            old(self).wf(),
        ensures
            final(self).wf(),
            added == !has_uuid(old(self)@, p.uuid),
            final(self)@ == (if added {
                old(self)@.push(p)
            } else {
                old(self)@
            }),
    {
        if self.contains_uuid(p.uuid) {
            return false;
        }
        self.patterns.push(p);
        proof {
            let ps = self@;
            assert forall|i: int, j: int| 0 <= i < ps.len() && 0 <= j < ps.len() && i != j implies #[trigger] ps[i].uuid != #[trigger] ps[j].uuid by {
                if i == ps.len() - 1 {
                    assert(old(self)@[j] == ps[j]);
                } else if j == ps.len() - 1 {
                    assert(old(self)@[i] == ps[i]);
                } else {
                    assert(old(self)@[i] == ps[i] && old(self)@[j] == ps[j]);
                }
            }
        }
        true
    }
}

} // verus!

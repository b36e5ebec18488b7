//! Identifier and time values carried by capabilities.

use vstd::prelude::*;

verus! {

/// A content address: the digest bytes of a canonical encoding.
#[derive(Debug, Clone)]
pub struct ContentHash {
    /// Digest bytes.
    pub digest: Vec<u8>,
}

/// Whether two byte strings are equal.
pub fn bytes_eq(a: &Vec<u8>, b: &Vec<u8>) -> (r: bool)
    ensures
        r == (a@ == b@),
{
    if a.len() != b.len() {
        return false;
    }
    let mut i: usize = 0;
    while i < a.len()
        invariant
            a.len() == b.len(),
            i <= a.len(),
            forall|j: int| 0 <= j < i ==> a@[j] == b@[j],
        decreases a.len() - i,
    {
        if a[i] != b[i] {
            return false;
        }
        i = i + 1;
    }
    assert(a@ =~= b@);
    true
}

/// A copy of a byte string.
pub fn copy_bytes(a: &Vec<u8>) -> (r: Vec<u8>)
    ensures
        r@ == a@,
{
    let mut r: Vec<u8> = Vec::new();
    let mut i: usize = 0;
    while i < a.len()
        invariant
            i <= a.len(),
            r@ =~= a@.take(i as int),
        decreases a.len() - i,
    {
        r.push(a[i]);
        i = i + 1;
    }
    assert(a@.take(a.len() as int) =~= a@);
    r
}

impl ContentHash {
    /// Whether two content addresses are the same.
    pub fn same_as(&self, other: &ContentHash) -> (r: bool)
        ensures
            r == (self.digest@ == other.digest@),
    {
        bytes_eq(&self.digest, &other.digest)
    }

    /// A copy of this content address.
    pub fn duplicate(&self) -> (r: ContentHash)
        ensures
            r.digest@ == self.digest@,
    {
        ContentHash { digest: copy_bytes(&self.digest) }
    }
}


/// An agent identifier (UUID bytes).
#[derive(Debug, Clone)]
pub struct AgentId {
    /// The identifier's bytes.
    pub bytes: Vec<u8>,
}

impl AgentId {
    /// Whether two agent ids are the same.
    pub fn same_as(&self, other: &AgentId) -> (r: bool)
        ensures
            r == (self.bytes@ == other.bytes@),
    {
        bytes_eq(&self.bytes, &other.bytes)
    }

    /// A copy of this id.
    pub fn duplicate(&self) -> (r: AgentId)
        ensures
            r.bytes@ == self.bytes@,
    {
        AgentId { bytes: copy_bytes(&self.bytes) }
    }
}

/// A swarm identifier (UUID bytes).
#[derive(Debug, Clone)]
pub struct SwarmId {
    /// The identifier's bytes.
    pub bytes: Vec<u8>,
}

impl SwarmId {
    /// A copy of this id.
    pub fn duplicate(&self) -> (r: SwarmId)
        ensures
            r.bytes@ == self.bytes@,
    {
        SwarmId { bytes: copy_bytes(&self.bytes) }
    }
}

/// A point in time: the RFC 3339 wall-clock text and monotonic
/// nanoseconds since the epoch.
#[derive(Debug, Clone)]
pub struct Timestamp {
    /// Wall-clock time, RFC 3339.
    pub wall_clock: String,
    /// Monotonic nanoseconds since the epoch.
    pub monotonic_ns: u64,
}

} // verus!

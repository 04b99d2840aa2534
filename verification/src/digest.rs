//! Opaque 32-byte digests: transaction ids and block hashes.

use crate::text::hex_prefix;
use vstd::prelude::*;

verus! {

/// Whether two digests hold the same bytes.
pub fn same_bytes(a: &[u8; 32], b: &[u8; 32]) -> (r: bool)
    ensures
        r == (a == b),
{
    let mut i: usize = 0;
    while i < 32
        invariant
            i <= 32,
            forall|k: int| 0 <= k < i ==> a@[k] == b@[k],
        decreases 32 - i,
    {
        if a[i] != b[i] {
            assert(a@[i as int] != b@[i as int]);
            return false;
        }
        i = i + 1;
    }
    assert(a =~= b);
    true
}

/// A transaction id: the chain's 32-byte transaction hash, opaque to this crate.
#[derive(Clone, Copy, Debug, Eq, PartialOrd, Ord, Hash)]
pub struct TxId([u8; 32]);

impl TxId {
    /// The raw digest.
    pub closed spec fn view(&self) -> Seq<u8> {
        self.0@
    }

    /// Two ids with the same bytes are the same id.
    pub proof fn lemma_view_injective(a: TxId, b: TxId)
        requires
            a@ == b@,
        ensures
            a == b,
    {
        assert forall|i: int| 0 <= i < 32 implies a.0[i] == b.0[i] by {
            assert(a@[i] == b@[i]);
        }
        assert(a.0 =~= b.0);
    }

    /// Wrap a 32-byte transaction hash.
    pub fn new(bytes: [u8; 32]) -> (id: Self)
        ensures
            id@ == bytes@,
    {
        Self(bytes)
    }

    /// The raw digest, for display or for handing back to chain code.
    pub fn as_bytes(&self) -> (b: &[u8; 32])
        ensures
            b@ == self@,
    {
        &self.0
    }

    /// The leading 8 hex characters, what an operator reads in a log line.
    pub fn short(&self) -> (s: String)
        ensures
            s@ == crate::text::hex_text(self@.take(4)),
    {
        hex_prefix(&self.0, 4)
    }

    /// The form used in logs: `tx:` and the short prefix.
    pub fn label(&self) -> (s: String)
        ensures
            s@ == "tx:"@ + crate::text::hex_text(self@.take(4)),
    {
        let mut s = crate::text::owned("tx:");
        s.append(self.short().as_str());
        s
    }
}

impl PartialEq for TxId {
    fn eq(&self, other: &Self) -> (r: bool) {
        same_bytes(&self.0, &other.0)
    }
}

impl vstd::std_specs::cmp::PartialEqSpecImpl for TxId {
    open spec fn obeys_eq_spec() -> bool {
        true
    }

    open spec fn eq_spec(&self, other: &Self) -> bool {
        *self == *other
    }
}

/// A block hash: the chain's 32-byte header hash, opaque to this crate.
///
/// Identity is what matters: two observations of the same height carrying
/// different ids mean a reorg replaced that block.
#[derive(Clone, Copy, Debug, Eq, PartialOrd, Ord, Hash)]
pub struct BlockId([u8; 32]);

impl BlockId {
    /// The raw digest.
    pub closed spec fn view(&self) -> Seq<u8> {
        self.0@
    }

    /// Two ids with the same bytes are the same id.
    pub proof fn lemma_view_injective(a: BlockId, b: BlockId)
        requires
            a@ == b@,
        ensures
            a == b,
    {
        assert forall|i: int| 0 <= i < 32 implies a.0[i] == b.0[i] by {
            assert(a@[i] == b@[i]);
        }
        assert(a.0 =~= b.0);
    }

    /// Wrap a 32-byte block hash.
    pub fn new(bytes: [u8; 32]) -> (id: Self)
        ensures
            id@ == bytes@,
    {
        Self(bytes)
    }

    /// The raw digest.
    pub fn as_bytes(&self) -> (b: &[u8; 32])
        ensures
            b@ == self@,
    {
        &self.0
    }

    /// The leading 8 hex characters, for logs.
    pub fn short(&self) -> (s: String)
        ensures
            s@ == crate::text::hex_text(self@.take(4)),
    {
        hex_prefix(&self.0, 4)
    }

    /// The form used in logs: `blk:` and the short prefix.
    pub fn label(&self) -> (s: String)
        ensures
            s@ == "blk:"@ + crate::text::hex_text(self@.take(4)),
    {
        let mut s = crate::text::owned("blk:");
        s.append(self.short().as_str());
        s
    }
}

impl PartialEq for BlockId {
    fn eq(&self, other: &Self) -> (r: bool) {
        same_bytes(&self.0, &other.0)
    }
}

impl vstd::std_specs::cmp::PartialEqSpecImpl for BlockId {
    open spec fn obeys_eq_spec() -> bool {
        true
    }

    open spec fn eq_spec(&self, other: &Self) -> bool {
        *self == *other
    }
}

} // verus!

use vstd::prelude::*;

verus! {

/// Where a committed transaction is stored: the block that holds it and its
/// position in that block's transaction list.
#[derive(Clone, Copy, Debug, PartialEq, Eq)]
pub struct TransactionLocation {
    pub block_hash: [u8; 32],
    pub index: u32,
}

/// Length of a stored location record: the block hash, then the index.
pub const LOCATION_RECORD_LEN: usize = 36;

/// Length of a block hash.
pub const BLOCK_HASH_LEN: usize = 32;

impl View for TransactionLocation {
    type V = (Seq<u8>, u32);

    open spec fn view(&self) -> (Seq<u8>, u32) {
        (self.block_hash@, self.index)
    }
}

/// The unsigned integer that four bytes encode, least significant first.
pub open spec fn le_u32(b: Seq<u8>) -> int {
    b[0] as int + 256 * (b[1] as int) + 65536 * (b[2] as int) + 16777216 * (b[3] as int)
}

/// The four little-endian bytes of an unsigned integer.
pub open spec fn u32_le_bytes(x: u32) -> Seq<u8> {
    seq![
        (x % 256) as u8,
        ((x / 256) % 256) as u8,
        ((x / 65536) % 256) as u8,
        (x / 16777216) as u8,
    ]
}

/// The stored record of a location: the block hash followed by the index in
/// little-endian order.
pub open spec fn location_record(loc: (Seq<u8>, u32)) -> Seq<u8> {
    loc.0 + u32_le_bytes(loc.1)
}

/// What a stored record decodes to; `None` where its length breaks the layout.
pub open spec fn decode_location(b: Seq<u8>) -> Option<(Seq<u8>, u32)> {
    if b.len() == LOCATION_RECORD_LEN {
        Some((b.subrange(0, 32), le_u32(b.subrange(32, 36)) as u32))
    } else {
        None
    }
}

proof fn lemma_u32_le_bytes(x: u32)
    ensures
        le_u32(u32_le_bytes(x)) == x,
        u32_le_bytes(x).len() == 4,
{
    let a = x % 256;
    let b = (x / 256) % 256;
    let c = (x / 65536) % 256;
    let d = x / 16777216;
    assert(x == a + 256 * b + 65536 * c + 16777216 * d) by (nonlinear_arith)
        requires
            a == x % 256,
            b == (x / 256) % 256,
            c == (x / 65536) % 256,
            d == x / 16777216,
    ;
    assert(d < 256) by (nonlinear_arith)
        requires
            d == x / 16777216,
            x < 0x1_0000_0000,
    ;
}

/// Decoding a location's stored record gives the location back.
pub proof fn lemma_location_round_trip(loc: (Seq<u8>, u32))
    requires
        loc.0.len() == BLOCK_HASH_LEN,
    ensures
        decode_location(location_record(loc)) == Some(loc),
{
    lemma_u32_le_bytes(loc.1);
    let r = location_record(loc);
    assert(r.subrange(0, 32) == loc.0);
    assert(r.subrange(32, 36) == u32_le_bytes(loc.1));
}

impl TransactionLocation {
    /// Decodes a stored location record; `None` where the bytes do not have
    /// the fixed layout.
    pub fn read_le(b: &[u8]) -> (r: Option<TransactionLocation>)
        ensures
            r is None <==> decode_location(b@) is None,
            r matches Some(loc) ==> decode_location(b@) == Some(loc@),
    {
        if b.len() != LOCATION_RECORD_LEN {
            return None;
        }
        let mut block_hash: [u8; 32] = [0u8; 32];
        let mut i: usize = 0;
        while i < BLOCK_HASH_LEN
            invariant
                b@.len() == LOCATION_RECORD_LEN,
                i <= BLOCK_HASH_LEN,
                forall|k: int| 0 <= k < i ==> block_hash@[k] == b@[k],
            decreases BLOCK_HASH_LEN - i,
        {
            block_hash[i] = b[i];
            i = i + 1;
        }
        let index: u32 = b[32] as u32 + 256 * (b[33] as u32) + 65536 * (b[34] as u32)
            + 16777216 * (b[35] as u32);
        let loc = TransactionLocation { block_hash, index };
        assert(loc.block_hash@ == b@.subrange(0, 32));
        assert(b@.subrange(32, 36)[0] == b@[32]);
        Some(loc)
    }

    /// Encodes the location as its stored record.
    pub fn to_bytes_le(&self) -> (r: Vec<u8>)
        ensures
            r@ == location_record(self@),
    {
        let mut r: Vec<u8> = Vec::new();
        let mut i: usize = 0;
        while i < BLOCK_HASH_LEN
            invariant
                i <= BLOCK_HASH_LEN,
                r@ == self.block_hash@.subrange(0, i as int),
            decreases BLOCK_HASH_LEN - i,
        {
            r.push(self.block_hash[i]);
            assert(self.block_hash@.subrange(0, i + 1) == self.block_hash@.subrange(0, i as int).push(
                self.block_hash@[i as int],
            ));
            i = i + 1;
        }
        let x = self.index;
        r.push((x % 256) as u8);
        r.push(((x / 256) % 256) as u8);
        r.push(((x / 65536) % 256) as u8);
        r.push((x / 16777216) as u8);
        assert(self.block_hash@ == self.block_hash@.subrange(0, 32));
        assert(r@ == location_record(self@));
        r
    }
}

} // verus!

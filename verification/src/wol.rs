use vstd::prelude::*;
use crate::net::MacAddr;

verus! {

/// Length of the Wake-on-LAN payload: six sync bytes and sixteen MAC copies.
pub const MAGIC_PACKET_LEN: usize = 102;

/// Primary UDP port the magic packet is broadcast to.
pub const WOL_PORT_PRIMARY: u16 = 9;

/// Fallback UDP port a second copy of the packet is sent to.
pub const WOL_PORT_FALLBACK: u16 = 7;

/// The wire form of a magic packet for a six-byte MAC: `FF` six times, then
/// the MAC sixteen times over.
pub open spec fn magic_packet_spec(mac: Seq<u8>) -> Seq<u8> {
    Seq::new(102, |i: int| if i < 6 { 0xffu8 } else { mac[(i - 6) % 6] })
}

/// Whether a byte string is a well-formed magic packet for some MAC.
pub open spec fn is_magic_packet(p: Seq<u8>) -> bool {
    &&& p.len() == 102
    &&& forall|i: int| 0 <= i < 6 ==> p[i] == 0xffu8
    &&& forall|i: int| 6 <= i < 102 ==> #[trigger] p[i] == p[6 + (i - 6) % 6]
}

/// Builds the 102-byte magic packet for a MAC.
pub fn build_magic_packet(mac: &MacAddr) -> (p: Vec<u8>)
    ensures
        p@ == magic_packet_spec(mac.bytes()),
        p@.len() == 102,
{
    let mut p: Vec<u8> = Vec::new();
    let mut i: usize = 0;
    while i < 6
        invariant
            0 <= i <= 6,
            p@.len() == i,
            forall|q: int| 0 <= q < i ==> p@[q] == 0xffu8,
        decreases 6 - i,
    {
        p.push(0xff);
        i += 1;
    }
    let mut rep: usize = 0;
    while rep < 16
        invariant
            0 <= rep <= 16,
            p@.len() == 6 + rep * 6,
            forall|q: int| 0 <= q < 6 ==> p@[q] == 0xffu8,
            forall|q: int|
                6 <= q < 6 + rep * 6 ==> p@[q] == mac.bytes()[(q - 6) % 6],
        decreases 16 - rep,
    {
        let mut j: usize = 0;
        while j < 6
            invariant
                0 <= j <= 6,
                rep < 16,
                p@.len() == 6 + rep * 6 + j,
                forall|q: int| 0 <= q < 6 ==> p@[q] == 0xffu8,
                forall|q: int|
                    6 <= q < 6 + rep * 6 + j ==> p@[q] == mac.bytes()[(q - 6) % 6],
            decreases 6 - j,
        {
            p.push(mac.octets[j]);
            proof {
                let q = 6 + rep * 6 + j;
                assert((q - 6) % 6 == j) by (nonlinear_arith)
                    requires 0 <= j < 6 && 0 <= rep && q == 6 + rep * 6 + j;
            }
            j += 1;
        }
        rep += 1;
    }
    proof {
        assert(p@ =~= magic_packet_spec(mac.bytes()));
    }
    p
}

/// Decodes a magic packet back to the MAC it names; `None` exactly when the
/// payload is not a well-formed magic packet.
pub fn decode_magic_packet(p: &Vec<u8>) -> (r: Option<MacAddr>)
    ensures
        r is Some <==> is_magic_packet(p@),
        r is Some ==> r->0.bytes() == p@.subrange(6, 12),
{
    if p.len() != 102 {
        return None;
    }
    let mut i: usize = 0;
    while i < 6
        invariant
            0 <= i <= 6,
            p@.len() == 102,
            forall|q: int| 0 <= q < i ==> p@[q] == 0xffu8,
        decreases 6 - i,
    {
        if p[i] != 0xff {
            proof {
                assert(!is_magic_packet(p@));
            }
            return None;
        }
        i += 1;
    }
    let octets: [u8; 6] = [p[6], p[7], p[8], p[9], p[10], p[11]];
    let mac = MacAddr { octets };
    let mut q: usize = 6;
    while q < 102
        invariant
            6 <= q <= 102,
            p@.len() == 102,
            mac.bytes() =~= p@.subrange(6, 12),
            forall|t: int| 0 <= t < 6 ==> p@[t] == 0xffu8,
            forall|t: int| 6 <= t < q ==> #[trigger] p@[t] == p@[6 + (t - 6) % 6],
        decreases 102 - q,
    {
        let idx: usize = (q - 6) % 6;
        if p[q] != p[6 + idx] {
            proof {
                assert(!is_magic_packet(p@));
            }
            return None;
        }
        q += 1;
    }
    proof {
        assert(is_magic_packet(p@));
        assert(mac.bytes() =~= p@.subrange(6, 12));
    }
    Some(mac)
}

/// Round trip: the packet built for a MAC decodes to exactly that MAC.
pub proof fn lemma_magic_packet_roundtrip(mac: MacAddr)
    ensures
        is_magic_packet(magic_packet_spec(mac.bytes())),
        magic_packet_spec(mac.bytes()).subrange(6, 12) == mac.bytes(),
{
    let p = magic_packet_spec(mac.bytes());
    assert forall|i: int| 6 <= i < 102 implies #[trigger] p[i] == p[6 + (i - 6) % 6] by {
        assert(0 <= (i - 6) % 6 < 6) by (nonlinear_arith)
            requires 6 <= i < 102;
        assert((i - 6) % 6 == ((6 + (i - 6) % 6) - 6) % 6) by (nonlinear_arith)
            requires 6 <= i < 102;
    }
    assert(p.subrange(6, 12) =~= mac.bytes());
}

/// Different MACs give different packets: reordering the MAC bytes changes
/// the payload.
pub proof fn lemma_magic_packet_injective(m1: MacAddr, m2: MacAddr)
    requires
        m1.bytes() != m2.bytes(),
    ensures
        magic_packet_spec(m1.bytes()) != magic_packet_spec(m2.bytes()),
{
    if magic_packet_spec(m1.bytes()) == magic_packet_spec(m2.bytes()) {
        assert forall|k: int| 0 <= k < 6 implies m1.bytes()[k] == m2.bytes()[k] by {
            assert(magic_packet_spec(m1.bytes())[6 + k] == m1.bytes()[k]);
            assert(magic_packet_spec(m2.bytes())[6 + k] == m2.bytes()[k]);
        }
        assert(m1.bytes() =~= m2.bytes());
    }
}

} // verus!

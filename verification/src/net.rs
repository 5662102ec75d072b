use vstd::prelude::*;

verus! {

// ---------------------------------------------------------------------------
// Hardware (MAC) addresses
// ---------------------------------------------------------------------------

/// A six-byte hardware address identifying a managed target.
#[derive(Debug, Clone, Copy, PartialEq, Eq, Hash)]
pub struct MacAddr {
    pub octets: [u8; 6],
}

pub open spec fn is_dec_digit(c: char) -> bool {
    '0' as u32 <= c as u32 <= '9' as u32
}

pub open spec fn dec_val(c: char) -> int {
    c as int - '0' as int
}

pub open spec fn is_hex_digit(c: char) -> bool {
    is_dec_digit(c)
    || ('a' as u32 <= c as u32 <= 'f' as u32)
    || ('A' as u32 <= c as u32 <= 'F' as u32)
}

pub open spec fn hex_val(c: char) -> int {
    if is_dec_digit(c) {
        c as int - '0' as int
    } else if 'a' as u32 <= c as u32 <= 'f' as u32 {
        c as int - 'a' as int + 10
    } else {
        c as int - 'A' as int + 10
    }
}

pub open spec fn is_mac_sep(c: char) -> bool {
    c == ':' || c == '-'
}

/// The colon- or dash-separated textual form: `AA:BB:CC:DD:EE:FF`.
pub open spec fn mac_sep_form(s: Seq<char>) -> bool {
    &&& s.len() == 17
    &&& forall|i: int|
        0 <= i < 17 ==> (if i % 3 == 2 {
            is_mac_sep(s[i])
        } else {
            is_hex_digit(s[i])
        })
}

/// The bare textual form: twelve hex digits, no separators.
pub open spec fn mac_raw_form(s: Seq<char>) -> bool {
    &&& s.len() == 12
    &&& forall|i: int| 0 <= i < 12 ==> is_hex_digit(s[i])
}

pub open spec fn valid_mac_str(s: Seq<char>) -> bool {
    mac_sep_form(s) || mac_raw_form(s)
}

/// The byte encoded by the two hex digits of octet `k` (0..6) of a MAC string.
pub open spec fn mac_octet_of(s: Seq<char>, k: int) -> int {
    if mac_sep_form(s) {
        hex_val(s[3 * k]) * 16 + hex_val(s[3 * k + 1])
    } else {
        hex_val(s[2 * k]) * 16 + hex_val(s[2 * k + 1])
    }
}

pub open spec fn mac_of_str(s: Seq<char>) -> Seq<u8> {
    Seq::new(6, |k: int| mac_octet_of(s, k) as u8)
}

impl MacAddr {
    pub open spec fn bytes(self) -> Seq<u8> {
        self.octets@
    }

    /// Byte-wise equality of two hardware addresses.
    pub fn same(&self, other: &MacAddr) -> (r: bool)
        ensures
            r <==> self.bytes() == other.bytes(),
            r <==> *self == *other,
    {
        let r = self.octets[0] == other.octets[0] && self.octets[1] == other.octets[1]
            && self.octets[2] == other.octets[2] && self.octets[3] == other.octets[3]
            && self.octets[4] == other.octets[4] && self.octets[5] == other.octets[5];
        proof {
            broadcast use vstd::array::group_array_axioms;
            if r {
                assert(self.bytes() =~= other.bytes());
                assert(self.octets =~= other.octets);
            }
        }
        r
    }
}

fn hex_digit_value(c: char) -> (r: Option<u8>)
    ensures
        r is Some <==> is_hex_digit(c),
        r is Some ==> r->0 == hex_val(c) && hex_val(c) < 16,
{
    let v: u32 = c as u32;
    if v >= '0' as u32 && v <= '9' as u32 {
        Some((v - '0' as u32) as u8)
    } else if v >= 'a' as u32 && v <= 'f' as u32 {
        Some((v - 'a' as u32 + 10) as u8)
    } else if v >= 'A' as u32 && v <= 'F' as u32 {
        Some((v - 'A' as u32 + 10) as u8)
    } else {
        None
    }
}

fn is_sep_char(c: char) -> (r: bool)
    ensures
        r == is_mac_sep(c),
{
    c == ':' || c == '-'
}

/// Reads the two hex digits of octet `k` of a MAC string in either textual
/// form; `step` is the distance between octet starts (3 with separators, 2 bare).
fn read_mac_octet(s: &str, step: usize, k: usize) -> (r: Option<u8>)
    requires
        k < 6,
        step == 2 || step == 3,
        step * 5 + 2 <= s@.len(),
    ensures
        r is Some <==> is_hex_digit(s@[step * k]) && is_hex_digit(s@[step * k + 1]),
        r is Some ==> r->0 == hex_val(s@[step * k]) * 16 + hex_val(s@[step * k + 1]),
{
    let hi = s.get_char(step * k);
    let lo = s.get_char(step * k + 1);
    match (hex_digit_value(hi), hex_digit_value(lo)) {
        (Some(h), Some(l)) => Some(h * 16 + l),
        _ => None,
    }
}

/// Parses a MAC address from either accepted textual form; `None` exactly on
/// malformed input.
pub fn parse_mac(s: &str) -> (r: Option<MacAddr>)
    ensures
        r is Some <==> valid_mac_str(s@),
        r is Some ==> r->0.bytes() == mac_of_str(s@),
{
    let n = s.unicode_len();
    if n == 17 {
        // Separators must stand at positions 2, 5, 8, 11, 14.
        let mut i: usize = 2;
        while i < 17
            invariant
                2 <= i <= 18,
                i % 3 == 2,
                s@.len() == 17,
                forall|j: int| 0 <= j < i && j % 3 == 2 ==> is_mac_sep(s@[j]),
            decreases 17 - i,
        {
            if !is_sep_char(s.get_char(i)) {
                proof {
                    assert(!mac_sep_form(s@));
                    assert(!mac_raw_form(s@));
                }
                return None;
            }
            i += 3;
        }
        let mut octets: [u8; 6] = [0, 0, 0, 0, 0, 0];
        let mut k: usize = 0;
        while k < 6
            invariant
                0 <= k <= 6,
                s@.len() == 17,
                forall|j: int| 0 <= j < 17 && j % 3 == 2 ==> is_mac_sep(s@[j]),
                forall|j: int|
                    0 <= j < 3 * k && j % 3 != 2 ==> is_hex_digit(s@[j]),
                forall|q: int|
                    0 <= q < k ==> octets@[q] == hex_val(s@[3 * q]) * 16 + hex_val(s@[3 * q + 1]),
            decreases 6 - k,
        {
            match read_mac_octet(s, 3, k) {
                Some(b) => {
                    octets[k] = b;
                }
                None => {
                    proof {
                        assert(!mac_sep_form(s@));
                        assert(!mac_raw_form(s@));
                    }
                    return None;
                }
            }
            k += 1;
        }
        proof {
            assert(mac_sep_form(s@)) by {
                assert(forall|i: int|
                    0 <= i < 17 && i % 3 != 2 ==> is_hex_digit(s@[i]));
            }
            assert(octets@ =~= mac_of_str(s@));
        }
        Some(MacAddr { octets })
    } else if n == 12 {
        let mut octets: [u8; 6] = [0, 0, 0, 0, 0, 0];
        let mut k: usize = 0;
        while k < 6
            invariant
                0 <= k <= 6,
                s@.len() == 12,
                forall|j: int| 0 <= j < 2 * k ==> is_hex_digit(s@[j]),
                forall|q: int|
                    0 <= q < k ==> octets@[q] == hex_val(s@[2 * q]) * 16 + hex_val(s@[2 * q + 1]),
            decreases 6 - k,
        {
            match read_mac_octet(s, 2, k) {
                Some(b) => {
                    octets[k] = b;
                }
                None => {
                    proof {
                        assert(!mac_raw_form(s@));
                        assert(!mac_sep_form(s@));
                    }
                    return None;
                }
            }
            k += 1;
        }
        proof {
            assert(mac_raw_form(s@));
            assert(octets@ =~= mac_of_str(s@));
        }
        Some(MacAddr { octets })
    } else {
        None
    }
}

/// The canonical character for one hex nibble, upper case.
pub open spec fn hex_digit_char(v: int) -> char {
    if v == 0 { '0' } else if v == 1 { '1' } else if v == 2 { '2' } else if v == 3 { '3' }
    else if v == 4 { '4' } else if v == 5 { '5' } else if v == 6 { '6' } else if v == 7 { '7' }
    else if v == 8 { '8' } else if v == 9 { '9' } else if v == 10 { 'A' } else if v == 11 { 'B' }
    else if v == 12 { 'C' } else if v == 13 { 'D' } else if v == 14 { 'E' } else { 'F' }
}

fn hex_digit_str(v: u8) -> (r: &'static str)
    requires
        v < 16,
    ensures
        r@.len() == 1,
        r@[0] == hex_digit_char(v as int),
{
    proof {
        reveal_strlit("0"); reveal_strlit("1"); reveal_strlit("2"); reveal_strlit("3");
        reveal_strlit("4"); reveal_strlit("5"); reveal_strlit("6"); reveal_strlit("7");
        reveal_strlit("8"); reveal_strlit("9"); reveal_strlit("A"); reveal_strlit("B");
        reveal_strlit("C"); reveal_strlit("D"); reveal_strlit("E"); reveal_strlit("F");
    }
    match v {
        0 => "0", 1 => "1", 2 => "2", 3 => "3",
        4 => "4", 5 => "5", 6 => "6", 7 => "7",
        8 => "8", 9 => "9", 10 => "A", 11 => "B",
        12 => "C", 13 => "D", 14 => "E", _ => "F",
    }
}

/// The canonical text of one MAC octet: two upper-case hex digits.
pub open spec fn hex_octet_chars(b: int) -> Seq<char> {
    seq![hex_digit_char(b / 16), hex_digit_char(b % 16)]
}

/// The canonical text of a MAC address: upper-case hex, colon separated.
pub open spec fn mac_string_spec(bytes: Seq<u8>) -> Seq<char>
    decreases bytes.len(),
{
    if bytes.len() == 0 {
        Seq::empty()
    } else if bytes.len() == 1 {
        hex_octet_chars(bytes[0] as int)
    } else {
        mac_string_spec(bytes.drop_last()) + seq![':'] + hex_octet_chars(bytes.last() as int)
    }
}

/// Renders the canonical upper-case, colon-separated text of a MAC address.
pub fn mac_to_string(mac: &MacAddr) -> (s: String)
    ensures
        s@ == mac_string_spec(mac.bytes()),
{
    let mut s = String::new();
    let mut k: usize = 0;
    while k < 6
        invariant
            0 <= k <= 6,
            s@ == mac_string_spec(mac.bytes().take(k as int)),
        decreases 6 - k,
    {
        if k > 0 {
            s.append(":");
            proof {
                reveal_strlit(":");
            }
        }
        let b = mac.octets[k];
        s.append(hex_digit_str(b / 16));
        s.append(hex_digit_str(b % 16));
        proof {
            let t = mac.bytes().take(k + 1int);
            assert(t.drop_last() =~= mac.bytes().take(k as int));
            assert(t.last() == mac.bytes()[k as int]);
            if k == 0 {
                assert(s@ =~= mac_string_spec(t));
            } else {
                assert(s@ =~= mac_string_spec(t));
            }
        }
        k += 1;
    }
    proof {
        assert(mac.bytes().take(6) =~= mac.bytes());
    }
    s
}

// ---------------------------------------------------------------------------
// IPv4 addresses
// ---------------------------------------------------------------------------

/// A four-octet IPv4 address held as plain bytes.
#[derive(Debug, Clone, Copy, PartialEq, Eq, Hash)]
pub struct Ipv4Addr {
    pub octets: [u8; 4],
}

impl Ipv4Addr {
    pub open spec fn bytes(self) -> Seq<u8> {
        self.octets@
    }

    /// Byte-wise equality of two addresses.
    pub fn same(&self, other: &Ipv4Addr) -> (r: bool)
        ensures
            r <==> self.bytes() == other.bytes(),
            r <==> *self == *other,
    {
        let r = self.octets[0] == other.octets[0] && self.octets[1] == other.octets[1]
            && self.octets[2] == other.octets[2] && self.octets[3] == other.octets[3];
        proof {
            broadcast use vstd::array::group_array_axioms;
            if r {
                assert(self.bytes() =~= other.bytes());
                assert(self.octets =~= other.octets);
            }
        }
        r
    }
}

/// The number a run of decimal digits denotes.
pub open spec fn dec_value(s: Seq<char>) -> int
    decreases s.len(),
{
    if s.len() == 0 {
        0
    } else {
        dec_value(s.drop_last()) * 10 + dec_val(s.last())
    }
}

/// One dotted-quad segment: one to three digits, no leading zero, at most 255.
pub open spec fn valid_octet_str(s: Seq<char>) -> bool {
    &&& 1 <= s.len() <= 3
    &&& forall|i: int| 0 <= i < s.len() ==> is_dec_digit(s[i])
    &&& (s.len() > 1 ==> s[0] != '0')
    &&& dec_value(s) <= 255
}

/// The dotted-quad split of a string at dot positions `i < j < k`.
pub open spec fn ipv4_split(s: Seq<char>, i: int, j: int, k: int) -> bool {
    &&& 0 <= i < j < k < s.len()
    &&& s[i] == '.' && s[j] == '.' && s[k] == '.'
    &&& valid_octet_str(s.subrange(0, i))
    &&& valid_octet_str(s.subrange(i + 1, j))
    &&& valid_octet_str(s.subrange(j + 1, k))
    &&& valid_octet_str(s.subrange(k + 1, s.len() as int))
}

pub open spec fn valid_ipv4_str(s: Seq<char>) -> bool {
    exists|i: int, j: int, k: int| ipv4_split(s, i, j, k)
}

/// The four octet values of a valid dotted quad, via its (unique) split.
pub open spec fn ipv4_of_str(s: Seq<char>) -> Seq<u8> {
    let (i, j, k) = choose|i: int, j: int, k: int| ipv4_split(s, i, j, k);
    seq![
        dec_value(s.subrange(0, i)) as u8,
        dec_value(s.subrange(i + 1, j)) as u8,
        dec_value(s.subrange(j + 1, k)) as u8,
        dec_value(s.subrange(k + 1, s.len() as int)) as u8,
    ]
}

/// Dot positions of a valid split are forced: each segment holds digits only,
/// so the string's dots are exactly the three separators.
proof fn lemma_split_unique(s: Seq<char>, i1: int, j1: int, k1: int, i2: int, j2: int, k2: int)
    requires
        ipv4_split(s, i1, j1, k1),
        ipv4_split(s, i2, j2, k2),
    ensures
        i1 == i2 && j1 == j2 && k1 == k2,
{
    assert(!is_dec_digit('.'));
    // Each split says: a position holds '.' iff it is one of its three dots.
    assert forall|p: int| 0 <= p < s.len() implies (s[p] == '.' <==> (p == i1 || p == j1 || p == k1)) by {
        if s[p] == '.' && p != i1 && p != j1 && p != k1 {
            if p < i1 {
                assert(s.subrange(0, i1)[p] == '.');
            } else if p < j1 {
                assert(s.subrange(i1 + 1, j1)[p - i1 - 1] == '.');
            } else if p < k1 {
                assert(s.subrange(j1 + 1, k1)[p - j1 - 1] == '.');
            } else {
                assert(s.subrange(k1 + 1, s.len() as int)[p - k1 - 1] == '.');
            }
        }
    }
    assert forall|p: int| 0 <= p < s.len() implies (s[p] == '.' <==> (p == i2 || p == j2 || p == k2)) by {
        if s[p] == '.' && p != i2 && p != j2 && p != k2 {
            if p < i2 {
                assert(s.subrange(0, i2)[p] == '.');
            } else if p < j2 {
                assert(s.subrange(i2 + 1, j2)[p - i2 - 1] == '.');
            } else if p < k2 {
                assert(s.subrange(j2 + 1, k2)[p - j2 - 1] == '.');
            } else {
                assert(s.subrange(k2 + 1, s.len() as int)[p - k2 - 1] == '.');
            }
        }
    }
    assert(s[i1] == '.' && s[j1] == '.' && s[k1] == '.');
    assert(s[i2] == '.' && s[j2] == '.' && s[k2] == '.');
}

/// Parses one dotted-quad segment, `s@.subrange(from, to)`.
fn parse_octet(s: &str, from: usize, to: usize) -> (r: Option<u8>)
    requires
        from <= to <= s@.len(),
    ensures
        r is Some <==> valid_octet_str(s@.subrange(from as int, to as int)),
        r is Some ==> r->0 == dec_value(s@.subrange(from as int, to as int)),
{
    let ghost seg = s@.subrange(from as int, to as int);
    let len: usize = to - from;
    if len < 1 || len > 3 {
        return None;
    }
    let mut acc: u16 = 0;
    let mut n: usize = 0;
    while n < len
        invariant
            0 <= n <= len,
            len == to - from,
            from <= to <= s@.len(),
            1 <= len <= 3,
            seg == s@.subrange(from as int, to as int),
            forall|i: int| 0 <= i < n ==> is_dec_digit(seg[i]),
            acc == dec_value(seg.take(n as int)),
            n == 0 ==> acc == 0,
            n == 1 ==> acc <= 9,
            n == 2 ==> acc <= 99,
            n == 3 ==> acc <= 999,
        decreases len - n,
    {
        let c = s.get_char(from + n);
        proof {
            assert(seg[n as int] == s@[from + n]);
        }
        let v: u32 = c as u32;
        if v < '0' as u32 || v > '9' as u32 {
            proof {
                assert(!valid_octet_str(seg));
            }
            return None;
        }
        let d: u16 = (v - '0' as u32) as u16;
        proof {
            let t = seg.take(n + 1int);
            assert(t.drop_last() =~= seg.take(n as int));
            assert(t.last() == seg[n as int]);
        }
        acc = acc * 10 + d;
        n += 1;
    }
    proof {
        assert(seg.take(len as int) =~= seg);
    }
    if len > 1 {
        let c0 = s.get_char(from);
        proof {
            assert(seg[0] == s@[from as int]);
        }
        if c0 == '0' {
            return None;
        }
    }
    if acc > 255 {
        return None;
    }
    Some(acc as u8)
}

/// Parses a dotted-quad IPv4 address; `None` exactly on malformed input.
pub fn parse_ipv4(s: &str) -> (r: Option<Ipv4Addr>)
    ensures
        r is Some <==> valid_ipv4_str(s@),
        r is Some ==> r->0.bytes() == ipv4_of_str(s@),
{
    let n = s.unicode_len();
    // Collect every dot position; more than three means malformed.
    let mut dots: [usize; 3] = [0, 0, 0];
    let mut ndots: usize = 0;
    let mut p: usize = 0;
    while p < n
        invariant
            0 <= p <= n,
            n == s@.len(),
            ndots <= 3,
            forall|q: int| 0 <= q < ndots ==> #[trigger] dots@[q] < p && s@[dots@[q] as int] == '.',
            forall|q: int|
                0 <= q < p ==> (s@[q] == '.' <==> exists|d: int|
                    0 <= d < ndots && #[trigger] dots@[d] == q),
            forall|q1: int, q2: int| 0 <= q1 < q2 < ndots ==> dots@[q1] < dots@[q2],
        decreases n - p,
    {
        if s.get_char(p) == '.' {
            if ndots == 3 {
                // A fourth dot: no valid split can exist.
                proof {
                    if valid_ipv4_str(s@) {
                        let (i, j, k) = choose|i: int, j: int, k: int| ipv4_split(s@, i, j, k);
                        assert(!is_dec_digit('.'));
                        assert forall|q: int| 0 <= q < s@.len() && s@[q] == '.'
                            implies (q == i || q == j || q == k) by {
                            if q != i && q != j && q != k {
                                if q < i {
                                    assert(s@.subrange(0, i)[q] == '.');
                                } else if q < j {
                                    assert(s@.subrange(i + 1, j)[q - i - 1] == '.');
                                } else if q < k {
                                    assert(s@.subrange(j + 1, k)[q - j - 1] == '.');
                                } else {
                                    assert(s@.subrange(k + 1, s@.len() as int)[q - k - 1] == '.');
                                }
                            }
                        }
                        let d0 = dots@[0] as int;
                        let d1 = dots@[1] as int;
                        let d2 = dots@[2] as int;
                        assert(s@[d0] == '.' && s@[d1] == '.' && s@[d2] == '.');
                        assert(s@[p as int] == '.');
                        assert(d0 < d1 < d2 < p);
                    }
                }
                return None;
            }
            let ghost olddots = dots@;
            let ghost oldn = ndots as int;
            dots[ndots] = p;
            ndots += 1;
            proof {
                assert(dots@ =~= olddots.update(oldn, p as usize));
                assert forall|q: int|
                    0 <= q < p + 1 implies (s@[q] == '.' <==> exists|d: int|
                        0 <= d < ndots && #[trigger] dots@[d] == q) by {
                    if q == p {
                        assert(dots@[oldn] == q);
                    } else if s@[q] == '.' {
                        let d = choose|d: int| 0 <= d < oldn && #[trigger] olddots[d] == q;
                        assert(dots@[d] == q);
                    } else {
                        if exists|d: int| 0 <= d < ndots && #[trigger] dots@[d] == q {
                            let d = choose|d: int| 0 <= d < ndots && #[trigger] dots@[d] == q;
                            assert(d < oldn);
                            assert(olddots[d] == q);
                        }
                    }
                }
            }
        } else {
            proof {
                assert forall|q: int|
                    0 <= q < p + 1 implies (s@[q] == '.' <==> exists|d: int|
                        0 <= d < ndots && #[trigger] dots@[d] == q) by {
                }
            }
        }
        p += 1;
    }
    if ndots != 3 {
        // Fewer than three dots: no valid split can exist.
        proof {
            if valid_ipv4_str(s@) {
                let (i, j, k) = choose|i: int, j: int, k: int| ipv4_split(s@, i, j, k);
                assert(s@[i] == '.' && s@[j] == '.' && s@[k] == '.');
                let di = choose|d: int| 0 <= d < ndots && #[trigger] dots@[d] == i;
                let dj = choose|d: int| 0 <= d < ndots && #[trigger] dots@[d] == j;
                let dk = choose|d: int| 0 <= d < ndots && #[trigger] dots@[d] == k;
                assert(di != dj && dj != dk && di != dk);
            }
        }
        return None;
    }
    let i = dots[0];
    let j = dots[1];
    let k = dots[2];
    let a = parse_octet(s, 0, i);
    let b = parse_octet(s, i + 1, j);
    let c = parse_octet(s, j + 1, k);
    let d = parse_octet(s, k + 1, n);
    match (a, b, c, d) {
        (Some(a), Some(b), Some(c), Some(d)) => {
            proof {
                assert(ipv4_split(s@, i as int, j as int, k as int));
                let (i2, j2, k2) = choose|i2: int, j2: int, k2: int| ipv4_split(s@, i2, j2, k2);
                lemma_split_unique(s@, i as int, j as int, k as int, i2, j2, k2);
                assert(seq![a, b, c, d] =~= ipv4_of_str(s@));
            }
            Some(Ipv4Addr { octets: [a, b, c, d] })
        }
        _ => {
            proof {
                if valid_ipv4_str(s@) {
                    let (i2, j2, k2) = choose|i2: int, j2: int, k2: int| ipv4_split(s@, i2, j2, k2);
                    // The collected dots are exactly the split's dots.
                    assert(!is_dec_digit('.'));
                    assert forall|q: int| 0 <= q < s@.len() && s@[q] == '.'
                        implies (q == i2 || q == j2 || q == k2) by {
                        if q != i2 && q != j2 && q != k2 {
                            if q < i2 {
                                assert(s@.subrange(0, i2)[q] == '.');
                            } else if q < j2 {
                                assert(s@.subrange(i2 + 1, j2)[q - i2 - 1] == '.');
                            } else if q < k2 {
                                assert(s@.subrange(j2 + 1, k2)[q - j2 - 1] == '.');
                            } else {
                                assert(s@.subrange(k2 + 1, s@.len() as int)[q - k2 - 1] == '.');
                            }
                        }
                    }
                    assert(s@[i as int] == '.' && s@[j as int] == '.' && s@[k as int] == '.');
                    assert(i2 == i && j2 == j && k2 == k) by {
                        assert(exists|d: int| 0 <= d < 3 && #[trigger] dots@[d] == i2);
                        assert(exists|d: int| 0 <= d < 3 && #[trigger] dots@[d] == j2);
                        assert(exists|d: int| 0 <= d < 3 && #[trigger] dots@[d] == k2);
                        assert(dots@[0] == i && dots@[1] == j && dots@[2] == k);
                    }
                }
            }
            None
        }
    }
}

/// The canonical digit character for one decimal value below ten.
pub open spec fn dec_digit_char(v: int) -> char {
    if v == 0 { '0' } else if v == 1 { '1' } else if v == 2 { '2' } else if v == 3 { '3' }
    else if v == 4 { '4' } else if v == 5 { '5' } else if v == 6 { '6' } else if v == 7 { '7' }
    else if v == 8 { '8' } else { '9' }
}

fn dec_digit_str(v: u8) -> (r: &'static str)
    requires
        v < 10,
    ensures
        r@.len() == 1,
        r@[0] == dec_digit_char(v as int),
{
    proof {
        reveal_strlit("0"); reveal_strlit("1"); reveal_strlit("2"); reveal_strlit("3");
        reveal_strlit("4"); reveal_strlit("5"); reveal_strlit("6"); reveal_strlit("7");
        reveal_strlit("8"); reveal_strlit("9");
    }
    match v {
        0 => "0", 1 => "1", 2 => "2", 3 => "3",
        4 => "4", 5 => "5", 6 => "6", 7 => "7",
        8 => "8", _ => "9",
    }
}


/// The decimal text of a non-negative number, most significant digit first.
pub open spec fn dec_chars(v: int) -> Seq<char>
    decreases v,
{
    if v < 10 {
        seq![dec_digit_char(v)]
    } else {
        dec_chars(v / 10) + seq![dec_digit_char(v % 10)]
    }
}

/// Renders a port number (or any small count) in decimal.
pub fn u16_to_string(v: u16) -> (s: String)
    ensures
        s@ == dec_chars(v as int),
    decreases v,
{
    if v < 10 {
        let s = String::from_str(dec_digit_str(v as u8));
        proof {
            assert(s@ =~= dec_chars(v as int));
        }
        s
    } else {
        let mut s = u16_to_string(v / 10);
        s.append(dec_digit_str((v % 10) as u8));
        proof {
            assert(s@ =~= dec_chars(v as int));
        }
        s
    }
}

/// The shortest decimal text of one octet value.
pub open spec fn dec_chars_of(v: int) -> Seq<char> {
    if v < 10 {
        seq![dec_digit_char(v)]
    } else if v < 100 {
        seq![dec_digit_char(v / 10), dec_digit_char(v % 10)]
    } else {
        seq![dec_digit_char(v / 100), dec_digit_char((v / 10) % 10), dec_digit_char(v % 10)]
    }
}

/// The canonical dotted-quad text of an IPv4 address.
pub open spec fn ipv4_string_spec(bytes: Seq<u8>) -> Seq<char>
    decreases bytes.len(),
{
    if bytes.len() == 0 {
        Seq::empty()
    } else if bytes.len() == 1 {
        dec_chars_of(bytes[0] as int)
    } else {
        ipv4_string_spec(bytes.drop_last()) + seq!['.'] + dec_chars_of(bytes.last() as int)
    }
}

fn append_octet_dec(s: &mut String, v: u8)
    ensures
        final(s)@ == old(s)@ + dec_chars_of(v as int),
{
    if v < 10 {
        s.append(dec_digit_str(v));
        proof {
            assert(final(s)@ =~= old(s)@ + dec_chars_of(v as int));
        }
    } else if v < 100 {
        s.append(dec_digit_str(v / 10));
        s.append(dec_digit_str(v % 10));
        proof {
            assert(final(s)@ =~= old(s)@ + dec_chars_of(v as int));
        }
    } else {
        s.append(dec_digit_str(v / 100));
        s.append(dec_digit_str((v / 10) % 10));
        s.append(dec_digit_str(v % 10));
        proof {
            assert(final(s)@ =~= old(s)@ + dec_chars_of(v as int));
        }
    }
}

/// Renders the canonical dotted-quad text of an IPv4 address.
pub fn ipv4_to_string(ip: &Ipv4Addr) -> (s: String)
    ensures
        s@ == ipv4_string_spec(ip.bytes()),
{
    let mut s = String::new();
    let mut k: usize = 0;
    while k < 4
        invariant
            0 <= k <= 4,
            s@ == ipv4_string_spec(ip.bytes().take(k as int)),
        decreases 4 - k,
    {
        if k > 0 {
            s.append(".");
            proof {
                reveal_strlit(".");
            }
        }
        append_octet_dec(&mut s, ip.octets[k]);
        proof {
            let t = ip.bytes().take(k + 1int);
            assert(t.drop_last() =~= ip.bytes().take(k as int));
            assert(t.last() == ip.bytes()[k as int]);
            assert(s@ =~= ipv4_string_spec(t));
        }
        k += 1;
    }
    proof {
        assert(ip.bytes().take(4) =~= ip.bytes());
    }
    s
}

// ---------------------------------------------------------------------------
// `parse` support for tests and callers outside the library
// ---------------------------------------------------------------------------

/// Error for a textual address that does not parse.
#[derive(Debug, Clone, Copy, PartialEq, Eq)]
pub struct AddrParseError;

impl core::str::FromStr for Ipv4Addr {
    type Err = AddrParseError;

    fn from_str(s: &str) -> Result<Ipv4Addr, AddrParseError> {
        match parse_ipv4(s) {
            Some(ip) => Ok(ip),
            None => Err(AddrParseError),
        }
    }
}

impl core::str::FromStr for MacAddr {
    type Err = AddrParseError;

    fn from_str(s: &str) -> Result<MacAddr, AddrParseError> {
        match parse_mac(s) {
            Some(m) => Ok(m),
            None => Err(AddrParseError),
        }
    }
}

} // verus!

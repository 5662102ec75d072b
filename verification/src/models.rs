use vstd::prelude::*;
use crate::api_models::Machine;
use crate::net::is_hex_digit;
use crate::net::is_mac_sep;
use crate::net::valid_ipv4_str;
use crate::net::parse_ipv4;

verus! {

/// The characters `str::trim` strips: the Unicode white-space set.
pub open spec fn is_space_char(c: char) -> bool {
    let v = c as u32;
    ||| v == 0x09
    ||| v == 0x0A
    ||| v == 0x0B
    ||| v == 0x0C
    ||| v == 0x0D
    ||| v == 0x20
    ||| v == 0x85
    ||| v == 0xA0
    ||| v == 0x1680
    ||| (0x2000 <= v <= 0x200A)
    ||| v == 0x2028
    ||| v == 0x2029
    ||| v == 0x202F
    ||| v == 0x205F
    ||| v == 0x3000
}

/// Blank: empty, or white space only (what trimming leaves empty).
pub open spec fn is_blank(s: Seq<char>) -> bool {
    forall|i: int| 0 <= i < s.len() ==> is_space_char(#[trigger] s[i])
}

/// The form check a MAC field must pass: only hex digits and separators, at
/// the length of either accepted textual form.
pub open spec fn form_mac_ok(s: Seq<char>) -> bool {
    &&& forall|i: int| 0 <= i < s.len() ==> is_hex_digit(#[trigger] s[i]) || is_mac_sep(s[i])
    &&& (s.len() == 17 || s.len() == 12)
}

fn is_space(c: char) -> (r: bool)
    ensures
        r == is_space_char(c),
{
    let v: u32 = c as u32;
    v == 0x09 || v == 0x0A || v == 0x0B || v == 0x0C || v == 0x0D || v == 0x20 || v == 0x85
        || v == 0xA0 || v == 0x1680 || (0x2000 <= v && v <= 0x200A) || v == 0x2028 || v == 0x2029
        || v == 0x202F || v == 0x205F || v == 0x3000
}

fn str_is_blank(s: &str) -> (r: bool)
    ensures
        r == is_blank(s@),
{
    let n = s.unicode_len();
    let mut i: usize = 0;
    while i < n
        invariant
            0 <= i <= n,
            n == s@.len(),
            forall|j: int| 0 <= j < i ==> is_space_char(#[trigger] s@[j]),
        decreases n - i,
    {
        if !is_space(s.get_char(i)) {
            return false;
        }
        i += 1;
    }
    true
}

fn str_form_mac_ok(s: &str) -> (r: bool)
    ensures
        r == form_mac_ok(s@),
{
    let n = s.unicode_len();
    if n != 17 && n != 12 {
        return false;
    }
    let mut i: usize = 0;
    while i < n
        invariant
            0 <= i <= n,
            n == s@.len(),
            forall|j: int|
                0 <= j < i ==> is_hex_digit(#[trigger] s@[j]) || is_mac_sep(s@[j]),
        decreases n - i,
    {
        let c = s.get_char(i);
        let v: u32 = c as u32;
        let hex = (v >= '0' as u32 && v <= '9' as u32) || (v >= 'a' as u32 && v <= 'f' as u32)
            || (v >= 'A' as u32 && v <= 'F' as u32);
        let sep = c == ':' || c == '-';
        if !hex && !sep {
            return false;
        }
        i += 1;
    }
    true
}

/// Validation findings keyed by field name; at most one entry per field.
pub struct ValidationErrors {
    entries: Vec<(String, Vec<String>)>,
}

impl ValidationErrors {
    pub closed spec fn entries_seq(self) -> Seq<(String, Vec<String>)> {
        self.entries@
    }

    pub open spec fn has_key(self, k: Seq<char>) -> bool {
        exists|i: int|
            0 <= i < self.entries_seq().len() && #[trigger] self.entries_seq()[i].0@ == k
    }

    pub open spec fn key_index(self, k: Seq<char>) -> int {
        choose|i: int|
            0 <= i < self.entries_seq().len() && #[trigger] self.entries_seq()[i].0@ == k
    }

    /// The messages recorded for a field (meaningful when `has_key` holds).
    pub open spec fn msgs_of(self, k: Seq<char>) -> Seq<Seq<char>> {
        self.entries_seq()[self.key_index(k)].1.deep_view()
    }

    pub open spec fn wf(self) -> bool {
        forall|i: int, j: int|
            0 <= i < j < self.entries_seq().len() ==> #[trigger] self.entries_seq()[i].0@
                != #[trigger] self.entries_seq()[j].0@
    }

    proof fn lemma_key_index(self, k: Seq<char>, i: int)
        requires
            self.wf(),
            0 <= i < self.entries_seq().len(),
            self.entries_seq()[i].0@ == k,
        ensures
            self.key_index(k) == i,
            self.has_key(k),
    {
        assert(self.has_key(k));
        let j = self.key_index(k);
        if i < j {
            assert(false);
        } else if j < i {
            assert(false);
        }
    }

    pub fn new() -> (r: ValidationErrors)
        ensures
            r.wf(),
            forall|k: Seq<char>| !r.has_key(k),
    {
        ValidationErrors { entries: Vec::new() }
    }

    /// Records one message for a field not yet reported.
    fn insert(&mut self, key: &str, msg: &str)
        requires
            old(self).wf(),
            !old(self).has_key(key@),
        ensures
            final(self).wf(),
            final(self).has_key(key@),
            final(self).msgs_of(key@) == seq![msg@],
            forall|k: Seq<char>|
                k != key@ ==> #[trigger] final(self).has_key(k) == old(self).has_key(k),
            forall|k: Seq<char>|
                k != key@ && old(self).has_key(k) ==> #[trigger] final(self).msgs_of(k) == old(
                    self,
                ).msgs_of(k),
    {
        let owned_key = key.to_owned();
        let msgs: Vec<String> = vec![msg.to_owned()];
        let ghost msgs_snapshot = msgs;
        proof {
            assert(msgs_snapshot.deep_view() =~= seq![msg@]);
        }
        let ghost n = self.entries@.len();
        self.entries.push((owned_key, msgs));
        proof {
            let es = self.entries_seq();
            let oes = old(self).entries_seq();
            assert(es =~= oes.push((owned_key, msgs)));
            assert(es[n as int].0@ == key@);
            assert forall|a: int, b: int|
                0 <= a < b < es.len() implies #[trigger] es[a].0@ != #[trigger] es[b].0@ by {
                if b == es.len() - 1 {
                    assert(es[a] == oes[a]);
                    assert(oes[a].0@ != key@);
                }
            }
            self.lemma_key_index(key@, n as int);
            assert(es[n as int].1 == msgs_snapshot);
            assert(self.msgs_of(key@) =~= seq![msg@]);
            assert forall|k: Seq<char>|
                k != key@ implies #[trigger] self.has_key(k) == old(self).has_key(k) by {
                if self.has_key(k) {
                    let j = self.key_index(k);
                    assert(j != n);
                    assert(oes[j].0@ == k);
                }
                if old(self).has_key(k) {
                    let j = old(self).key_index(k);
                    assert(es[j].0@ == k);
                }
            }
            assert forall|k: Seq<char>|
                k != key@ && old(self).has_key(k) implies #[trigger] self.msgs_of(k) == old(
                    self,
                ).msgs_of(k) by {
                let j = old(self).key_index(k);
                assert(es[j].0@ == k);
                self.lemma_key_index(k, j);
                assert(es[j] == oes[j]);
            }
        }
    }

    /// Whether the field has a finding.
    pub fn contains_key(&self, key: &str) -> (r: bool)
        ensures
            r == self.has_key(key@),
    {
        let owned_key = key.to_owned();
        let n = self.entries.len();
        let mut i: usize = 0;
        while i < n
            invariant
                0 <= i <= n,
                n == self.entries_seq().len(),
                owned_key@ == key@,
                forall|j: int| 0 <= j < i ==> #[trigger] self.entries_seq()[j].0@ != key@,
            decreases n - i,
        {
            if self.entries[i].0 == owned_key {
                return true;
            }
            i += 1;
        }
        false
    }

    /// How many fields have findings.
    pub fn len(&self) -> (n: usize)
        ensures
            n == self.entries_seq().len(),
    {
        self.entries.len()
    }
}

/// Checks a machine form as the UI submits it: the name must not be blank,
/// the address must be a dotted quad, a configured shutdown port must not be
/// zero, and the MAC must look like a hardware address.
pub fn validate_machine_form(machine: &Machine) -> (r: ValidationErrors)
    ensures
        r.wf(),
        r.has_key("name"@) <==> is_blank(machine.name@),
        r.has_key("ip"@) <==> !valid_ipv4_str(machine.ip@),
        r.has_key("turn_off_port"@) <==> machine.turn_off_port == Some(0u16),
        r.has_key("mac"@) <==> !form_mac_ok(machine.mac@),
        forall|k: Seq<char>|
            #[trigger] r.has_key(k) ==> k == "name"@ || k == "ip"@ || k == "turn_off_port"@ || k
                == "mac"@,
        is_blank(machine.name@) ==> r.msgs_of("name"@) == seq!["Name is required"@],
        !valid_ipv4_str(machine.ip@) ==> r.msgs_of("ip"@) == seq!["Invalid IP address"@],
        machine.turn_off_port == Some(0u16) ==> r.msgs_of("turn_off_port"@) == seq![
            "Port must be between 1 and 65535"@,
        ],
        !form_mac_ok(machine.mac@) ==> r.msgs_of("mac"@) == seq!["Invalid MAC address"@],
{
    proof {
        lemma_distinct_field_keys();
    }
    let mut errors = ValidationErrors::new();
    proof {
        assert(!errors.has_key("name"@) && !errors.has_key("ip"@) && !errors.has_key(
            "turn_off_port"@,
        ) && !errors.has_key("mac"@));
    }
    let name_blank = str_is_blank(machine.name.as_str());
    if name_blank {
        errors.insert("name", "Name is required");
    }
    proof {
        lemma_distinct_field_keys();
        assert(errors.has_key("name"@) <==> is_blank(machine.name@));
        assert(is_blank(machine.name@) ==> errors.msgs_of("name"@) == seq!["Name is required"@]);
        assert(!errors.has_key("ip"@) && !errors.has_key("turn_off_port"@) && !errors.has_key(
            "mac"@,
        ));
    }
    let ip_ok = match parse_ipv4(machine.ip.as_str()) {
        Some(_) => true,
        None => false,
    };
    if !ip_ok {
        errors.insert("ip", "Invalid IP address");
    }
    proof {
        lemma_distinct_field_keys();
        assert(errors.has_key("name"@) <==> is_blank(machine.name@));
        assert(is_blank(machine.name@) ==> errors.msgs_of("name"@) == seq!["Name is required"@]);
        assert(errors.has_key("ip"@) <==> !valid_ipv4_str(machine.ip@));
        assert(!valid_ipv4_str(machine.ip@) ==> errors.msgs_of("ip"@) == seq![
            "Invalid IP address"@,
        ]);
        assert(!errors.has_key("turn_off_port"@) && !errors.has_key("mac"@));
    }
    let port_zero = match machine.turn_off_port {
        Some(p) => p == 0,
        None => false,
    };
    if port_zero {
        errors.insert("turn_off_port", "Port must be between 1 and 65535");
    }
    proof {
        lemma_distinct_field_keys();
        assert(errors.has_key("name"@) <==> is_blank(machine.name@));
        assert(is_blank(machine.name@) ==> errors.msgs_of("name"@) == seq!["Name is required"@]);
        assert(errors.has_key("ip"@) <==> !valid_ipv4_str(machine.ip@));
        assert(!valid_ipv4_str(machine.ip@) ==> errors.msgs_of("ip"@) == seq![
            "Invalid IP address"@,
        ]);
        assert(errors.has_key("turn_off_port"@) <==> machine.turn_off_port == Some(0u16));
        assert(machine.turn_off_port == Some(0u16) ==> errors.msgs_of("turn_off_port"@) == seq![
            "Port must be between 1 and 65535"@,
        ]);
        assert(!errors.has_key("mac"@));
    }
    let mac_ok = str_form_mac_ok(machine.mac.as_str());
    if !mac_ok {
        errors.insert("mac", "Invalid MAC address");
    }
    proof {
        lemma_distinct_field_keys();
        assert(errors.has_key("name"@) <==> is_blank(machine.name@));
        assert(is_blank(machine.name@) ==> errors.msgs_of("name"@) == seq!["Name is required"@]);
        assert(errors.has_key("ip"@) <==> !valid_ipv4_str(machine.ip@));
        assert(!valid_ipv4_str(machine.ip@) ==> errors.msgs_of("ip"@) == seq![
            "Invalid IP address"@,
        ]);
        assert(errors.has_key("turn_off_port"@) <==> machine.turn_off_port == Some(0u16));
        assert(machine.turn_off_port == Some(0u16) ==> errors.msgs_of("turn_off_port"@) == seq![
            "Port must be between 1 and 65535"@,
        ]);
    }
    errors
}


/// The four field names are distinct keys.
proof fn lemma_distinct_field_keys()
    ensures
        "name"@ != "ip"@,
        "name"@ != "turn_off_port"@,
        "name"@ != "mac"@,
        "ip"@ != "turn_off_port"@,
        "ip"@ != "mac"@,
        "turn_off_port"@ != "mac"@,
{
    reveal_strlit("name");
    reveal_strlit("ip");
    reveal_strlit("turn_off_port");
    reveal_strlit("mac");
    assert("name"@.len() == 4);
    assert("ip"@.len() == 2);
    assert("turn_off_port"@.len() == 13);
    assert("mac"@.len() == 3);
}

} // verus!

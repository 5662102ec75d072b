use vstd::prelude::*;
use crate::net::MacAddr;
use crate::net::Ipv4Addr;
use crate::net::mac_of_str;
use crate::net::parse_mac;
use crate::net::valid_mac_str;
use crate::web::Machine;

verus! {

/// How long a cancelled forwarder waits for in-flight sessions.
pub const DRAIN_WINDOW_MS: u64 = 5000;

/// One forwarding rule the registry can run a forwarder for.
#[derive(Debug, Clone, Copy, PartialEq, Eq)]
pub struct ForwardRule {
    pub mac: MacAddr,
    pub ip: Ipv4Addr,
    pub local_port: u16,
    pub target_port: u16,
}

impl ForwardRule {
    /// Field-wise equality; two equal rules name the same forwarder.
    pub fn same_rule(&self, other: &ForwardRule) -> (r: bool)
        ensures
            r <==> *self == *other,
    {
        self.mac.same(&other.mac) && self.ip.same(&other.ip) && self.local_port
            == other.local_port && self.target_port == other.target_port
    }
}

/// The hardware address a valid MAC string denotes.
pub open spec fn mac_of(s: Seq<char>) -> MacAddr {
    choose|m: MacAddr| m.bytes() == mac_of_str(s)
}

pub proof fn lemma_mac_of(mc: MacAddr, s: Seq<char>)
    requires
        mc.bytes() == mac_of_str(s),
    ensures
        mac_of(s) == mc,
{
    broadcast use vstd::array::group_array_axioms;

    assert(exists|m: MacAddr| m.bytes() == mac_of_str(s));
    let c = mac_of(s);
    assert(c.octets =~= mc.octets);
}

/// The rules one machine asks for; a machine whose MAC does not parse gets
/// none.
pub open spec fn machine_rules_spec(m: Machine) -> Seq<ForwardRule> {
    if valid_mac_str(m.mac@) {
        Seq::new(
            m.port_forwards@.len(),
            |i: int|
                ForwardRule {
                    mac: mac_of(m.mac@),
                    ip: m.ip,
                    local_port: m.port_forwards@[i].local_port,
                    target_port: m.port_forwards@[i].target_port,
                },
        )
    } else {
        Seq::empty()
    }
}

/// The rules an inventory snapshot asks for, machine by machine.
pub open spec fn desired_rules_spec(ms: Seq<Machine>) -> Seq<ForwardRule>
    decreases ms.len(),
{
    if ms.len() == 0 {
        Seq::empty()
    } else {
        desired_rules_spec(ms.drop_last()) + machine_rules_spec(ms.last())
    }
}

/// Flattens an inventory snapshot into the rules it asks for.
pub fn desired_rules(machines: &Vec<Machine>) -> (r: Vec<ForwardRule>)
    ensures
        r@ == desired_rules_spec(machines@),
{
    let mut acc: Vec<ForwardRule> = Vec::new();
    let n = machines.len();
    let mut i: usize = 0;
    while i < n
        invariant
            0 <= i <= n,
            n == machines@.len(),
            acc@ == desired_rules_spec(machines@.take(i as int)),
        decreases n - i,
    {
        let m = &machines[i];
        match parse_mac(m.mac.as_str()) {
            None => {
                proof {
                    let t = machines@.take(i + 1int);
                    assert(t.drop_last() =~= machines@.take(i as int));
                    assert(t.last() == machines@[i as int]);
                    assert(acc@ =~= desired_rules_spec(t));
                }
            }
            Some(mc) => {
                let ghost prev = acc@;
                let npf = m.port_forwards.len();
                let mut j: usize = 0;
                while j < npf
                    invariant
                        0 <= j <= npf,
                        npf == m.port_forwards@.len(),
                        mc.bytes() == mac_of_str(m.mac@),
                        valid_mac_str(m.mac@),
                        m == machines@[i as int],
                        acc@.len() == prev.len() + j,
                        acc@.take(prev.len() as int) == prev,
                        forall|q: int|
                            0 <= q < j ==> #[trigger] acc@[prev.len() + q] == (ForwardRule {
                                mac: mc,
                                ip: m.ip,
                                local_port: m.port_forwards@[q].local_port,
                                target_port: m.port_forwards@[q].target_port,
                            }),
                    decreases npf - j,
                {
                    acc.push(
                        ForwardRule {
                            mac: mc,
                            ip: m.ip,
                            local_port: m.port_forwards[j].local_port,
                            target_port: m.port_forwards[j].target_port,
                        },
                    );
                    proof {
                        assert(acc@.take(prev.len() as int) =~= prev);
                    }
                    j += 1;
                }
                proof {
                    lemma_mac_of(mc, m.mac@);
                    let t = machines@.take(i + 1int);
                    assert(t.drop_last() =~= machines@.take(i as int));
                    assert(t.last() == machines@[i as int]);
                    let mr = machine_rules_spec(machines@[i as int]);
                    assert(mr.len() == npf);
                    assert forall|q: int| 0 <= q < npf implies acc@[prev.len() + q] == mr[q] by {
                        assert(acc@[prev.len() + q] == (ForwardRule {
                            mac: mc,
                            ip: m.ip,
                            local_port: m.port_forwards@[q].local_port,
                            target_port: m.port_forwards@[q].target_port,
                        }));
                        assert(mr[q] == (ForwardRule {
                            mac: mac_of(m.mac@),
                            ip: m.ip,
                            local_port: m.port_forwards@[q].local_port,
                            target_port: m.port_forwards@[q].target_port,
                        }));
                    }
                    assert forall|q: int| 0 <= q < prev.len() implies acc@[q] == prev[q] by {
                        assert(acc@.take(prev.len() as int)[q] == acc@[q]);
                    }
                    assert(acc@ =~= prev + mr);
                    assert(acc@ =~= desired_rules_spec(t));
                }
            }
        }
        i += 1;
    }
    proof {
        assert(machines@.take(n as int) =~= machines@);
    }
    acc
}

/// Whether a rule list holds this exact rule.
pub open spec fn contains_rule(rs: Seq<ForwardRule>, r: ForwardRule) -> bool {
    exists|i: int| 0 <= i < rs.len() && rs[i] == r
}

fn vec_contains_rule(rs: &Vec<ForwardRule>, r: &ForwardRule) -> (found: bool)
    ensures
        found == contains_rule(rs@, *r),
{
    let n = rs.len();
    let mut i: usize = 0;
    while i < n
        invariant
            0 <= i <= n,
            n == rs@.len(),
            forall|j: int| 0 <= j < i ==> rs@[j] != *r,
        decreases n - i,
    {
        if rs[i].same_rule(r) {
            return true;
        }
        i += 1;
    }
    false
}

/// The rules of `from` that `other` lacks, in order.
pub open spec fn rules_missing_from(from: Seq<ForwardRule>, other: Seq<ForwardRule>) -> Seq<
    ForwardRule,
>
    decreases from.len(),
{
    if from.len() == 0 {
        Seq::empty()
    } else {
        rules_missing_from(from.drop_last(), other) + (if !contains_rule(other, from.last()) {
            seq![from.last()]
        } else {
            Seq::empty()
        })
    }
}

/// The symmetric difference the registry acts on at an inventory change
///: rules to start and rules to stop. A changed address makes a
/// different rule, so it appears on both sides.
pub fn diff_rules(current: &Vec<ForwardRule>, desired: &Vec<ForwardRule>) -> (r: (
    Vec<ForwardRule>,
    Vec<ForwardRule>,
))
    ensures
        r.0@ == rules_missing_from(desired@, current@),
        r.1@ == rules_missing_from(current@, desired@),
{
    let mut added: Vec<ForwardRule> = Vec::new();
    let n = desired.len();
    let mut i: usize = 0;
    while i < n
        invariant
            0 <= i <= n,
            n == desired@.len(),
            added@ == rules_missing_from(desired@.take(i as int), current@),
        decreases n - i,
    {
        if !vec_contains_rule(current, &desired[i]) {
            added.push(desired[i]);
        }
        proof {
            let t = desired@.take(i + 1int);
            assert(t.drop_last() =~= desired@.take(i as int));
            assert(t.last() == desired@[i as int]);
            assert(added@ =~= rules_missing_from(t, current@));
        }
        i += 1;
    }
    let mut removed: Vec<ForwardRule> = Vec::new();
    let m = current.len();
    let mut k: usize = 0;
    while k < m
        invariant
            0 <= k <= m,
            m == current@.len(),
            removed@ == rules_missing_from(current@.take(k as int), desired@),
        decreases m - k,
    {
        if !vec_contains_rule(desired, &current[k]) {
            removed.push(current[k]);
        }
        proof {
            let t = current@.take(k + 1int);
            assert(t.drop_last() =~= current@.take(k as int));
            assert(t.last() == current@[k as int]);
            assert(removed@ =~= rules_missing_from(t, desired@));
        }
        k += 1;
    }
    proof {
        assert(desired@.take(n as int) =~= desired@);
        assert(current@.take(m as int) =~= current@);
    }
    (added, removed)
}

/// The set of running forwarders, one per rule, with their bound ports
/// unique (spec I1/I2).
pub struct Registry {
    running: Vec<ForwardRule>,
}

impl Registry {
    pub closed spec fn running_seq(self) -> Seq<ForwardRule> {
        self.running@
    }

    /// No two running forwarders share a local port.
    pub open spec fn wf(self) -> bool {
        forall|i: int, j: int|
            0 <= i < j < self.running_seq().len() ==> #[trigger] self.running_seq()[i].local_port
                != #[trigger] self.running_seq()[j].local_port
    }

    pub open spec fn port_bound(self, port: u16) -> bool {
        exists|i: int|
            0 <= i < self.running_seq().len() && #[trigger] self.running_seq()[i].local_port
                == port
    }

    pub fn new() -> (r: Registry)
        ensures
            r.wf(),
            r.running_seq() == Seq::<ForwardRule>::empty(),
            forall|p: u16| !r.port_bound(p),
    {
        let r = Registry { running: Vec::new() };
        proof {
            assert(r.running_seq() =~= Seq::<ForwardRule>::empty());
        }
        r
    }

    fn find_port(&self, port: u16) -> (r: Option<usize>)
        ensures
            r is Some <==> self.port_bound(port),
            r is Some ==> 0 <= r->0 < self.running_seq().len()
                && self.running_seq()[r->0 as int].local_port == port,
    {
        let n = self.running.len();
        let mut i: usize = 0;
        while i < n
            invariant
                0 <= i <= n,
                n == self.running_seq().len(),
                forall|j: int| 0 <= j < i ==> #[trigger] self.running_seq()[j].local_port != port,
            decreases n - i,
        {
            if self.running[i].local_port == port {
                return Some(i);
            }
            i += 1;
        }
        None
    }

    /// Starts a forwarder for a rule: a local port already bound
    /// is reported as a bind failure and nothing changes; otherwise the rule
    /// runs.
    pub fn start_rule(&mut self, rule: ForwardRule) -> (r: Result<(), u16>)
        requires
            old(self).wf(),
        ensures
            final(self).wf(),
            r is Ok <==> !old(self).port_bound(rule.local_port),
            r is Ok ==> final(self).running_seq() == old(self).running_seq().push(rule),
            r is Err ==> r->Err_0 == rule.local_port && *final(self) == *old(self),
    {
        match self.find_port(rule.local_port) {
            Some(_) => Err(rule.local_port),
            None => {
                self.running.push(rule);
                proof {
                    let oss = old(self).running_seq();
                    let ss = self.running_seq();
                    assert(ss =~= oss.push(rule));
                    assert forall|i: int, j: int|
                        0 <= i < j < ss.len() implies #[trigger] ss[i].local_port
                        != #[trigger] ss[j].local_port by {
                        if j == ss.len() - 1 {
                            assert(ss[i] == oss[i]);
                            assert(ss[j] == rule);
                            assert(oss[i].local_port != rule.local_port);
                        } else {
                            assert(ss[i] == oss[i]);
                            assert(ss[j] == oss[j]);
                        }
                    }
                }
                Ok(())
            }
        }
    }

    /// Stops the forwarder bound to a port, if one runs: its listener closes
    /// at once, and its sessions get the drain window.
    pub fn stop_port(&mut self, port: u16) -> (r: bool)
        requires
            old(self).wf(),
        ensures
            final(self).wf(),
            r <==> old(self).port_bound(port),
            !r ==> *final(self) == *old(self),
            r ==> exists|i: int|
                0 <= i < old(self).running_seq().len() && #[trigger] old(self).running_seq()[i].local_port
                    == port && final(self).running_seq() == old(self).running_seq().remove(i),
            !final(self).port_bound(port),
    {
        match self.find_port(port) {
            None => false,
            Some(i) => {
                self.running.remove(i);
                proof {
                    let oss = old(self).running_seq();
                    let ss = self.running_seq();
                    assert(ss =~= oss.remove(i as int));
                    assert forall|a: int, b: int|
                        0 <= a < b < ss.len() implies #[trigger] ss[a].local_port
                        != #[trigger] ss[b].local_port by {
                        let a0 = if a < i { a } else { a + 1 };
                        let b0 = if b < i { b } else { b + 1 };
                        assert(ss[a] == oss[a0] && ss[b] == oss[b0]);
                    }
                    assert forall|a: int| 0 <= a < ss.len() implies #[trigger] ss[a].local_port
                        != port by {
                        let a0 = if a < i { a } else { a + 1 };
                        assert(ss[a] == oss[a0]);
                        if a0 != i {
                            assert(oss[a0].local_port != oss[i as int].local_port);
                        }
                    }
                }
                true
            }
        }
    }

    /// How many forwarders run.
    pub fn running_count(&self) -> (n: usize)
        ensures
            n == self.running_seq().len(),
    {
        self.running.len()
    }

    /// Bound ports are unique, so for each local port at most
    /// one forwarder runs: two running rules with one port are the same rule.
    pub proof fn lemma_unique_binding(self, i: int, j: int)
        requires
            self.wf(),
            0 <= i < self.running_seq().len(),
            0 <= j < self.running_seq().len(),
            self.running_seq()[i].local_port == self.running_seq()[j].local_port,
        ensures
            i == j,
    {
        if i < j {
            assert(false);
        } else if j < i {
            assert(false);
        }
    }
}

} // verus!

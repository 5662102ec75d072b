use vstd::prelude::*;
use crate::api_models;
use crate::net::Ipv4Addr;
use crate::net::ipv4_string_spec;
use crate::net::parse_ipv4;
use crate::net::ipv4_to_string;
use crate::net::valid_ipv4_str;
use crate::net::ipv4_of_str;

verus! {

/// A forwarding rule as the engine holds it; an unnamed rule has the empty
/// name.
#[derive(Debug, Clone, PartialEq, Eq)]
pub struct PortForward {
    pub name: String,
    pub local_port: u16,
    pub target_port: u16,
}

/// A managed machine as the engine holds it: the address is parsed, the
/// hardware address stays in its textual form.
#[derive(Debug, Clone, PartialEq, Eq)]
pub struct Machine {
    pub mac: String,
    pub ip: Ipv4Addr,
    pub name: String,
    pub description: Option<String>,
    pub turn_off_port: Option<u16>,
    pub can_be_turned_off: bool,
    pub inactivity_period: u32,
    pub port_forwards: Vec<PortForward>,
}

/// Converts an API forwarding rule to the engine's form: a missing name
/// becomes the empty one.
pub fn api_port_forward_to_internal(pf: &api_models::PortForward) -> (r: PortForward)
    ensures
        r.local_port == pf.local_port,
        r.target_port == pf.target_port,
        r.name@ == (match pf.name {
            Some(n) => n@,
            None => Seq::<char>::empty(),
        }),
{
    let name = match &pf.name {
        Some(n) => n.clone(),
        None => String::new(),
    };
    PortForward { name, local_port: pf.local_port, target_port: pf.target_port }
}

/// Converts an engine forwarding rule back to the API's form: the empty name
/// becomes a missing one.
pub fn internal_port_forward_to_api(pf: &PortForward) -> (r: api_models::PortForward)
    ensures
        r.local_port == pf.local_port,
        r.target_port == pf.target_port,
        pf.name@.len() == 0 ==> r.name is None,
        pf.name@.len() > 0 ==> r.name is Some && r.name->0@ == pf.name@,
{
    let name = if pf.name.as_str().is_empty() {
        None
    } else {
        Some(pf.name.clone())
    };
    api_models::PortForward { name, local_port: pf.local_port, target_port: pf.target_port }
}

/// Renders an engine machine in the API's shape; the address becomes its
/// canonical dotted-quad text.
pub fn machine_to_api_machine(m: &Machine) -> (r: api_models::Machine)
    ensures
        r.name@ == m.name@,
        r.mac@ == m.mac@,
        r.ip@ == ipv4_string_spec(m.ip.bytes()),
        r.description is Some <==> m.description is Some,
        m.description is Some ==> r.description->0@ == m.description->0@,
        r.turn_off_port == m.turn_off_port,
        r.can_be_turned_off == m.can_be_turned_off,
        r.inactivity_period == m.inactivity_period,
        r.port_forwards@.len() == m.port_forwards@.len(),
        forall|i: int|
            0 <= i < m.port_forwards@.len() ==> {
                &&& (#[trigger] r.port_forwards@[i]).local_port == m.port_forwards@[i].local_port
                &&& r.port_forwards@[i].target_port == m.port_forwards@[i].target_port
                &&& (m.port_forwards@[i].name@.len() == 0 ==> r.port_forwards@[i].name is None)
                &&& (m.port_forwards@[i].name@.len() > 0 ==> r.port_forwards@[i].name is Some
                    && r.port_forwards@[i].name->0@ == m.port_forwards@[i].name@)
            },
{
    let mut pfs: Vec<api_models::PortForward> = Vec::new();
    let n = m.port_forwards.len();
    let mut i: usize = 0;
    while i < n
        invariant
            0 <= i <= n,
            n == m.port_forwards@.len(),
            pfs@.len() == i,
            forall|j: int|
                0 <= j < i ==> {
                    &&& (#[trigger] pfs@[j]).local_port == m.port_forwards@[j].local_port
                    &&& pfs@[j].target_port == m.port_forwards@[j].target_port
                    &&& (m.port_forwards@[j].name@.len() == 0 ==> pfs@[j].name is None)
                    &&& (m.port_forwards@[j].name@.len() > 0 ==> pfs@[j].name is Some
                        && pfs@[j].name->0@ == m.port_forwards@[j].name@)
                },
        decreases n - i,
    {
        let pf = internal_port_forward_to_api(&m.port_forwards[i]);
        pfs.push(pf);
        i += 1;
    }
    let description = match &m.description {
        Some(d) => Some(d.clone()),
        None => None,
    };
    api_models::Machine {
        name: m.name.clone(),
        mac: m.mac.clone(),
        ip: ipv4_to_string(&m.ip),
        description,
        turn_off_port: m.turn_off_port,
        can_be_turned_off: m.can_be_turned_off,
        inactivity_period: m.inactivity_period,
        port_forwards: pfs,
    }
}

/// Reads an API machine into the engine's form; `None` exactly when its
/// address is not a dotted quad.
pub fn machine_from_api(api: &api_models::Machine) -> (r: Option<Machine>)
    ensures
        r is Some <==> valid_ipv4_str(api.ip@),
        r is Some ==> {
            &&& r->0.mac@ == api.mac@
            &&& r->0.ip.bytes() == ipv4_of_str(api.ip@)
            &&& r->0.name@ == api.name@
            &&& (r->0.description is Some <==> api.description is Some)
            &&& (api.description is Some ==> r->0.description->0@ == api.description->0@)
            &&& r->0.turn_off_port == api.turn_off_port
            &&& r->0.can_be_turned_off == api.can_be_turned_off
            &&& r->0.inactivity_period == api.inactivity_period
            &&& r->0.port_forwards@.len() == api.port_forwards@.len()
            &&& forall|i: int|
                0 <= i < api.port_forwards@.len() ==> {
                    &&& (#[trigger] r->0.port_forwards@[i]).local_port
                        == api.port_forwards@[i].local_port
                    &&& r->0.port_forwards@[i].target_port == api.port_forwards@[i].target_port
                    &&& r->0.port_forwards@[i].name@ == (match api.port_forwards@[i].name {
                        Some(nm) => nm@,
                        None => Seq::<char>::empty(),
                    })
                }
        },
{
    let ip = match parse_ipv4(api.ip.as_str()) {
        Some(ip) => ip,
        None => {
            return None;
        }
    };
    let mut pfs: Vec<PortForward> = Vec::new();
    let n = api.port_forwards.len();
    let mut i: usize = 0;
    while i < n
        invariant
            0 <= i <= n,
            n == api.port_forwards@.len(),
            pfs@.len() == i,
            forall|j: int|
                0 <= j < i ==> {
                    &&& (#[trigger] pfs@[j]).local_port == api.port_forwards@[j].local_port
                    &&& pfs@[j].target_port == api.port_forwards@[j].target_port
                    &&& pfs@[j].name@ == (match api.port_forwards@[j].name {
                        Some(nm) => nm@,
                        None => Seq::<char>::empty(),
                    })
                },
        decreases n - i,
    {
        let pf = api_port_forward_to_internal(&api.port_forwards[i]);
        pfs.push(pf);
        i += 1;
    }
    let description = match &api.description {
        Some(d) => Some(d.clone()),
        None => None,
    };
    Some(
        Machine {
            mac: api.mac.clone(),
            ip,
            name: api.name.clone(),
            description,
            turn_off_port: api.turn_off_port,
            can_be_turned_off: api.can_be_turned_off,
            inactivity_period: api.inactivity_period,
            port_forwards: pfs,
        },
    )
}

} // verus!

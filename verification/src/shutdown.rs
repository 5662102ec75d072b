use vstd::prelude::*;
use crate::net::Ipv4Addr;
use crate::net::dec_chars;
use crate::net::ipv4_string_spec;
use crate::net::ipv4_to_string;
use crate::net::is_dec_digit;
use crate::net::u16_to_string;

verus! {

/// Timeout of the shutdown request's TCP connect.
pub const SHUTDOWN_CONNECT_TIMEOUT_MS: u64 = 5000;

/// The `host:port` text naming a shutdown agent.
pub open spec fn host_string_spec(ip: Seq<u8>, port: u16) -> Seq<char> {
    ipv4_string_spec(ip) + seq![':'] + dec_chars(port as int)
}

pub fn host_string(ip: &Ipv4Addr, port: u16) -> (s: String)
    ensures
        s@ == host_string_spec(ip.bytes(), port),
{
    let mut s = ipv4_to_string(ip);
    s.append(":");
    let p = u16_to_string(port);
    s.append(p.as_str());
    proof {
        reveal_strlit(":");
        assert(s@ =~= host_string_spec(ip.bytes(), port));
    }
    s
}

/// The minimal request the shutdown agent understands: a POST to
/// `/shutdown` with an empty body.
pub open spec fn shutdown_request_spec(host: Seq<char>) -> Seq<char> {
    "POST /shutdown HTTP/1.1\r\nHost: "@ + host + "\r\nContent-Length: 0\r\nConnection: close\r\n\r\n"@
}

/// Builds the shutdown request for the agent at `ip:port`.
pub fn build_shutdown_request(ip: &Ipv4Addr, port: u16) -> (s: String)
    ensures
        s@ == shutdown_request_spec(host_string_spec(ip.bytes(), port)),
{
    let mut s = String::from_str("POST /shutdown HTTP/1.1\r\nHost: ");
    let host = host_string(ip, port);
    s.append(host.as_str());
    s.append("\r\nContent-Length: 0\r\nConnection: close\r\n\r\n");
    proof {
        assert(s@ =~= shutdown_request_spec(host_string_spec(ip.bytes(), port)));
    }
    s
}

/// Whether an HTTP status line reports success.
pub open spec fn is_http_2xx(s: Seq<char>) -> bool {
    &&& s.len() >= 12
    &&& s.subrange(0, 5) == "HTTP/"@
    &&& is_dec_digit(s[5])
    &&& s[6] == '.'
    &&& is_dec_digit(s[7])
    &&& s[8] == ' '
    &&& s[9] == '2'
    &&& is_dec_digit(s[10])
    &&& is_dec_digit(s[11])
}

fn is_digit_char(c: char) -> (r: bool)
    ensures
        r == is_dec_digit(c),
{
    let v: u32 = c as u32;
    v >= '0' as u32 && v <= '9' as u32
}

/// Reads an HTTP status line; true exactly when it reports a 2xx status.
pub fn status_line_is_2xx(line: &str) -> (r: bool)
    ensures
        r == is_http_2xx(line@),
{
    proof {
        reveal_strlit("HTTP/");
    }
    let n = line.unicode_len();
    if n < 12 {
        return false;
    }
    let ok = line.get_char(0) == 'H' && line.get_char(1) == 'T' && line.get_char(2) == 'T'
        && line.get_char(3) == 'P' && line.get_char(4) == '/';
    if !ok {
        proof {
            if line@.subrange(0, 5) == "HTTP/"@ {
                assert(line@.subrange(0, 5)[0] == 'H');
                assert(line@.subrange(0, 5)[1] == 'T');
                assert(line@.subrange(0, 5)[2] == 'T');
                assert(line@.subrange(0, 5)[3] == 'P');
                assert(line@.subrange(0, 5)[4] == '/');
            }
        }
        return false;
    }
    proof {
        assert(line@.subrange(0, 5) =~= "HTTP/"@);
    }
    let r = is_digit_char(line.get_char(5)) && line.get_char(6) == '.' && is_digit_char(
        line.get_char(7),
    ) && line.get_char(8) == ' ' && line.get_char(9) == '2' && is_digit_char(line.get_char(10))
        && is_digit_char(line.get_char(11));
    r
}

} // verus!

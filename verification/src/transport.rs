//! The compute part of the transport: the bytes of the HTTP CONNECT request
//! a proxy tunnel opens with, and the check of the proxy's status line.
//! Opening sockets, TLS, and minting the authorization token stay outside
//! this crate.

use vstd::prelude::*;

verus! {

/// The decimal digits of a number, most significant first.
pub open spec fn dec_digits(n: int) -> Seq<u8>
    decreases n,
{
    if n < 10 {
        seq![(48 + n) as u8]
    } else {
        dec_digits(n / 10) + seq![(48 + n % 10) as u8]
    }
}

/// Append the decimal digits of `n`.
fn push_decimal(buf: &mut Vec<u8>, n: u16)
    ensures
        final(buf)@ == old(buf)@ + dec_digits(n as int),
    decreases n,
{
    if n >= 10 {
        push_decimal(buf, n / 10);
    }
    buf.push(48 + (n % 10) as u8);
    proof {
        if n < 10 {
            assert(buf@ =~= old(buf)@ + dec_digits(n as int));
        } else {
            assert(buf@ =~= old(buf)@ + (dec_digits(n as int / 10) + seq![
                (48 + n as int % 10) as u8,
            ]));
        }
    }
}

/// The bytes of `CONNECT `.
pub open spec fn connect_word() -> Seq<u8> {
    seq![67u8, 79, 78, 78, 69, 67, 84, 32]
}

/// The bytes of ` HTTP/1.1\r\nHost: `.
pub open spec fn http_version_host() -> Seq<u8> {
    seq![32u8, 72, 84, 84, 80, 47, 49, 46, 49, 13, 10, 72, 111, 115, 116, 58, 32]
}

/// The bytes of `\r\nProxy-Authorization: Bearer `.
pub open spec fn proxy_authorization() -> Seq<u8> {
    seq![
        13u8,
        10,
        80,
        114,
        111,
        120,
        121,
        45,
        65,
        117,
        116,
        104,
        111,
        114,
        105,
        122,
        97,
        116,
        105,
        111,
        110,
        58,
        32,
        66,
        101,
        97,
        114,
        101,
        114,
        32,
    ]
}

/// The bytes of the blank line that ends the request head.
pub open spec fn head_end() -> Seq<u8> {
    seq![13u8, 10, 13, 10]
}

/// `host:port`, with the port in decimal.
pub open spec fn host_port(host: Seq<u8>, port: u16) -> Seq<u8> {
    host + seq![58u8] + dec_digits(port as int)
}

/// The whole request a tunnel opens with: the CONNECT line naming the
/// broker, the host header, and the bearer token the proxy authorizes by.
pub open spec fn spec_connect_request(host: Seq<u8>, port: u16, token: Seq<u8>) -> Seq<u8> {
    connect_word() + host_port(host, port) + http_version_host() + host_port(host, port)
        + proxy_authorization() + token + head_end()
}

/// Append raw bytes.
fn append_bytes(buf: &mut Vec<u8>, b: &Vec<u8>)
    ensures
        final(buf)@ == old(buf)@ + b@,
{
    let mut i: usize = 0;
    while i < b.len()
        invariant
            i <= b@.len(),
            buf@ == old(buf)@ + b@.take(i as int),
        decreases b@.len() - i,
    {
        buf.push(b[i]);
        proof {
            assert(old(buf)@ + b@.take(i + 1) =~= (old(buf)@ + b@.take(i as int)).push(
                b@[i as int],
            ));
        }
        i = i + 1;
    }
    proof {
        assert(b@.take(b@.len() as int) =~= b@);
    }
}

/// Append `host:port`.
fn push_host_port(buf: &mut Vec<u8>, host: &Vec<u8>, port: u16)
    ensures
        final(buf)@ == old(buf)@ + host_port(host@, port),
{
    append_bytes(buf, host);
    buf.push(58);
    push_decimal(buf, port);
    proof {
        assert(buf@ =~= old(buf)@ + host_port(host@, port));
    }
}

/// Build the HTTP CONNECT request for tunneling to `host:port` through a
/// proxy, authorized by the given bearer token.
pub fn http_connect_request(host: &Vec<u8>, port: u16, token: &Vec<u8>) -> (r: Vec<u8>)
    ensures
        r@ == spec_connect_request(host@, port, token@),
{
    let mut buf: Vec<u8> = Vec::new();
    let word: Vec<u8> = vec![67u8, 79, 78, 78, 69, 67, 84, 32];
    append_bytes(&mut buf, &word);
    push_host_port(&mut buf, host, port);
    let version_host: Vec<u8> = vec![
        32u8,
        72,
        84,
        84,
        80,
        47,
        49,
        46,
        49,
        13,
        10,
        72,
        111,
        115,
        116,
        58,
        32,
    ];
    append_bytes(&mut buf, &version_host);
    push_host_port(&mut buf, host, port);
    let authorization: Vec<u8> = vec![
        13u8,
        10,
        80,
        114,
        111,
        120,
        121,
        45,
        65,
        117,
        116,
        104,
        111,
        114,
        105,
        122,
        97,
        116,
        105,
        111,
        110,
        58,
        32,
        66,
        101,
        97,
        114,
        101,
        114,
        32,
    ];
    append_bytes(&mut buf, &authorization);
    append_bytes(&mut buf, token);
    let tail: Vec<u8> = vec![13u8, 10, 13, 10];
    append_bytes(&mut buf, &tail);
    proof {
        assert(buf@ =~= spec_connect_request(host@, port, token@));
    }
    buf
}

/// A status line the tunnel accepts: `HTTP/1.1 ` followed by a three-digit
/// code whose first digit is 2.
pub open spec fn spec_status_accepted(line: Seq<u8>) -> bool {
    &&& line.len() >= 12
    &&& line.subrange(0, 9) == seq![72u8, 84, 84, 80, 47, 49, 46, 49, 32]
    &&& line[9] == 50
    &&& 48 <= line[10] <= 57
    &&& 48 <= line[11] <= 57
}

/// Whether the proxy's status line reports success: any status in the
/// two-hundreds is accepted.
pub fn proxy_status_accepted(line: &Vec<u8>) -> (r: bool)
    ensures
        r == spec_status_accepted(line@),
{
    if line.len() < 12 {
        return false;
    }
    let prefix: Vec<u8> = vec![72u8, 84, 84, 80, 47, 49, 46, 49, 32];
    let mut i: usize = 0;
    while i < 9
        invariant
            i <= 9,
            prefix@ =~= seq![72u8, 84, 84, 80, 47, 49, 46, 49, 32],
            line@.len() >= 12,
            forall|j: int| 0 <= j < i ==> line@[j] == prefix@[j],
        decreases 9 - i,
    {
        if line[i] != prefix[i] {
            proof {
                assert(line@.subrange(0, 9) != prefix@) by {
                    assert(line@.subrange(0, 9)[i as int] == line@[i as int]);
                }
            }
            return false;
        }
        i = i + 1;
    }
    proof {
        assert(line@.subrange(0, 9) =~= prefix@);
    }
    line[9] == 50 && 48 <= line[10] && line[10] <= 57 && 48 <= line[11] && line[11] <= 57
}

} // verus!

//! The text shown by the terminal dashboard: runtime information and the
//! communication hub's interfaces and sockets.  Drawing, styling and event
//! polling are done by the surrounding binary; this module computes the
//! lines of text it shows.

use crate::bytes::append_bytes;
use crate::bytes::copy_bytes;
use vstd::prelude::*;

verus! {

/// Direction of one connected socket.
#[derive(Clone, Copy, PartialEq, Eq, Structural, Debug)]
pub enum InterfaceDirection {
    In,
    Out,
    InOut,
}

/// What the dashboard shows of one connected socket.
pub struct SocketInfo {
    pub direction: InterfaceDirection,
    pub endpoint: Option<Vec<u8>>,
}

/// What the dashboard shows of one registered interface.
pub struct InterfaceInfo {
    pub channel: Vec<u8>,
    pub name: Option<Vec<u8>>,
    pub sockets: Vec<SocketInfo>,
}

/// The decimal digits of `n`.
pub open spec fn decimal_digits(n: int) -> Seq<u8>
    decreases n,
{
    if n < 0 {
        Seq::empty()
    } else if n < 10 {
        seq![(48 + n) as u8]
    } else {
        decimal_digits(n / 10) + seq![(48 + n % 10) as u8]
    }
}

/// Renders `n` in decimal.
pub fn usize_to_decimal(n: usize) -> (r: Vec<u8>)
    ensures
        r@ == decimal_digits(n as int),
    decreases n,
{
    if n < 10 {
        let mut out: Vec<u8> = Vec::new();
        out.push(48 + (n as u8));
        proof {
            assert(out@ =~= decimal_digits(n as int));
        }
        out
    } else {
        proof {
            assert(n / 10 < n) by (nonlinear_arith)
                requires
                    n >= 10,
            ;
        }
        let mut out = usize_to_decimal(n / 10);
        out.push(48 + ((n % 10) as u8));
        out
    }
}

/// The heading of an interface: `"{channel} ({name})"`, or the channel
/// alone when the interface has no name.
pub open spec fn interface_label_text(channel: Seq<u8>, name: Option<Seq<u8>>) -> Seq<u8> {
    match name {
        Option::Some(n) => channel + seq![32u8, 40u8] + n + seq![41u8],
        Option::None => channel,
    }
}

/// Renders the heading of an interface.
pub fn interface_label(i: &InterfaceInfo) -> (r: Vec<u8>)
    ensures
        r@ == interface_label_text(
            i.channel@,
            match i.name {
                Option::Some(n) => Option::Some(n@),
                Option::None => Option::None,
            },
        ),
{
    let mut out = copy_bytes(i.channel.as_slice());
    match &i.name {
        Option::Some(n) => {
            out.push(32);
            out.push(40);
            append_bytes(&mut out, n.as_slice());
            out.push(41);
            proof {
                assert(out@ =~= i.channel@ + seq![32u8, 40u8] + n@ + seq![41u8]);
            }
        },
        Option::None => {},
    }
    out
}

/// The arrow drawn for a socket's direction (UTF-8 box-drawing text):
/// `" ──▶ "` for incoming, `" ◀── "` for outgoing, `" ◀──▶ "` for both.
pub open spec fn direction_arrow_text(d: InterfaceDirection) -> Seq<u8> {
    match d {
        InterfaceDirection::In => seq![
            32u8, 0xE2u8, 0x94u8, 0x80u8, 0xE2u8, 0x94u8, 0x80u8, 0xE2u8, 0x96u8, 0xB6u8, 32u8,
        ],
        InterfaceDirection::Out => seq![
            32u8, 0xE2u8, 0x97u8, 0x80u8, 0xE2u8, 0x94u8, 0x80u8, 0xE2u8, 0x94u8, 0x80u8, 32u8,
        ],
        InterfaceDirection::InOut => seq![
            32u8, 0xE2u8, 0x97u8, 0x80u8, 0xE2u8, 0x94u8, 0x80u8, 0xE2u8, 0x94u8, 0x80u8, 0xE2u8,
            0x96u8, 0xB6u8, 32u8,
        ],
    }
}

/// Renders the arrow of a socket's direction.
pub fn direction_arrow(d: InterfaceDirection) -> (r: Vec<u8>)
    ensures
        r@ == direction_arrow_text(d),
{
    let mut out: Vec<u8> = Vec::new();
    out.push(32);
    match d {
        InterfaceDirection::In => {
            out.push(0xE2);
            out.push(0x94);
            out.push(0x80);
            out.push(0xE2);
            out.push(0x94);
            out.push(0x80);
            out.push(0xE2);
            out.push(0x96);
            out.push(0xB6);
        },
        InterfaceDirection::Out => {
            out.push(0xE2);
            out.push(0x97);
            out.push(0x80);
            out.push(0xE2);
            out.push(0x94);
            out.push(0x80);
            out.push(0xE2);
            out.push(0x94);
            out.push(0x80);
        },
        InterfaceDirection::InOut => {
            out.push(0xE2);
            out.push(0x97);
            out.push(0x80);
            out.push(0xE2);
            out.push(0x94);
            out.push(0x80);
            out.push(0xE2);
            out.push(0x94);
            out.push(0x80);
            out.push(0xE2);
            out.push(0x96);
            out.push(0xB6);
        },
    }
    out.push(32);
    proof {
        assert(out@ =~= direction_arrow_text(d));
    }
    out
}

/// The bytes of `unknown`, shown for a socket without an endpoint.
pub open spec fn unknown_word() -> Seq<u8> {
    seq![117u8, 110u8, 107u8, 110u8, 111u8, 119u8, 110u8]
}

/// Renders the endpoint of a socket, or `"unknown"`.
pub fn endpoint_label(s: &SocketInfo) -> (r: Vec<u8>)
    ensures
        r@ == match s.endpoint {
            Option::Some(e) => e@,
            Option::None => unknown_word(),
        },
{
    match &s.endpoint {
        Option::Some(e) => copy_bytes(e.as_slice()),
        Option::None => {
            let mut out: Vec<u8> = Vec::new();
            out.push(117);
            out.push(110);
            out.push(107);
            out.push(110);
            out.push(111);
            out.push(119);
            out.push(110);
            proof {
                assert(out@ =~= unknown_word());
            }
            out
        },
    }
}

/// The bytes of `Registered Interfaces: `.
pub open spec fn interfaces_counter_label() -> Seq<u8> {
    seq![
        82u8, 101u8, 103u8, 105u8, 115u8, 116u8, 101u8, 114u8, 101u8, 100u8, 32u8, 73u8, 110u8,
        116u8, 101u8, 114u8, 102u8, 97u8, 99u8, 101u8, 115u8, 58u8, 32u8,
    ]
}

/// The bytes of `Connected Sockets: `.
pub open spec fn sockets_counter_label() -> Seq<u8> {
    seq![
        67u8, 111u8, 110u8, 110u8, 101u8, 99u8, 116u8, 101u8, 100u8, 32u8, 83u8, 111u8, 99u8,
        107u8, 101u8, 116u8, 115u8, 58u8, 32u8,
    ]
}

/// Renders the hub's two counter lines: the number of registered interfaces
/// and of connected sockets.
pub fn comhub_counter_lines(interface_count: usize, socket_count: usize) -> (r: Vec<Vec<u8>>)
    ensures
        r@.len() == 2,
        r@[0]@ == interfaces_counter_label() + decimal_digits(interface_count as int),
        r@[1]@ == sockets_counter_label() + decimal_digits(socket_count as int),
{
    let mut first: Vec<u8> = Vec::new();
    first.push(82);
    first.push(101);
    first.push(103);
    first.push(105);
    first.push(115);
    first.push(116);
    first.push(101);
    first.push(114);
    first.push(101);
    first.push(100);
    first.push(32);
    first.push(73);
    first.push(110);
    first.push(116);
    first.push(101);
    first.push(114);
    first.push(102);
    first.push(97);
    first.push(99);
    first.push(101);
    first.push(115);
    first.push(58);
    first.push(32);
    let ghost label1 = first@;
    proof {
        assert(label1 =~= interfaces_counter_label());
    }
    let count1 = usize_to_decimal(interface_count);
    append_bytes(&mut first, count1.as_slice());
    let mut second: Vec<u8> = Vec::new();
    second.push(67);
    second.push(111);
    second.push(110);
    second.push(110);
    second.push(101);
    second.push(99);
    second.push(116);
    second.push(101);
    second.push(100);
    second.push(32);
    second.push(83);
    second.push(111);
    second.push(99);
    second.push(107);
    second.push(101);
    second.push(116);
    second.push(115);
    second.push(58);
    second.push(32);
    let ghost label2 = second@;
    proof {
        assert(label2 =~= sockets_counter_label());
    }
    let count2 = usize_to_decimal(socket_count);
    append_bytes(&mut second, count2.as_slice());
    let mut r: Vec<Vec<u8>> = Vec::new();
    r.push(first);
    r.push(second);
    r
}

} // verus!

verus! {

/// The bytes of `Endpoint: `.
pub open spec fn endpoint_line_label() -> Seq<u8> {
    seq![69u8, 110u8, 100u8, 112u8, 111u8, 105u8, 110u8, 116u8, 58u8, 32u8]
}

/// The bytes of `Version: `.
pub open spec fn version_line_label() -> Seq<u8> {
    seq![86u8, 101u8, 114u8, 115u8, 105u8, 111u8, 110u8, 58u8, 32u8]
}

/// The bytes of `Allocated pointers: `.
pub open spec fn pointers_line_label() -> Seq<u8> {
    seq![
        65u8, 108u8, 108u8, 111u8, 99u8, 97u8, 116u8, 101u8, 100u8, 32u8, 112u8, 111u8, 105u8,
        110u8, 116u8, 101u8, 114u8, 115u8, 58u8, 32u8,
    ]
}

/// Renders the runtime-information lines of the dashboard: the endpoint,
/// the version, and the number of allocated pointers.
pub fn metadata_lines(endpoint: &[u8], version: &[u8], pointer_count: usize) -> (r: Vec<Vec<u8>>)
    ensures
        r@.len() == 3,
        r@[0]@ == endpoint_line_label() + endpoint@,
        r@[1]@ == version_line_label() + version@,
        r@[2]@ == pointers_line_label() + decimal_digits(pointer_count as int),
{
    let mut first: Vec<u8> = Vec::new();
    first.push(69);
    first.push(110);
    first.push(100);
    first.push(112);
    first.push(111);
    first.push(105);
    first.push(110);
    first.push(116);
    first.push(58);
    first.push(32);
    let ghost label1 = first@;
    proof {
        assert(label1 =~= endpoint_line_label());
    }
    append_bytes(&mut first, endpoint);
    let mut second: Vec<u8> = Vec::new();
    second.push(86);
    second.push(101);
    second.push(114);
    second.push(115);
    second.push(105);
    second.push(111);
    second.push(110);
    second.push(58);
    second.push(32);
    let ghost label2 = second@;
    proof {
        assert(label2 =~= version_line_label());
    }
    append_bytes(&mut second, version);
    let mut third: Vec<u8> = Vec::new();
    third.push(65);
    third.push(108);
    third.push(108);
    third.push(111);
    third.push(99);
    third.push(97);
    third.push(116);
    third.push(101);
    third.push(100);
    third.push(32);
    third.push(112);
    third.push(111);
    third.push(105);
    third.push(110);
    third.push(116);
    third.push(101);
    third.push(114);
    third.push(115);
    third.push(58);
    third.push(32);
    let ghost label3 = third@;
    proof {
        assert(label3 =~= pointers_line_label());
    }
    let count = usize_to_decimal(pointer_count);
    append_bytes(&mut third, count.as_slice());
    let mut r: Vec<Vec<u8>> = Vec::new();
    r.push(first);
    r.push(second);
    r.push(third);
    r
}

} // verus!

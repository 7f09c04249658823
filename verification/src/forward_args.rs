//! Forward definitions as they are written on the command line.
use vstd::prelude::*;

use crate::controller::Proto;
use crate::model::opt_view;
use crate::number::{decimal, decimal_i64, i32_of, parse_i32};
use crate::text;
use crate::text::{
    after_last, first_position, has_prefix, texts, without_leading,
};

verus! {

/// The protocol that a forward names; `tcp` where it names none.
pub open spec fn proto_of(f: Seq<char>) -> Seq<char> {
    if has_prefix(f, "tcp://"@) {
        "tcp"@
    } else if has_prefix(f, "udp://"@) {
        "udp"@
    } else {
        "tcp"@
    }
}

/// What a forward says behind its protocol.
pub open spec fn address_of(f: Seq<char>) -> Seq<char> {
    if has_prefix(f, "tcp://"@) {
        f.skip("tcp://"@.len() as int)
    } else if has_prefix(f, "udp://"@) {
        f.skip("udp://"@.len() as int)
    } else {
        f
    }
}

/// The number behind the last colon of an address, or -1.
pub open spec fn last_port(addr: Seq<char>) -> i32 {
    match i32_of(after_last(addr, ':')) {
        Some(port) => port,
        None => -1i32,
    }
}

/// The port of an address: the address itself where it is a number, else the
/// number behind its last colon, else -1.
pub open spec fn port_of(addr: Seq<char>) -> i32 {
    match i32_of(addr) {
        Some(port) => port,
        None => last_port(addr),
    }
}

/// A protocol and a port.
pub open spec fn key_of(proto: Seq<char>, port: int) -> Seq<char> {
    proto + ":"@ + decimal(port)
}

fn key_text(proto: &str, port: i32) -> (r: String)
    ensures
        r@ == key_of(proto@, port as int),
{
    let number = decimal_i64(port as i64);
    text::cat3(proto, ":", number.as_str())
}

/// Splits a forward into protocol, address and port.
pub fn parse_forward(f: &str) -> (r: (&str, &str, i32))
    ensures
        r.0@ == proto_of(f@),
        r.1@ == address_of(f@),
        r.2 == port_of(address_of(f@)),
{
    let (proto, addr) = match text::strip_prefix(f, "tcp://") {
        Some(rest) => ("tcp", rest),
        None => match text::strip_prefix(f, "udp://") {
            Some(rest) => ("udp", rest),
            None => ("tcp", f),
        },
    };
    let port: i32 = match parse_i32(addr) {
        Some(p) => p,
        None => match parse_i32(text::last_piece(addr, ':')) {
            Some(p) => p,
            None => -1,
        },
    };
    (proto, addr, port)
}

/// The port on which a connecting side listens.
pub open spec fn listen_port_of(f: Seq<char>) -> i32 {
    let addr = without_leading(address_of(f), ':');
    if addr.contains(':') {
        match i32_of(addr.take(first_position(addr, ':'))) {
            Some(port) => port,
            None => port_of(address_of(f)),
        }
    } else {
        port_of(address_of(f))
    }
}

/// The port on the serving side that a connecting side asks for.
pub open spec fn remote_port_of(f: Seq<char>) -> i32 {
    let addr = without_leading(address_of(f), ':');
    if addr.contains(':') {
        match i32_of(addr.skip(first_position(addr, ':') + 1)) {
            Some(port) => port,
            None => listen_port_of(f),
        }
    } else {
        port_of(address_of(f))
    }
}

/// Splits a forward of the connecting side into protocol, listening port and
/// target.
pub fn parse_connect_forward(f: &str) -> (r: (&str, i32, String))
    ensures
        r.0@ == proto_of(f@),
        r.1 == listen_port_of(f@),
        r.2@ == key_of(proto_of(f@), remote_port_of(f@) as int),
{
    let (proto, addr, fallback_port) = parse_forward(f);
    let addr = text::trim_leading(addr, ':');
    let (listen_port, remote_port): (i32, i32) = match text::split_once(addr, ':') {
        Some((listen, remote)) => {
            let listen_port: i32 = match parse_i32(listen) {
                Some(p) => p,
                None => fallback_port,
            };
            let remote_port: i32 = match parse_i32(remote) {
                Some(p) => p,
                None => listen_port,
            };
            (listen_port, remote_port)
        },
        None => (fallback_port, fallback_port),
    };
    let target = key_text(proto, remote_port);
    (proto, listen_port, target)
}

/// Whether an argument is a forward and no room name.
pub open spec fn is_forward(arg: Seq<char>) -> bool {
    arg.contains(':') || has_prefix(arg, "tcp://"@) || has_prefix(arg, "udp://"@)
}

/// Copies the arguments from a position on.
fn args_from(args: &[String], start: usize) -> (r: Vec<String>)
    requires
        start <= args@.len(),
    ensures
        texts(r@) == texts(args@).skip(start as int),
{
    let mut out: Vec<String> = Vec::new();
    let mut i: usize = start;
    while i < args.len()
        invariant
            start <= i <= args@.len(),
            texts(out@) == texts(args@).subrange(start as int, i as int),
        decreases args@.len() - i,
    {
        let ghost before = out@;
        out.push(text::copy(args[i].as_str()));
        assert(texts(out@) =~= texts(before).push(args@[i as int]@));
        assert(texts(args@)[i as int] == args@[i as int]@);
        i = i + 1;
        assert(texts(out@) =~= texts(args@).subrange(start as int, i as int));
    }
    assert(texts(out@) =~= texts(args@).skip(start as int));
    out
}

/// The room that the arguments of `serve` name, if they name one.
pub open spec fn room_in(args: Seq<Seq<char>>) -> Option<Seq<char>> {
    if args.len() > 0 && !is_forward(args[0]) {
        Some(args[0])
    } else {
        None
    }
}

/// The forwards among the arguments of `serve`.
pub open spec fn forwards_in(args: Seq<Seq<char>>) -> Seq<Seq<char>> {
    if room_in(args) is Some {
        args.skip(1)
    } else {
        args
    }
}

/// Splits the arguments of `serve` into an optional room and the forwards.
pub fn split_serve_args(args: &[String]) -> (r: (Option<String>, Vec<String>))
    ensures
        opt_view(r.0) == room_in(texts(args@)),
        texts(r.1@) == forwards_in(texts(args@)),
{
    if args.len() == 0 {
        let none: Vec<String> = Vec::new();
        assert(texts(none@) =~= texts(args@));
        return (None, none);
    }
    assert(texts(args@)[0] == args@[0]@);
    let first = args[0].as_str();
    let forward = text::contains_char(first, ':') || text::strip_prefix(first, "tcp://").is_some()
        || text::strip_prefix(first, "udp://").is_some();
    if forward {
        let all = args_from(args, 0);
        assert(texts(all@) =~= texts(args@));
        (None, all)
    } else {
        (Some(text::copy(first)), args_from(args, 1))
    }
}

/// The key under which a forward is announced.
pub fn forward_key(proto: &str, addr: &str) -> (r: String)
    ensures
        r@ == key_of(proto@, last_port(addr@) as int),
{
    let port: i32 = match parse_i32(text::last_piece(addr, ':')) {
        Some(p) => p,
        None => -1,
    };
    key_text(proto, port)
}

/// A target that only one node serves.
pub open spec fn scoped_target(target: Seq<char>, node: Seq<char>) -> Seq<char> {
    target + "@"@ + node
}

/// Ties a target to a node.
pub fn node_scoped_target(target: &str, node: &str) -> (r: String)
    ensures
        r@ == scoped_target(target@, node@),
{
    text::cat3(target, "@", node)
}

/// Where a text is put together from two parts around the first `c`.
proof fn lemma_first_position_of(a: Seq<char>, c: char, b: Seq<char>)
    requires
        !a.contains(c),
    ensures
        first_position(a + seq![c] + b, c) == a.len(),
        (a + seq![c] + b).contains(c),
    decreases a.len(),
{
    let s = a + seq![c] + b;
    assert(s[a.len() as int] == c);
    if a.len() > 0 {
        assert(a.contains(a[0]));
        let rest = a.drop_first();
        assert(!rest.contains(c)) by {
            if rest.contains(c) {
                let i = choose|i: int| 0 <= i < rest.len() && rest[i] == c;
                assert(a[i + 1] == c);
            }
        }
        lemma_first_position_of(rest, c, b);
        assert(s.drop_first() =~= rest + seq![c] + b);
    }
}

/// Where a text is put together from two parts around the last `c`.
proof fn lemma_after_last_of(a: Seq<char>, c: char, b: Seq<char>)
    requires
        !b.contains(c),
    ensures
        after_last(a + seq![c] + b, c) == b,
    decreases b.len(),
{
    let s = a + seq![c] + b;
    text::lemma_last_position(s, c);
    let p = text::last_position(s, c);
    assert(s[a.len() as int] == c);
    if p > a.len() {
        assert(b[p - a.len() - 1] == c);
    }
    assert(s.skip(p + 1) =~= b);
}

/// A number in decimal holds no colon and is no forward by itself.
proof fn lemma_decimal_plain(n: int)
    ensures
        decimal(n).len() > 0,
        !decimal(n).contains(':'),
        decimal(n)[0] != 't',
        decimal(n)[0] != 'u',
        decimal(n)[0] != ':',
{
    let d = decimal(n);
    crate::number::lemma_decimal_chars(n);
    assert(crate::number::is_digit(d[0]) || d[0] == '-');
    if d.contains(':') {
        let i = choose|i: int| 0 <= i < d.len() && d[i] == ':';
        assert(crate::number::is_digit(d[i]) || d[i] == '-');
    }
}

proof fn lemma_no_scheme(f: Seq<char>)
    requires
        f.len() > 0,
        f[0] != 't',
        f[0] != 'u',
    ensures
        proto_of(f) == "tcp"@,
        address_of(f) == f,
        !names_scheme(f),
{
    reveal_strlit("tcp://");
    reveal_strlit("udp://");
    if has_prefix(f, "tcp://"@) {
        assert(f.take("tcp://"@.len() as int)[0] == f[0]);
    }
    if has_prefix(f, "udp://"@) {
        assert(f.take("udp://"@.len() as int)[0] == f[0]);
    }
}

/// A forward with the protocol written before it, where one is.
pub open spec fn with_scheme(proto: Option<Proto>, rest: Seq<char>) -> Seq<char> {
    match proto {
        Some(p) => p.name() + "://"@ + rest,
        None => rest,
    }
}

/// The protocol that is meant where one is written, or none.
pub open spec fn meant(proto: Option<Proto>) -> Seq<char> {
    match proto {
        Some(p) => p.name(),
        None => "tcp"@,
    }
}

/// Whether a text begins as if a protocol were written before it.
pub open spec fn names_scheme(s: Seq<char>) -> bool {
    has_prefix(s, "tcp://"@) || has_prefix(s, "udp://"@)
}

/// What is written before a forward is its protocol, and what follows its
/// address.
proof fn lemma_scheme(proto: Option<Proto>, rest: Seq<char>)
    requires
        proto is None ==> !names_scheme(rest),
    ensures
        proto_of(with_scheme(proto, rest)) == meant(proto),
        address_of(with_scheme(proto, rest)) == rest,
{
    reveal_strlit("tcp");
    reveal_strlit("udp");
    reveal_strlit("://");
    reveal_strlit("tcp://");
    reveal_strlit("udp://");
    let f = with_scheme(proto, rest);
    match proto {
        Some(Proto::Tcp) => {
            assert("tcp"@ + "://"@ =~= "tcp://"@);
            assert(f.take("tcp://"@.len() as int) =~= "tcp://"@);
            assert(f.skip("tcp://"@.len() as int) =~= rest);
        },
        Some(Proto::Udp) => {
            assert("udp"@ + "://"@ =~= "udp://"@);
            assert(f.take("udp://"@.len() as int) =~= "udp://"@);
            assert(f.skip("udp://"@.len() as int) =~= rest);
            if has_prefix(f, "tcp://"@) {
                assert(f.take("tcp://"@.len() as int)[0] == f[0]);
            }
        },
        None => {},
    }
}

/// The ports of a forward do not depend on the protocol before it.
proof fn lemma_scheme_ports(proto: Option<Proto>, rest: Seq<char>)
    requires
        !names_scheme(rest),
    ensures
        listen_port_of(with_scheme(proto, rest)) == listen_port_of(rest),
        remote_port_of(with_scheme(proto, rest)) == remote_port_of(rest),
        proto_of(with_scheme(proto, rest)) == meant(proto),
{
    lemma_scheme(proto, rest);
    lemma_scheme(None, rest);
}

proof fn lemma_maps_ports(listen: i32, remote: i32)
    ensures
        ({
            let f = decimal(listen as int) + ":"@ + decimal(remote as int);
            &&& listen_port_of(f) == listen
            &&& remote_port_of(f) == remote
            &&& !names_scheme(f)
        }),
{
    reveal_strlit(":");
    let a = decimal(listen as int);
    let b = decimal(remote as int);
    let f = a + ":"@ + b;
    assert(":"@ =~= seq![':']);
    lemma_decimal_plain(listen as int);
    assert(f[0] == a[0]);
    lemma_no_scheme(f);
    assert(without_leading(f, ':') == f);
    lemma_first_position_of(a, ':', b);
    assert(f.take(a.len() as int) =~= a);
    assert(f.skip(a.len() as int + 1) =~= b);
    crate::number::law_decimal_round_trip(listen);
    crate::number::law_decimal_round_trip(remote);
}

/// `listen:remote`, with a protocol before it or not, listens on the first port
/// and asks for the second; the target names the protocol and the second port.
pub proof fn law_connect_maps_ports(proto: Option<Proto>, listen: i32, remote: i32)
    ensures
        ({
            let f = with_scheme(proto, decimal(listen as int) + ":"@ + decimal(remote as int));
            &&& listen_port_of(f) == listen
            &&& remote_port_of(f) == remote
            &&& proto_of(f) == meant(proto)
            &&& key_of(proto_of(f), remote_port_of(f) as int) == meant(proto) + ":"@ + decimal(
                remote as int,
            )
        }),
{
    lemma_maps_ports(listen, remote);
    lemma_scheme_ports(proto, decimal(listen as int) + ":"@ + decimal(remote as int));
}

/// A single port, with a protocol or a colon before it or not, listens on that
/// port and asks for the same one.
pub proof fn law_connect_single_port(proto: Option<Proto>, port: i32)
    ensures
        ({
            let plain = with_scheme(proto, decimal(port as int));
            let colon = with_scheme(proto, ":"@ + decimal(port as int));
            &&& listen_port_of(plain) == port && remote_port_of(plain) == port
            &&& listen_port_of(colon) == port && remote_port_of(colon) == port
            &&& proto_of(plain) == meant(proto) && proto_of(colon) == meant(proto)
        }),
{
    reveal_strlit(":");
    let d = decimal(port as int);
    assert(":"@ =~= seq![':']);
    lemma_decimal_plain(port as int);
    crate::number::law_decimal_round_trip(port);
    lemma_no_scheme(d);
    assert(without_leading(d, ':') == d);
    let f = ":"@ + d;
    lemma_no_scheme(f);
    assert(f.drop_first() =~= d);
    assert(without_leading(f, ':') == d);
    assert(Seq::<char>::empty() + seq![':'] + d =~= f);
    lemma_after_last_of(Seq::<char>::empty(), ':', d);
    lemma_colon_is_no_number(d);
    lemma_scheme_ports(proto, d);
    lemma_scheme_ports(proto, f);
}

proof fn lemma_colon_is_no_number(d: Seq<char>)
    ensures
        i32_of(seq![':'] + d) is None,
{
    let f = seq![':'] + d;
    assert(f[0] == ':');
    assert(crate::number::unsigned_part(f) == f);
    assert(!crate::number::is_digit(f[0]));
}

/// The key that a serving side announces for a host and a port is the target
/// that a connecting side derives from that port, for the same protocol on both
/// sides.
pub proof fn law_sides_agree(proto: Option<Proto>, host: Seq<char>, port: i32, listen: i32)
    requires
        proto is None ==> !names_scheme(host + ":"@ + decimal(port as int)),
    ensures
        ({
            let serve = with_scheme(proto, host + ":"@ + decimal(port as int));
            let connect = with_scheme(proto, decimal(listen as int) + ":"@ + decimal(port as int));
            key_of(proto_of(serve), last_port(address_of(serve)) as int) == key_of(
                proto_of(connect),
                remote_port_of(connect) as int,
            )
        }),
{
    reveal_strlit(":");
    assert(":"@ =~= seq![':']);
    lemma_scheme(proto, host + ":"@ + decimal(port as int));
    lemma_decimal_plain(port as int);
    lemma_after_last_of(host, ':', decimal(port as int));
    crate::number::law_decimal_round_trip(port);
    law_connect_maps_ports(proto, listen, port);
}

/// The protocol that is written before an address is the one that is meant, tcp where none
/// is written, and what follows is the address; its port is the number behind its last
/// colon, or the address itself where it is a number.
pub proof fn law_forward_is_taken_apart(proto: Option<Proto>, host: Seq<char>, port: i32)
    ensures
        proto is Some || !names_scheme(host) ==> {
            &&& proto_of(with_scheme(proto, host)) == meant(proto)
            &&& address_of(with_scheme(proto, host)) == host
        },
        last_port(host + ":"@ + decimal(port as int)) == port,
        last_port(decimal(port as int)) == port,
        port_of(decimal(port as int)) == port,
        i32_of(after_last(host, ':')) is None ==> last_port(host) == -1,
        i32_of(host) is None ==> port_of(host) == last_port(host),
        meant(None) == "tcp"@ && meant(Some(Proto::Tcp)) == "tcp"@ && meant(Some(Proto::Udp))
            == "udp"@,
        with_scheme(Some(Proto::Udp), host) == "udp://"@ + host,
        with_scheme(Some(Proto::Tcp), host) == "tcp://"@ + host,
{
    reveal_strlit(":");
    reveal_strlit("tcp");
    reveal_strlit("udp");
    reveal_strlit("://");
    reveal_strlit("tcp://");
    reveal_strlit("udp://");
    assert(":"@ =~= seq![':']);
    assert("tcp"@ + "://"@ =~= "tcp://"@);
    assert("udp"@ + "://"@ =~= "udp://"@);
    if proto is Some || !names_scheme(host) {
        lemma_scheme(proto, host);
    }
    lemma_decimal_plain(port as int);
    lemma_after_last_of(host, ':', decimal(port as int));
    crate::number::law_decimal_round_trip(port);
    let d = decimal(port as int);
    text::lemma_last_position(d, ':');
    if text::last_position(d, ':') >= 0 {
        assert(d[text::last_position(d, ':')] == ':');
    }
    assert(d.skip(0) =~= d);
}

/// A key names its protocol and its port: two keys are equal only if both are.
pub proof fn law_keys_name_protocol_and_port(a: Proto, b: Proto, m: i32, n: i32)
    ensures
        key_of(a.name(), m as int) == key_of(b.name(), n as int) <==> a == b && m == n,
        key_of(a.name(), m as int) == a.name() + ":"@ + decimal(m as int),
{
    reveal_strlit("tcp");
    reveal_strlit("udp");
    reveal_strlit(":");
    let x = key_of(a.name(), m as int);
    let y = key_of(b.name(), n as int);
    if x == y {
        assert(x[0] == a.name()[0] && y[0] == b.name()[0]);
        assert(x.skip(4) =~= decimal(m as int));
        assert(y.skip(4) =~= decimal(n as int));
        crate::number::law_decimal_injective(m as int, n as int);
    }
}

/// A target that is tied to a node is the target, a sign and the node; different nodes give
/// different ones.
pub proof fn law_scoped_target_names_its_node(target: Seq<char>, a: Seq<char>, b: Seq<char>)
    ensures
        scoped_target(target, a) == scoped_target(target, b) <==> a == b,
        scoped_target(target, a).take(target.len() as int) == target,
        scoped_target(target, a)[target.len() as int] == '@',
        scoped_target(target, a).skip(target.len() as int + 1) == a,
{
    reveal_strlit("@");
    assert(scoped_target(target, a).take(target.len() as int) =~= target);
    assert(scoped_target(target, a).skip(target.len() as int + 1) =~= a);
    assert(scoped_target(target, b).skip(target.len() as int + 1) =~= b);
}

/// The first argument of `serve` is a room unless it holds a colon; all others are forwards,
/// in their order, none of them left out.
pub proof fn law_room_comes_first(first: Seq<char>, rest: Seq<Seq<char>>)
    ensures
        is_forward(first) <==> first.contains(':'),
        first.contains(':') ==> room_in(seq![first] + rest) is None && forwards_in(
            seq![first] + rest,
        ) == seq![first] + rest,
        !first.contains(':') ==> room_in(seq![first] + rest) == Some(first) && forwards_in(
            seq![first] + rest,
        ) == rest,
        room_in(Seq::empty()) is None,
        forwards_in(Seq::empty()).len() == 0,
{
    reveal_strlit("tcp://");
    reveal_strlit("udp://");
    if has_prefix(first, "tcp://"@) {
        assert(first.take("tcp://"@.len() as int)[3] == ':');
        assert(first[3] == ':');
    }
    if has_prefix(first, "udp://"@) {
        assert(first.take("udp://"@.len() as int)[3] == ':');
        assert(first[3] == ':');
    }
    assert((seq![first] + rest).skip(1) =~= rest);
}

} // verus!

use p2p_tunnel::forward_args::{
    forward_key, node_scoped_target, parse_connect_forward, parse_forward, split_serve_args,
};

fn strings(items: &[&str]) -> Vec<String> {
    items.iter().map(|s| s.to_string()).collect()
}

#[test]
fn connect_forward_defaults_remote_port_to_listen_port() {
    assert_eq!(
        parse_connect_forward(":8080"),
        ("tcp", 8080, "tcp:8080".to_string())
    );
    assert_eq!(
        parse_connect_forward("udp://9000"),
        ("udp", 9000, "udp:9000".to_string())
    );
}

#[test]
fn connect_forward_maps_listen_port_to_remote_target() {
    assert_eq!(
        parse_connect_forward("15432:5432"),
        ("tcp", 15432, "tcp:5432".to_string())
    );
    assert_eq!(
        parse_connect_forward("udp://19000:9000"),
        ("udp", 19000, "udp:9000".to_string())
    );
}

#[test]
fn serve_args_keep_all_forwards_when_room_is_present() {
    let (room, forwards) =
        split_serve_args(&strings(&["my-room", ":80", "tcp://127.0.0.1:5432"]));

    assert_eq!(room, Some("my-room".to_string()));
    assert_eq!(forwards, strings(&[":80", "tcp://127.0.0.1:5432"]));
}

#[test]
fn serve_args_treat_leading_forward_as_generated_room_mode() {
    let (room, forwards) = split_serve_args(&strings(&[":80", "udp://127.0.0.1:9000"]));

    assert_eq!(room, None);
    assert_eq!(forwards, strings(&[":80", "udp://127.0.0.1:9000"]));
}

#[test]
fn forward_key_uses_protocol_and_port() {
    assert_eq!(forward_key("tcp", "127.0.0.1:80"), "tcp:80");
    assert_eq!(forward_key("udp", ":9000"), "udp:9000");
}

#[test]
fn unreadable_ports_become_minus_one() {
    assert_eq!(forward_key("tcp", "host:http"), "tcp:-1");
    assert_eq!(
        parse_connect_forward("http"),
        ("tcp", -1, "tcp:-1".to_string())
    );
    assert_eq!(parse_forward("example.org"), ("tcp", "example.org", -1));
}

#[test]
fn forward_is_split_into_protocol_address_and_port() {
    assert_eq!(
        parse_forward("udp://127.0.0.1:53"),
        ("udp", "127.0.0.1:53", 53)
    );
    assert_eq!(
        parse_forward("tcp://127.0.0.1:80"),
        ("tcp", "127.0.0.1:80", 80)
    );
    assert_eq!(parse_forward(":80"), ("tcp", ":80", 80));
}

#[test]
fn serve_without_arguments_has_neither_room_nor_forwards() {
    let (room, forwards) = split_serve_args(&[]);
    assert_eq!(room, None);
    assert!(forwards.is_empty());
}

#[test]
fn both_sides_of_a_forward_agree_on_its_key() {
    let (_, _, target) = parse_connect_forward("15432:5432");
    assert_eq!(target, forward_key("tcp", "127.0.0.1:5432"));
}

#[test]
fn scoped_targets_name_their_node() {
    let on_a = node_scoped_target("tcp:127.0.0.1:22", "node-a");
    let on_b = node_scoped_target("tcp:127.0.0.1:22", "node-b");
    assert_eq!(on_a, "tcp:127.0.0.1:22@node-a");
    assert_ne!(on_a, on_b);
}

use p2p_tunnel::identity::{
    choose_config_dir, generate_room_id, new_node_id, node_id_file, room_id_of, stored_node_id,
};

/// The id that is used with a file, and the text of the file afterwards.
fn load_or_create(file: Option<&str>) -> (String, String) {
    if let Some(text) = file {
        if let Some(id) = stored_node_id(text) {
            return (id, text.to_string());
        }
    }
    let id = new_node_id();
    let text = node_id_file(&id);
    (id, text)
}

#[test]
fn node_id_is_persisted_and_reused() {
    let (first, file) = load_or_create(None);
    let (second, file) = load_or_create(Some(&file));

    assert_eq!(first, second);
    assert_eq!(file.trim(), first);
}

#[test]
fn empty_node_id_file_is_replaced() {
    let (id, file) = load_or_create(Some("\n"));

    assert!(!id.is_empty());
    assert_eq!(file.trim(), id);
}

#[test]
fn node_ids_are_uuids() {
    let a = new_node_id();
    let b = new_node_id();
    assert_ne!(a, b);
    assert_eq!(uuid::Uuid::parse_str(&a).unwrap().to_string(), a);
    assert_eq!(node_id_file("abc"), "abc\n");
    assert_eq!(stored_node_id("  abc\r\n"), Some("abc".to_string()));
}

#[test]
fn room_ids_are_hexadecimal() {
    assert_eq!(room_id_of([0, 1, 0xab, 0xff]), "0001abff");
    let id = generate_room_id();
    assert_eq!(id.len(), 8);
    assert!(id
        .chars()
        .all(|c| c.is_ascii_digit() || ('a'..='f').contains(&c)));
    let ids: Vec<String> = (0..8).map(|_| generate_room_id()).collect();
    assert!(ids.iter().any(|i| *i != ids[0]));
}

#[test]
fn config_dir_is_chosen_in_order() {
    assert_eq!(choose_config_dir(Some("p2p"), Some("appdata"), Some("home"), "."), "p2p");
    assert_eq!(choose_config_dir(None, Some("appdata"), Some("home"), "."), "appdata");
    assert_eq!(choose_config_dir(None, None, Some("home"), "."), "home");
    assert_eq!(choose_config_dir(None, None, None, "."), ".");
}

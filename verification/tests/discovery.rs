use nypa_db_connector::{extract_socket_name_info, publisher_socket_order, stream_id_from_socket_path};

#[test]
fn socket_names_give_stream_ids() {
    assert_eq!(extract_socket_name_info("nypa_db_server_3.sock"), Some(3));
    assert_eq!(extract_socket_name_info("nypa_db_server_+12.sock"), Some(12));
    assert_eq!(extract_socket_name_info("nypa_db_server_.sock"), None);
    assert_eq!(extract_socket_name_info("nypa_db_server_3"), None);
    assert_eq!(extract_socket_name_info("other_app_3.sock"), None);
    assert_eq!(extract_socket_name_info("nypa_db_server_x.sock"), None);
    assert_eq!(extract_socket_name_info("nypa_db_server_-1.sock"), None);
    assert_eq!(extract_socket_name_info("nypa_db_server_99999999999999999999999.sock"), None);
    assert_eq!(extract_socket_name_info(".sock"), None);
}

#[test]
fn socket_paths_give_stream_ids() {
    assert_eq!(stream_id_from_socket_path("/run/user/1000/nypa_db_server_7.sock"), Some(7));
    assert_eq!(stream_id_from_socket_path("/tmp/anything_42.sock"), Some(42));
    assert_eq!(stream_id_from_socket_path("/tmp/x_5.sock/"), Some(5));
    assert_eq!(stream_id_from_socket_path("/tmp/x_5.sock/."), Some(5));
    assert_eq!(stream_id_from_socket_path("x_5.sock/.."), None);
    assert_eq!(stream_id_from_socket_path("/tmp/nosuffix_5"), None);
    assert_eq!(stream_id_from_socket_path("/"), None);
    assert_eq!(stream_id_from_socket_path(""), None);
    assert_eq!(stream_id_from_socket_path("nounderscore.sock"), None);
}

#[test]
fn sockets_are_ordered_by_stream_id() {
    let names: Vec<String> = [
        "nypa_db_server_2.sock",
        "readme.txt",
        "nypa_db_server_0.sock",
        "nypa_db_server_2.sock",
        "nypa_db_server_1.sock",
    ]
    .iter()
    .map(|s| s.to_string())
    .collect();
    assert_eq!(publisher_socket_order(&names), [2, 4, 0, 3]);
    assert!(publisher_socket_order(&Vec::new()).is_empty());
}

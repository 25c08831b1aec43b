use ip_file_logger::resolve::{hostname_from_output, public_ip_from_body};

#[test]
fn test_get_public_ip() {
    let ip = public_ip_from_body("127.0.0.1");
    assert_eq!(ip, "127.0.0.1");
}

#[test]
fn test_get_hostname() {
    let hostname = hostname_from_output(&b"localhost".to_vec());
    assert_eq!(hostname, "localhost");
}

#[test]
fn public_ip_loses_surrounding_white_space() {
    assert_eq!(public_ip_from_body("  203.0.113.7\r\n"), "203.0.113.7");
    assert_eq!(public_ip_from_body("\u{a0}2001:db8::1\t"), "2001:db8::1");
    assert_eq!(public_ip_from_body(" \n "), "");
}

#[test]
fn hostname_output_is_trimmed_and_decoded() {
    assert_eq!(hostname_from_output(&b"myhost\n".to_vec()), "myhost");
    assert_eq!(hostname_from_output(&b"  box-1 \r\n".to_vec()), "box-1");
    assert_eq!(hostname_from_output(&b"h\xffx\n".to_vec()), "h\u{fffd}x");
    assert_eq!(hostname_from_output(&Vec::new()), "");
}

use multithreading::basic::{self, Port};
use multithreading::config::{default_workers, workers_for_cpus};
use multithreading::http::{
    contains_parent_step, content_type_for_extension, get_content_type, get_ip_address,
    get_response, get_response_with_content_type, parse_file,
};
use multithreading::text::{decimal_string, same_text};

#[test]
fn ip_address_by_build() {
    assert_eq!(get_ip_address(true), "127.0.0.1");
    assert_eq!(get_ip_address(false), "0.0.0.0");
}

#[test]
fn parse_file_cases() {
    let idx = || "index.html".to_string();
    assert_eq!(parse_file("/", idx()), "index.html");
    assert_eq!(parse_file("/docs/", idx()), "docs/index.html");
    assert_eq!(parse_file("/a/b.txt", idx()), "a/b.txt");
    assert_eq!(parse_file("a.txt", idx()), "a.txt");
    assert_eq!(parse_file("", idx()), "");
    assert_eq!(parse_file("/../etc/passwd", idx()), "error_path_in_reverse");
    assert_eq!(parse_file("/x/", "home.htm".to_string()), "x/home.htm");
}

#[test]
fn parent_step_detection() {
    assert!(contains_parent_step("a/../b"));
    assert!(contains_parent_step("../"));
    assert!(!contains_parent_step(".."));
    assert!(!contains_parent_step("a/./b"));
    assert!(!contains_parent_step(""));
}

#[test]
fn content_types() {
    assert_eq!(content_type_for_extension("html"), "text/html");
    assert_eq!(content_type_for_extension("htm"), "text/html");
    assert_eq!(content_type_for_extension("css"), "text/css");
    assert_eq!(content_type_for_extension("js"), "application/javascript");
    assert_eq!(content_type_for_extension("png"), "image/png");
    assert_eq!(content_type_for_extension("jpg"), "image/jpeg");
    assert_eq!(content_type_for_extension("jpeg"), "image/jpeg");
    assert_eq!(content_type_for_extension("gif"), "image/gif");
    assert_eq!(content_type_for_extension("txt"), "application/octet-stream");
    assert_eq!(content_type_for_extension(""), "application/octet-stream");
}

#[test]
fn content_type_of_file() {
    assert_eq!(get_content_type("./site/index.html"), "text/html");
    assert_eq!(get_content_type("./style.css"), "text/css");
    assert_eq!(get_content_type("./archive.tar.gif"), "image/gif");
    assert_eq!(get_content_type("./html"), "application/octet-stream");
    assert_eq!(get_content_type("./.png"), "application/octet-stream");
}

#[test]
fn plain_response() {
    assert_eq!(
        get_response(404, "Not Found", "404 Not Found".to_string()),
        "HTTP/1.1 404 Not Found\r\nContext-Length: 13\r\n\r\n404 Not Found"
    );
    assert_eq!(
        get_response(200, "OK", String::new()),
        "HTTP/1.1 200 OK\r\nContext-Length: 0\r\n\r\n"
    );
    assert_eq!(
        get_response(200, "OK", "é".to_string()),
        "HTTP/1.1 200 OK\r\nContext-Length: 2\r\n\r\né"
    );
}

#[test]
fn response_with_content_type() {
    let r = get_response_with_content_type(200, "OK", vec![0, 255, 7], "image/png");
    let mut expected =
        b"HTTP/1.1 200 OK\r\nContent-Type: image/png\r\nContent-Length: 3\r\n\r\n".to_vec();
    expected.extend_from_slice(&[0, 255, 7]);
    assert_eq!(r, expected);
}

#[test]
fn decimal_numerals() {
    assert_eq!(decimal_string(0), "0");
    assert_eq!(decimal_string(7), "7");
    assert_eq!(decimal_string(10), "10");
    assert_eq!(decimal_string(65535), "65535");
}

#[test]
fn text_comparison() {
    assert!(same_text("abc", "abc"));
    assert!(!same_text("abc", "abd"));
    assert!(!same_text("ab", "abc"));
    assert!(same_text("", ""));
}

#[test]
fn port_parsing() {
    assert_eq!(Port::new("80".to_string()).map(|p| p.port), Some(80));
    assert_eq!(Port::new("+8080".to_string()).map(|p| p.port), Some(8080));
    assert_eq!(Port::new("0".to_string()).map(|p| p.port), Some(0));
    assert_eq!(Port::new("65535".to_string()).map(|p| p.port), Some(65535));
    assert!(Port::new("65536".to_string()).is_none());
    assert!(Port::new("".to_string()).is_none());
    assert!(Port::new("+".to_string()).is_none());
    assert!(Port::new("8a".to_string()).is_none());
    assert!(Port::new("-1".to_string()).is_none());
    assert!(Port::new("99999999999".to_string()).is_none());
}

#[test]
fn port_text() {
    assert_eq!(Port { port: 443 }.as_str(), "443");
    assert_eq!(Port::new("0080".to_string()).unwrap().as_str(), "80");
}

#[test]
fn basic_parse_file_cases() {
    assert_eq!(basic::parse_file("/".to_string()), "index.html");
    assert_eq!(basic::parse_file("/a/".to_string()), "a/index.html");
    assert_eq!(basic::parse_file("/a.txt".to_string()), "a.txt");
    assert_eq!(basic::parse_file("/../x".to_string()), "");
}

#[test]
fn basic_response_matches() {
    assert_eq!(
        basic::get_response(200, "OK", "hi".to_string()),
        "HTTP/1.1 200 OK\r\nContext-Length: 2\r\n\r\nhi"
    );
}

#[test]
fn worker_defaults() {
    assert_eq!(workers_for_cpus(8), 4);
    assert_eq!(workers_for_cpus(1), 0);
    assert_eq!(workers_for_cpus(0), 0);
    assert!(default_workers() <= usize::MAX / 2);
}

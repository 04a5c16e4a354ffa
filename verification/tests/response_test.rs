//! Response formatting tests.

use pop_mail_server::protocol::Response;

#[test]
fn test_ok_response() {
    assert_eq!(Response::ok("").to_string(), "+OK\r\n");
    assert_eq!(Response::ok("Success").to_string(), "+OK Success\r\n");
}

#[test]
fn test_err_response() {
    assert_eq!(Response::err("").to_string(), "-ERR\r\n");
    assert_eq!(Response::err("Failed").to_string(), "-ERR Failed\r\n");
}

#[test]
fn test_multiline_response() {
    let lines = vec!["Line 1".to_string(), "Line 2".to_string()];
    let response = Response::multiline("List follows", &lines);
    assert_eq!(
        response.to_string(),
        "+OK List follows\r\nLine 1\r\nLine 2\r\n.\r\n"
    );
}

#[test]
fn test_multiline_byte_stuffing() {
    let lines = vec![".hidden".to_string(), "normal".to_string()];
    let response = Response::multiline("", &lines);
    assert_eq!(response.to_string(), "+OK\r\n..hidden\r\nnormal\r\n.\r\n");
}

#[test]
fn multiline_empty_body_and_lone_dot() {
    let response = Response::multiline("Nothing", &[]);
    assert_eq!(response.to_string(), "+OK Nothing\r\n.\r\n");
    let lines = vec![".".to_string(), "".to_string()];
    let response = Response::multiline("x", &lines);
    assert_eq!(response.to_string(), "+OK x\r\n..\r\n\r\n.\r\n");
}

#[test]
fn multiline_lines_split_back_at_crlf() {
    let lines = vec!["a".to_string(), ".b".to_string(), "..".to_string(), "".to_string()];
    let text = Response::multiline("head", &lines).to_string();
    let parts: Vec<&str> = text.split("\r\n").collect();
    assert_eq!(parts, vec!["+OK head", "a", "..b", "...", "", ".", ""]);
    let body: Vec<String> = parts[1..parts.len() - 2]
        .iter()
        .map(|l| l.strip_prefix('.').unwrap_or(l).to_string())
        .collect();
    assert_eq!(body, lines);
}

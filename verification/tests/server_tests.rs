use diana_srv::cache::SiteCache;
use diana_srv::files::{check_if_file_exists, config_toml};
use diana_srv::matcher::find_in_buffer;
use diana_srv::numbers::extract_number;
use diana_srv::response::{format_message, status_code_num, u64_to_dec, HttpResponseStatus};
use diana_srv::server::{
    content_length_field_bytes, server_init, RequestPlan, RequestType, Server,
};

const TEST_POST_REQUEST: &[u8] = b"POST /api/data HTTP/1.1\r\n\
            Host: example.com\r\n\
            Content-Type: application/json\r\n\
            Content-Length: 27\r\n\
            \r\n\
            {\"key\":\"value\",\"number\":42}";
const TEST_POST_RESOURCE: &[u8] = b"/api/data";

#[test]
fn read_request_body_test() {
    let srv = server_init();
    let res = srv.read_request_body(&Vec::from(TEST_POST_REQUEST));
    let request_body: Vec<u8> = Vec::from(&b"{\"key\":\"value\",\"number\":42}"[..]);
    assert_eq!(res, request_body);
}

#[test]
fn read_request_type_test() {
    let srv = server_init();
    let test_req_as_buffer: Vec<u8> = Vec::from(TEST_POST_REQUEST);
    assert_eq!(srv.read_request_type(&test_req_as_buffer), RequestType::Post);
}

#[test]
fn read_resource_test() {
    let srv = server_init();
    let test_req_as_buffer: Vec<u8> = Vec::from(TEST_POST_REQUEST);
    assert_eq!(
        srv.read_resource(&test_req_as_buffer, &RequestType::Post),
        Vec::from(TEST_POST_RESOURCE)
    );
}

#[test]
fn read_request_type_get_and_invalid() {
    let srv = server_init();
    assert_eq!(
        srv.read_request_type(&Vec::from(&b"GET / HTTP/1.1\r\n"[..])),
        RequestType::Get
    );
    assert_eq!(
        srv.read_request_type(&Vec::from(&b"PUT / HTTP/1.1\r\n"[..])),
        RequestType::Invalid
    );
    assert_eq!(srv.read_request_type(&Vec::from(&b"GE"[..])), RequestType::Invalid);
}

#[test]
fn read_resource_without_terminating_space() {
    let srv = server_init();
    let buffer: Vec<u8> = Vec::from(&b"GET /dangling"[..]);
    assert_eq!(srv.read_resource(&buffer, &RequestType::Get), Vec::new());
}

#[test]
fn oversized_body_returns_empty() {
    let srv = server_init();
    let buffer: Vec<u8> =
        Vec::from(&b"POST /x HTTP/1.1\r\nContent-Length: 9000\r\n\r\nabc"[..]);
    assert_eq!(srv.read_request_body(&buffer), Vec::new());
}

#[test]
fn missing_content_length_means_handshake() {
    let srv = server_init();
    let buffer: Vec<u8> = Vec::from(&b"GET / HTTP/1.1\r\n\r\n"[..]);
    assert_eq!(srv.read_request_body(&buffer), Vec::new());
    match srv.plan_request(&buffer) {
        RequestPlan::Handshake => {}
        other => panic!("unexpected plan: {:?}", other),
    }
}

#[test]
fn plan_serves_posted_resource() {
    let srv = server_init();
    let buffer: Vec<u8> = Vec::from(TEST_POST_REQUEST);
    match srv.plan_request(&buffer) {
        RequestPlan::Serve(path) => assert_eq!(path, Vec::from(TEST_POST_RESOURCE)),
        other => panic!("unexpected plan: {:?}", other),
    }
}

#[test]
fn plan_closes_on_invalid_method() {
    let srv = server_init();
    let buffer: Vec<u8> =
        Vec::from(&b"PUT /x HTTP/1.1\r\nContent-Length: 3\r\n\r\nabc"[..]);
    match srv.plan_request(&buffer) {
        RequestPlan::InvalidType => {}
        other => panic!("unexpected plan: {:?}", other),
    }
}

#[test]
fn plan_closes_on_empty_resource() {
    let srv = server_init();
    let buffer: Vec<u8> =
        Vec::from(&b"POST  HTTP/1.1\r\nContent-Length: 3\r\n\r\nabc"[..]);
    match srv.plan_request(&buffer) {
        RequestPlan::EmptyResource => {}
        other => panic!("unexpected plan: {:?}", other),
    }
}

#[test]
fn fetch_empty_key_and_missing_file_agree() {
    let mut srv = server_init();
    let empty_key: Vec<u8> = Vec::new();
    let not_found = srv.fetch_resource(&empty_key, None);
    assert_eq!(not_found, Vec::from(&b"Hello World"[..]));

    // a key that resolves to a file that does not exist: the load is asked
    // for, finds nothing, and the fetch falls back to the same sentinel
    let key: Vec<u8> = Vec::from(&b"missing.html"[..]);
    let mut reads: u32 = 0;
    let loaded = match srv.needs_load(&key) {
        Some(path) => {
            assert_eq!(path, Vec::from(&b"resource/html/missing.html"[..]));
            reads += 1;
            None
        }
        None => None,
    };
    let content = srv.fetch_resource(&key, loaded);
    assert_eq!(content, not_found);
    assert_eq!(reads, 1);

    // the miss was not cached: a later fetch asks the disk again
    assert!(srv.needs_load(&key).is_some());
}

#[test]
fn fetch_serves_second_request_from_cache() {
    let mut srv = server_init();
    let key: Vec<u8> = Vec::from(&b"index.html"[..]);
    let site: Vec<u8> = Vec::from(&b"<html>home</html>"[..]);
    let mut reads: u32 = 0;

    let loaded = match srv.needs_load(&key) {
        Some(_path) => {
            reads += 1;
            Some(site.clone())
        }
        None => None,
    };
    let first = srv.fetch_resource(&key, loaded);
    assert_eq!(first, site);

    // the second fetch of the same key never touches the filesystem and
    // returns byte-identical content
    let loaded_again = match srv.needs_load(&key) {
        Some(_path) => {
            reads += 1;
            Some(Vec::from(&b"changed on disk"[..]))
        }
        None => None,
    };
    let second = srv.fetch_resource(&key, loaded_again);
    assert_eq!(second, first);
    assert_eq!(reads, 1);
}

#[test]
fn fetch_does_not_cache_empty_reads() {
    let mut srv = server_init();
    let key: Vec<u8> = Vec::from(&b"empty.html"[..]);
    let content = srv.fetch_resource(&key, Some(Vec::new()));
    assert_eq!(content, Vec::from(&b"Hello World"[..]));
    assert!(srv.needs_load(&key).is_some());
}

#[test]
fn traversing_path_is_never_read_from_disk() {
    let mut srv = server_init();
    let key: Vec<u8> = Vec::from(&b"/../ServerConfig.toml"[..]);
    assert!(srv.needs_load(&key).is_none());
    let content = srv.fetch_resource(&key, None);
    assert_eq!(content, Vec::from(&b"Hello World"[..]));
    match srv.choose_status(&content) {
        HttpResponseStatus::NotFound => {}
        other => panic!("unexpected status: {:?}", other),
    }
}

#[test]
fn format_message_exact_bytes() {
    let body: Vec<u8> = Vec::from(&b"Hi"[..]);
    let out = format_message(HttpResponseStatus::Okay, &body);
    let expected: Vec<u8> = Vec::from(
        &b"HTTP/1.1 200 OK\r\nAccess-Control-Allow-Origin: *\r\nContent-Length: 2\r\n\r\nHi"[..],
    );
    assert_eq!(out, expected);
}

#[test]
fn format_message_not_found_status_line() {
    let body: Vec<u8> = Vec::from(&b"Hello World"[..]);
    let out = format_message(HttpResponseStatus::NotFound, &body);
    let expected: Vec<u8> = Vec::from(
        &b"HTTP/1.1 404 Not Found\r\nAccess-Control-Allow-Origin: *\r\nContent-Length: 11\r\n\r\nHello World"[..],
    );
    assert_eq!(out, expected);
}

#[test]
fn format_roundtrip_recovers_length() {
    let srv = server_init();
    let body: Vec<u8> = Vec::from(&b"abcdef"[..]);
    let out = format_message(HttpResponseStatus::Okay, &body);
    let field = content_length_field_bytes();
    let pos = find_in_buffer(&out, field.as_slice());
    assert_eq!(pos, 49);
    let recovered = extract_number(&out[pos + field.len()..]);
    assert_eq!(recovered, body.len() as i64);
    // and extracting the body back out of the response recovers it exactly
    assert_eq!(srv.read_request_body(&out), body);
}

#[test]
fn status_codes_are_the_closed_set() {
    assert_eq!(status_code_num(HttpResponseStatus::Okay), 200);
    assert_eq!(status_code_num(HttpResponseStatus::NoContent), 204);
    assert_eq!(status_code_num(HttpResponseStatus::NotModified), 304);
    assert_eq!(status_code_num(HttpResponseStatus::BadRequest), 400);
    assert_eq!(status_code_num(HttpResponseStatus::Forbidden), 403);
    assert_eq!(status_code_num(HttpResponseStatus::NotFound), 404);
    assert_eq!(status_code_num(HttpResponseStatus::ImATeapot), 418);
}

#[test]
fn decimal_rendering() {
    assert_eq!(u64_to_dec(0), Vec::from(&b"0"[..]));
    assert_eq!(u64_to_dec(27), Vec::from(&b"27"[..]));
    assert_eq!(u64_to_dec(8192), Vec::from(&b"8192"[..]));
}

#[test]
fn choose_status_distinguishes_sentinel() {
    let mut srv = server_init();
    let empty_key: Vec<u8> = Vec::new();
    let sentinel = srv.fetch_resource(&empty_key, None);
    match srv.choose_status(&sentinel) {
        HttpResponseStatus::NotFound => {}
        other => panic!("unexpected status: {:?}", other),
    }
    let page: Vec<u8> = Vec::from(&b"<html></html>"[..]);
    match srv.choose_status(&page) {
        HttpResponseStatus::Okay => {}
        other => panic!("unexpected status: {:?}", other),
    }
}

#[test]
fn admission_respects_the_limit() {
    let mut srv = Server::new(String::from("127.0.0.1"), 8080, 2, 5);
    assert!(srv.admit_connection());
    assert!(srv.admit_connection());
    assert!(!srv.admit_connection());
    srv.release_connection();
    assert!(srv.admit_connection());
    srv.release_connection();
    srv.release_connection();
    srv.release_connection();
    assert!(srv.admit_connection());
}

#[test]
fn site_cache_basics() {
    let mut cache = SiteCache::new();
    let key: Vec<u8> = Vec::from(&b"k"[..]);
    let value: Vec<u8> = Vec::from(&b"v"[..]);
    assert!(!cache.contains(&key));
    assert!(cache.get(&key).is_none());
    cache.insert(key.clone(), value.clone());
    assert!(cache.contains(&key));
    assert_eq!(cache.get(&key), Some(value));
}

#[test]
fn config_toml_checks_existence() {
    let here = String::from(".");
    assert!(check_if_file_exists(&here));
    assert_eq!(config_toml(&here), Some(&here));
    let missing = String::from("no-such-config-file.toml");
    assert_eq!(config_toml(&missing), None);
}

use diana_srv::matcher::find_in_buffer;
use diana_srv::numbers::extract_number;
use diana_srv::server::content_length_field_bytes;

const POST_REQUEST: &[u8] = b"POST /api/data HTTP/1.1\r\n\
            Host: example.com\r\n\
            Content-Type: application/json\r\n\
            Content-Length: 27\r\n\
            \r\n\
            {\"key\":\"value\",\"number\":42}";

#[test]
fn find_in_buffer_test() {
    /* Test 1 */
    let content_length_field = content_length_field_bytes();
    let vec_content_buf: Vec<u8> = content_length_field.clone();
    let content_pos = find_in_buffer(&vec_content_buf, content_length_field.as_slice());
    assert_eq!(content_pos, 0);

    /* Test 2 */
    let vec_post_buf: Vec<u8> = Vec::from(POST_REQUEST);
    let post_pos = find_in_buffer(&vec_post_buf, content_length_field.as_slice());
    assert_eq!(post_pos, 76);
}

#[test]
fn find_in_buffer_reports_lowest_offset() {
    let buffer: Vec<u8> = Vec::from(&b"ababcabc"[..]);
    assert_eq!(find_in_buffer(&buffer, b"abc"), 2);
    assert_eq!(find_in_buffer(&buffer, b"ab"), 0);
    assert_eq!(find_in_buffer(&buffer, b"c"), 4);
}

#[test]
fn find_in_buffer_absent_pattern() {
    let buffer: Vec<u8> = Vec::from(&b"abcdef"[..]);
    assert_eq!(find_in_buffer(&buffer, b"xyz"), usize::MAX);
    assert_eq!(find_in_buffer(&buffer, b"abcdefg"), usize::MAX);
}

#[test]
fn find_in_buffer_empty_pattern() {
    let buffer: Vec<u8> = Vec::from(&b"abc"[..]);
    assert_eq!(find_in_buffer(&buffer, b""), 0);
}

#[test]
fn extract_number_digit_run() {
    assert_eq!(extract_number(b"27\r\n"), 27);
    assert_eq!(extract_number(b"27\npadding"), 27);
    assert_eq!(extract_number(b"8192\r\nrest"), 8192);
}

#[test]
fn extract_number_empty_run() {
    assert_eq!(extract_number(b"\r\n"), 0);
    assert_eq!(extract_number(b""), 0);
}

#[test]
fn extract_number_run_without_terminator() {
    assert_eq!(extract_number(b"405"), 405);
}

#[test]
fn extract_number_clamps_overlong_run() {
    assert_eq!(extract_number(b"99999999999999999999999999\r\n"), i64::MAX);
}

#[test]
fn extract_number_unvalidated_bytes() {
    // bytes below '0' contribute negatively; the scan does not validate
    assert_eq!(extract_number(b"+\r\n"), -5);
    let mut run: Vec<u8> = vec![b'+'; 40];
    run.extend_from_slice(b"\r\n");
    assert_eq!(extract_number(&run), i64::MIN);
}

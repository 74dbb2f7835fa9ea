//! Response formatter: serializes a status and a body into the wire bytes
//! `HTTP/1.1 <code> <reason>\r\nAccess-Control-Allow-Origin: *\r\n` followed
//! by `Content-Length: <len>\r\n\r\n` and the body. Statuses form a closed
//! set, each paired with its canonical reason phrase.

use crate::matcher::{first_match, has_match, is_match_at, lemma_first_match_is};
use crate::numbers::{extract_spec, is_line_end, line_prefix, lemma_line_len_is, weighted_value};
use crate::server::{body_spec, content_length_field, content_length_field_bytes, SPACE};
use vstd::prelude::*;

verus! {

/// The statuses the server can emit.
#[derive(PartialEq, Eq, Structural, Debug, Clone, Copy)]
pub enum HttpResponseStatus {
    /// 200 OK
    Okay,
    /// 204 No Content
    NoContent,
    /// 304 Not Modified
    NotModified,
    /// 400 Bad Request
    BadRequest,
    /// 403 Forbidden
    Forbidden,
    /// 404 Not Found
    NotFound,
    /// 418 I'm a Teapot
    ImATeapot,
}

/// The numeric code of a status.
pub open spec fn status_code(s: HttpResponseStatus) -> nat {
    match s {
        HttpResponseStatus::Okay => 200,
        HttpResponseStatus::NoContent => 204,
        HttpResponseStatus::NotModified => 304,
        HttpResponseStatus::BadRequest => 400,
        HttpResponseStatus::Forbidden => 403,
        HttpResponseStatus::NotFound => 404,
        HttpResponseStatus::ImATeapot => 418,
    }
}

/// The canonical reason phrase of a status, as bytes.
pub open spec fn reason_bytes(s: HttpResponseStatus) -> Seq<u8> {
    match s {
        HttpResponseStatus::Okay => seq![79u8, 75],
        HttpResponseStatus::NoContent => seq![78u8, 111, 32, 67, 111, 110, 116, 101, 110, 116],
        HttpResponseStatus::NotModified => seq![
            78u8, 111, 116, 32, 77, 111, 100, 105, 102, 105, 101, 100,
        ],
        HttpResponseStatus::BadRequest => seq![66u8, 97, 100, 32, 82, 101, 113, 117, 101, 115, 116],
        HttpResponseStatus::Forbidden => seq![70u8, 111, 114, 98, 105, 100, 100, 101, 110],
        HttpResponseStatus::NotFound => seq![78u8, 111, 116, 32, 70, 111, 117, 110, 100],
        HttpResponseStatus::ImATeapot => seq![
            73u8, 39, 109, 32, 97, 32, 84, 101, 97, 112, 111, 116,
        ],
    }
}

/// The bytes of `"HTTP/1.1 "`.
pub open spec fn http_version_prefix() -> Seq<u8> {
    seq![72u8, 84, 84, 80, 47, 49, 46, 49, 32]
}

/// The bytes of `"\r\n"`.
pub open spec fn crlf() -> Seq<u8> {
    seq![13u8, 10]
}

/// The bytes of `"Access-Control-Allow-Origin: *\r\n"`.
pub open spec fn origin_header() -> Seq<u8> {
    seq![65u8, 99, 99, 101, 115, 115, 45, 67, 111, 110, 116, 114, 111, 108, 45, 65, 108, 108, 111,
        119, 45, 79, 114, 105, 103, 105, 110, 58, 32, 42, 13, 10]
}

/// The decimal digits of `n`, most significant first.
pub open spec fn dec_digits(n: nat) -> Seq<u8>
    decreases n,
{
    if n < 10 {
        seq![(48 + n) as u8]
    } else {
        dec_digits(n / 10).push((48 + n % 10) as u8)
    }
}

/// Every byte of `dec_digits` is an ASCII digit, and there is at least one.
pub proof fn lemma_dec_digits_are_digits(n: nat)
    ensures
        dec_digits(n).len() >= 1,
        forall|i: int| 0 <= i < dec_digits(n).len() ==> 48 <= #[trigger] dec_digits(n)[i] <= 57,
    decreases n,
{
    if n >= 10 {
        lemma_dec_digits_are_digits(n / 10);
    }
}

/// Reading the decimal digits of `n` back as a base-10 value gives `n`.
pub proof fn lemma_dec_digits_value(n: nat)
    ensures
        crate::numbers::weighted_value(dec_digits(n)) == n,
    decreases n,
{
    if n < 10 {
        let s = dec_digits(n);
        assert(s.drop_last() =~= Seq::<u8>::empty());
        assert(crate::numbers::weighted_value(s.drop_last()) == 0);
    } else {
        lemma_dec_digits_value(n / 10);
        assert(dec_digits(n).drop_last() =~= dec_digits(n / 10));
        assert(dec_digits(n).last() == (48 + n % 10) as u8);
        assert(crate::numbers::weighted_value(dec_digits(n)) == (n / 10) * 10 + n % 10);
        vstd::arithmetic::div_mod::lemma_fundamental_div_mod(n as int, 10);
    }
}

/// The full response for a status and a body.
pub open spec fn response_bytes(s: HttpResponseStatus, body: Seq<u8>) -> Seq<u8> {
    http_version_prefix() + dec_digits(status_code(s)) + seq![SPACE] + reason_bytes(s) + crlf()
        + origin_header() + content_length_field() + dec_digits(body.len()) + crlf() + crlf()
        + body
}

/// The decimal digits of `n`, as a byte vector.
pub fn u64_to_dec(n: u64) -> (r: Vec<u8>)
    ensures
        r@ == dec_digits(n as nat),
    decreases n,
{
    if n < 10 {
        let mut r: Vec<u8> = Vec::new();
        r.push(48 + (n as u8));
        proof {
            assert(r@ =~= dec_digits(n as nat));
        }
        r
    } else {
        let mut r = u64_to_dec(n / 10);
        r.push(48 + ((n % 10) as u8));
        r
    }
}

/// The numeric code of a status.
pub fn status_code_num(s: HttpResponseStatus) -> (r: u64)
    ensures
        r == status_code(s),
{
    match s {
        HttpResponseStatus::Okay => 200,
        HttpResponseStatus::NoContent => 204,
        HttpResponseStatus::NotModified => 304,
        HttpResponseStatus::BadRequest => 400,
        HttpResponseStatus::Forbidden => 403,
        HttpResponseStatus::NotFound => 404,
        HttpResponseStatus::ImATeapot => 418,
    }
}

/// The canonical reason phrase of a status.
fn reason_phrase_bytes(s: HttpResponseStatus) -> (r: Vec<u8>)
    ensures
        r@ == reason_bytes(s),
{
    match s {
        HttpResponseStatus::Okay => {
            let r: Vec<u8> = vec![79u8, 75];
            proof {
                assert(r@ =~= reason_bytes(s));
            }
            r
        },
        HttpResponseStatus::NoContent => {
            let r: Vec<u8> = vec![78u8, 111, 32, 67, 111, 110, 116, 101, 110, 116];
            proof {
                assert(r@ =~= reason_bytes(s));
            }
            r
        },
        HttpResponseStatus::NotModified => {
            let r: Vec<u8> = vec![78u8, 111, 116, 32, 77, 111, 100, 105, 102, 105, 101, 100];
            proof {
                assert(r@ =~= reason_bytes(s));
            }
            r
        },
        HttpResponseStatus::BadRequest => {
            let r: Vec<u8> = vec![66u8, 97, 100, 32, 82, 101, 113, 117, 101, 115, 116];
            proof {
                assert(r@ =~= reason_bytes(s));
            }
            r
        },
        HttpResponseStatus::Forbidden => {
            let r: Vec<u8> = vec![70u8, 111, 114, 98, 105, 100, 100, 101, 110];
            proof {
                assert(r@ =~= reason_bytes(s));
            }
            r
        },
        HttpResponseStatus::NotFound => {
            let r: Vec<u8> = vec![78u8, 111, 116, 32, 70, 111, 117, 110, 100];
            proof {
                assert(r@ =~= reason_bytes(s));
            }
            r
        },
        HttpResponseStatus::ImATeapot => {
            let r: Vec<u8> = vec![73u8, 39, 109, 32, 97, 32, 84, 101, 97, 112, 111, 116];
            proof {
                assert(r@ =~= reason_bytes(s));
            }
            r
        },
    }
}

/// Appends `src` to `dst`.
fn append_bytes(dst: &mut Vec<u8>, src: &Vec<u8>)
    ensures
        final(dst)@ == old(dst)@ + src@,
{
    let n: usize = src.len();
    let mut i: usize = 0;
    while i < n
        invariant
            n == src@.len(),
            i <= n,
            dst@ == old(dst)@ + src@.take(i as int),
        decreases n - i,
    {
        dst.push(src[i]);
        proof {
            assert(dst@ =~= old(dst)@ + src@.take(i + 1));
        }
        i = i + 1;
    }
    proof {
        assert(old(dst)@ + src@.take(n as int) =~= old(dst)@ + src@);
    }
}

/// Serializes a status line, the fixed headers, a `Content-Length` header
/// for the body, a blank line, and the body itself.
pub fn format_message(status: HttpResponseStatus, site_content: &Vec<u8>) -> (r: Vec<u8>)
    ensures
        r@ == response_bytes(status, site_content@),
{
    let mut response: Vec<u8> = Vec::new();
    let version: Vec<u8> = vec![72u8, 84, 84, 80, 47, 49, 46, 49, 32];
    proof {
        assert(version@ =~= http_version_prefix());
    }
    append_bytes(&mut response, &version);
    append_bytes(&mut response, &u64_to_dec(status_code_num(status)));
    response.push(SPACE);
    append_bytes(&mut response, &reason_phrase_bytes(status));
    let crlf_bytes: Vec<u8> = vec![13u8, 10];
    proof {
        assert(crlf_bytes@ =~= crlf());
    }
    append_bytes(&mut response, &crlf_bytes);
    let origin: Vec<u8> = vec![
        65u8, 99, 99, 101, 115, 115, 45, 67, 111, 110, 116, 114, 111, 108, 45, 65, 108, 108, 111,
        119, 45, 79, 114, 105, 103, 105, 110, 58, 32, 42, 13, 10,
    ];
    proof {
        assert(origin@ =~= origin_header());
    }
    append_bytes(&mut response, &origin);
    append_bytes(&mut response, &content_length_field_bytes());
    let len_u64: u64 = site_content.len() as u64;
    append_bytes(&mut response, &u64_to_dec(len_u64));
    append_bytes(&mut response, &crlf_bytes);
    append_bytes(&mut response, &crlf_bytes);
    append_bytes(&mut response, site_content);
    proof {
        assert(response@ =~= response_bytes(status, site_content@));
    }
    response
}

/// The bytes of a 200 response before its `Content-Length` field:
/// `HTTP/1.1 200 OK\r\nAccess-Control-Allow-Origin: *\r\n`.
pub open spec fn ok_response_head() -> Seq<u8> {
    seq![72u8, 84, 84, 80, 47, 49, 46, 49, 32, 50, 48, 48, 32, 79, 75, 13, 10, 65, 99, 99, 101,
        115, 115, 45, 67, 111, 110, 116, 114, 111, 108, 45, 65, 108, 108, 111, 119, 45, 79, 114,
        105, 103, 105, 110, 58, 32, 42, 13, 10]
}

#[verifier::rlimit(100)]
proof fn lemma_ok_response_shape(body: Seq<u8>)
    ensures
        response_bytes(HttpResponseStatus::Okay, body) == ok_response_head()
            + content_length_field() + dec_digits(body.len()) + crlf() + crlf() + body,
        ok_response_head().len() == 49,
{
    assert(dec_digits(200) =~= seq![50u8, 48, 48]) by {
        reveal_with_fuel(dec_digits, 3);
    }
    assert(response_bytes(HttpResponseStatus::Okay, body) =~= ok_response_head()
        + content_length_field() + dec_digits(body.len()) + crlf() + crlf() + body);
}

#[verifier::rlimit(100)]
proof fn lemma_head_byte_not_c(k: int)
    requires
        0 <= k < 49,
        k != 24,
    ensures
        ok_response_head()[k] != 67,
{
}

#[verifier::rlimit(100)]
proof fn lemma_tail_extract(body: Seq<u8>)
    requires
        body.len() <= i64::MAX,
    ensures
        extract_spec(dec_digits(body.len()) + crlf() + crlf() + body) == body.len(),
{
    let ddl = dec_digits(body.len());
    let tail = ddl + crlf() + crlf() + body;
    lemma_dec_digits_are_digits(body.len());
    lemma_dec_digits_value(body.len());
    let dl = ddl.len() as int;
    assert forall|j: int| 0 <= j < dl implies !is_line_end(tail[j]) by {
        assert(tail[j] == ddl[j]);
        assert(48 <= ddl[j] <= 57);
    }
    assert(tail[dl] == 13);
    lemma_line_len_is(tail, dl);
    assert(line_prefix(tail) =~= ddl);
    assert(weighted_value(line_prefix(tail)) == body.len());
}

/// Round trip of the `Content-Length` header: in the bytes `format_message`
/// emits for a 200 response, the `Content-Length: ` field first occurs right
/// after the fixed headers, and reading the digits that follow it recovers
/// the body length exactly.
#[verifier::rlimit(100)]
pub proof fn lemma_format_roundtrip(body: Seq<u8>)
    requires
        body.len() <= i64::MAX,
    ensures
        ({
            let out = response_bytes(HttpResponseStatus::Okay, body);
            let pat = content_length_field();
            &&& has_match(out, pat)
            &&& first_match(out, pat) == 49
            &&& extract_spec(out.skip(first_match(out, pat) + pat.len())) == body.len()
        }),
{
    lemma_ok_response_shape(body);
    let out = response_bytes(HttpResponseStatus::Okay, body);
    let pat = content_length_field();
    let head = ok_response_head();
    let ddl = dec_digits(body.len());
    let tail = ddl + crlf() + crlf() + body;
    assert(out == head + pat + tail) by {
        assert(out =~= head + pat + tail);
    }
    assert(is_match_at(out, pat, 49)) by {
        assert forall|t: int| 0 <= t < pat.len() implies out[49 + t] == pat[t] by {
            assert(out[49 + t] == ((head + pat) + tail)[49 + t]);
        }
    }
    assert forall|k: int| 0 <= k < 49 implies !is_match_at(out, pat, k) by {
        if is_match_at(out, pat, k) {
            if k == 24 {
                assert(out[28] == head[28]);
                assert(head[28] == 114);
                assert(out[28] == pat[4]);
                assert(pat[4] == 101);
                assert(false);
            } else {
                assert(out[k + 0] == pat[0]);
                assert(pat[0] == 67);
                assert(out[k] == head[k]);
                lemma_head_byte_not_c(k);
                assert(false);
            }
        }
    }
    lemma_first_match_is(out, pat, 49);
    assert(out.skip(65) =~= tail);
    lemma_tail_extract(body);
}

/// Round trip of the whole body: extracting the request body back out of a
/// formatted 200 response that carries an acceptable body length recovers
/// the body byte for byte.
pub proof fn lemma_format_body_roundtrip(body: Seq<u8>)
    requires
        body.len() <= 8192,
    ensures
        body_spec(response_bytes(HttpResponseStatus::Okay, body)) == body,
{
    lemma_format_roundtrip(body);
    let out = response_bytes(HttpResponseStatus::Okay, body);
    let pat = content_length_field();
    let v = extract_spec(out.skip(first_match(out, pat) + pat.len()));
    assert(v == body.len());
    assert(out.skip(out.len() - v) =~= body);
}

} // verus!

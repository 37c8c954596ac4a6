use remote_dict::codec::decode_request;
use remote_dict::codec::decode_response;
use remote_dict::codec::encode_request;
use remote_dict::codec::encode_response;
use remote_dict::codec::Codec;
use remote_dict::dto::Request;
use remote_dict::dto::Response;

fn sample_requests() -> Vec<Request> {
    vec![
        Request::Get { key: "alpha".to_owned() },
        Request::Put { key: "alpha".to_owned(), val: "beta".to_owned() },
        Request::Put { key: String::new(), val: String::new() },
        Request::Stats,
    ]
}

fn sample_responses() -> Vec<Response> {
    vec![
        Response::Get { ok: true, val: Some("v".to_owned()), err: None },
        Response::Get { ok: false, val: None, err: Some("not found".to_owned()) },
        Response::Put { ok: true, err: None },
        Response::Put { ok: false, err: Some("disk full".to_owned()) },
        Response::Stats { ok: true, total: Some(7), good: Some(4), bad: Some(3) },
        Response::Stats { ok: true, total: Some(0), good: Some(0), bad: Some(0) },
        Response::Stats { ok: true, total: Some(u64::MAX), good: Some(u64::MAX), bad: Some(0) },
        Response::Stats { ok: false, total: None, good: None, bad: None },
        Response::Empty,
    ]
}

#[test]
fn binary_request_round_trip() {
    for r in sample_requests() {
        let bytes = encode_request(Codec::Binary, &r);
        assert_eq!(decode_request(Codec::Binary, &bytes), Some(r));
    }
}

#[test]
fn text_request_round_trip() {
    for r in sample_requests() {
        let bytes = encode_request(Codec::Text, &r);
        assert_eq!(decode_request(Codec::Text, &bytes), Some(r));
    }
}

#[test]
fn binary_response_round_trip() {
    for r in sample_responses() {
        let bytes = encode_response(Codec::Binary, &r);
        assert_eq!(decode_response(Codec::Binary, &bytes), Some(r));
    }
}

#[test]
fn text_response_round_trip() {
    for r in sample_responses() {
        let bytes = encode_response(Codec::Text, &r);
        assert_eq!(decode_response(Codec::Text, &bytes), Some(r));
    }
}

#[test]
fn unicode_round_trip() {
    let r = Request::Put { key: "h\u{e9}\u{3bb}\u{3bb}o\u{1f980}".to_owned(), val: "\u{2603}".to_owned() };
    for c in [Codec::Binary, Codec::Text] {
        let bytes = encode_request(c, &r);
        assert_eq!(decode_request(c, &bytes), Some(r.clone()));
    }
}

#[test]
fn text_request_bytes_exact() {
    let get = Request::Get { key: "abc".to_owned() };
    assert_eq!(encode_request(Codec::Text, &get), b"G3:abc".to_vec());

    let put = Request::Put { key: "k".to_owned(), val: "hello".to_owned() };
    assert_eq!(encode_request(Codec::Text, &put), b"S1:k5:hello".to_vec());

    assert_eq!(encode_request(Codec::Text, &Request::Stats), b"T".to_vec());
}

#[test]
fn text_response_bytes_exact() {
    let res = Response::Get { ok: true, val: Some("v1".to_owned()), err: None };
    assert_eq!(encode_response(Codec::Text, &res), b"G++2:v1-".to_vec());

    let stats = Response::Stats { ok: true, total: Some(12), good: Some(10), bad: Some(2) };
    assert_eq!(encode_response(Codec::Text, &stats), b"T++12;+10;+2;".to_vec());

    assert_eq!(encode_response(Codec::Text, &Response::Empty), b"E".to_vec());
}

#[test]
fn binary_request_bytes_exact() {
    let get = Request::Get { key: "ab".to_owned() };
    assert_eq!(
        encode_request(Codec::Binary, &get),
        vec![0u8, 0, 0, 0, 0, 0, 0, 0, 2, 97, 98]
    );
    assert_eq!(encode_request(Codec::Binary, &Request::Stats), vec![2u8]);
}

#[test]
fn decode_rejects_malformed() {
    for c in [Codec::Binary, Codec::Text] {
        assert_eq!(decode_request(c, &Vec::new()), None);
        assert_eq!(decode_response(c, &Vec::new()), None);
        assert_eq!(decode_request(c, &vec![200u8]), None);
    }

    // truncated binary length prefix
    assert_eq!(decode_request(Codec::Binary, &vec![0u8, 0, 0, 0]), None);
    // binary length larger than the remaining payload
    assert_eq!(
        decode_request(Codec::Binary, &vec![0u8, 0, 0, 0, 0, 0, 0, 0, 9, 97]),
        None
    );
    // invalid UTF-8 inside a binary string
    assert_eq!(
        decode_request(Codec::Binary, &vec![0u8, 0, 0, 0, 0, 0, 0, 0, 1, 0xFF]),
        None
    );
    // trailing bytes after a complete message
    assert_eq!(
        decode_request(Codec::Binary, &vec![2u8, 0]),
        None
    );

    // text: missing colon, leading zero in a count, trailing bytes
    assert_eq!(decode_request(Codec::Text, &b"G3abc".to_vec()), None);
    assert_eq!(decode_request(Codec::Text, &b"G03:abc".to_vec()), None);
    assert_eq!(decode_request(Codec::Text, &b"Tx".to_vec()), None);
    // text: count larger than the remaining payload
    assert_eq!(decode_request(Codec::Text, &b"G9:ab".to_vec()), None);
    // text: count too wide for a 64-bit length
    assert_eq!(
        decode_request(Codec::Text, &b"G99999999999999999999999:a".to_vec()),
        None
    );
    // text: bad boolean flag in a response
    assert_eq!(decode_response(Codec::Text, &b"G?--".to_vec()), None);
}

#[test]
fn codecs_differ_on_the_wire() {
    let r = Request::Get { key: "abc".to_owned() };
    let tb = encode_request(Codec::Text, &r);
    let bb = encode_request(Codec::Binary, &r);
    assert_ne!(tb, bb);
    assert_eq!(decode_request(Codec::Binary, &tb), None);
}

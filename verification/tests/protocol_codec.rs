use termstorage::encoding::{Decode, Encode};
use termstorage::protocol::{Delete, Fetch, Protocol, ProtocolError, Store};
use termstorage::response::{self, Response};
use termstorage::term::Term;

fn sample_requests() -> Vec<Protocol> {
    vec![
        Protocol::Fetch(Fetch { name: "batata".to_string() }),
        Protocol::Fetch(Fetch { name: String::new() }),
        Protocol::Store(Store {
            name: "key".to_string(),
            payload: Term::Number(42.0f64.to_bits()),
        }),
        Protocol::Store(Store {
            name: "nested".to_string(),
            payload: Term::Tuple(
                Box::new(Term::Bool(false)),
                Box::new(Term::String("value".to_string())),
            ),
        }),
        Protocol::Delete(Delete { name: "gone".to_string() }),
    ]
}

#[test]
fn request_roundtrip() {
    for req in sample_requests() {
        let bytes = req.encode();
        let (back, used) = Protocol::decode(&bytes).expect("request must decode");
        assert_eq!(back, req);
        assert_eq!(used, bytes.len());
    }
}

#[test]
fn response_roundtrip() {
    let responses = vec![
        Response::Value(Term::Number(42.0f64.to_bits())),
        Response::Value(Term::Tuple(
            Box::new(Term::String("a".to_string())),
            Box::new(Term::Bool(true)),
        )),
        Response::Processed,
        Response::NotFound,
        Response::Unprocessed,
        Response::ServerError,
    ];
    for resp in responses {
        let bytes = resp.encode();
        let (back, used) = response::decode(&bytes).expect("response must decode");
        assert_eq!(back, resp);
        assert_eq!(used, bytes.len());
    }
}

#[test]
fn fetch_exact_bytes() {
    let req = Protocol::Fetch(Fetch { name: "ab".to_string() });
    assert_eq!(req.encode(), vec![10, 0, 0, 0, 0, 0, 0, 0, 2, b'a', b'b']);
}

#[test]
fn store_exact_bytes() {
    let req = Protocol::Store(Store {
        name: "k".to_string(),
        payload: Term::Bool(true),
    });
    let expected = vec![
        11, // store tag
        0, 0, 0, 0, 0, 0, 0, 1, b'k', // name frame
        0, 0, 0, 0, 0, 0, 0, 2, // payload frame length
        20, 1, // encoded boolean term
    ];
    assert_eq!(req.encode(), expected);
}

#[test]
fn delete_exact_bytes() {
    let req = Protocol::Delete(Delete { name: "k".to_string() });
    assert_eq!(req.encode(), vec![12, 0, 0, 0, 0, 0, 0, 0, 1, b'k']);
}

#[test]
fn response_tag_bytes() {
    assert_eq!(response::encode(Response::Processed), vec![51]);
    assert_eq!(response::encode(Response::NotFound), vec![52]);
    assert_eq!(response::encode(Response::Unprocessed), vec![53]);
    assert_eq!(response::encode(Response::ServerError), vec![54]);
    let ok = response::encode(Response::Value(Term::Bool(false)));
    assert_eq!(ok, vec![50, 0, 0, 0, 0, 0, 0, 0, 2, 20, 0]);
}

#[test]
fn request_unknown_tag() {
    assert_eq!(Protocol::decode(&[0xFF]), Err(ProtocolError::InvalidTag));
    assert_eq!(Protocol::decode(&[9, 0, 0, 0, 0, 0, 0, 0, 0]), Err(ProtocolError::InvalidTag));
}

#[test]
fn request_truncated() {
    assert_eq!(Protocol::decode(&[]), Err(ProtocolError::Truncated));
    // Fetch with an incomplete name length field.
    assert_eq!(Protocol::decode(&[10, 0, 0, 0]), Err(ProtocolError::Truncated));
    // Fetch whose name is shorter than declared.
    assert_eq!(
        Protocol::decode(&[10, 0, 0, 0, 0, 0, 0, 0, 5, b'a']),
        Err(ProtocolError::Truncated)
    );
    // Store cut off before the payload length field.
    assert_eq!(
        Protocol::decode(&[11, 0, 0, 0, 0, 0, 0, 0, 1, b'k', 0, 0]),
        Err(ProtocolError::Truncated)
    );
}

#[test]
fn request_invalid_name_utf8() {
    let bytes = vec![10, 0, 0, 0, 0, 0, 0, 0, 2, 0xC3, 0x28];
    assert_eq!(Protocol::decode(&bytes), Err(ProtocolError::InvalidUtf8));
}

#[test]
fn store_with_bad_payload_is_invalid_payload() {
    let bytes = vec![
        11, // store tag
        0, 0, 0, 0, 0, 0, 0, 1, b'k', // name frame
        0, 0, 0, 0, 0, 0, 0, 1, // payload frame length
        0xFF, // not a term tag
    ];
    assert_eq!(Protocol::decode(&bytes), Err(ProtocolError::InvalidPayload));
}

#[test]
fn ok_response_with_bad_payload_is_invalid_payload() {
    let bytes = vec![50, 0, 0, 0, 0, 0, 0, 0, 1, 0xFF];
    assert_eq!(response::decode(&bytes), Err(ProtocolError::InvalidPayload));
}

#[test]
fn response_unknown_tag_and_truncation() {
    assert_eq!(response::decode(&[]), Err(ProtocolError::Truncated));
    assert_eq!(response::decode(&[0xFF]), Err(ProtocolError::InvalidTag));
    assert_eq!(response::decode(&[50, 0, 0]), Err(ProtocolError::Truncated));
    assert_eq!(
        response::decode(&[50, 0, 0, 0, 0, 0, 0, 0, 9, 21, 0]),
        Err(ProtocolError::Truncated)
    );
}

#[test]
fn into_protocol_conversions() {
    let fetch: Protocol = Fetch { name: "a".to_string() }.into();
    assert!(matches!(fetch, Protocol::Fetch(_)));
    let store: Protocol = Store { name: "a".to_string(), payload: Term::Bool(true) }.into();
    assert!(matches!(store, Protocol::Store(_)));
    let delete: Protocol = Delete { name: "a".to_string() }.into();
    assert!(matches!(delete, Protocol::Delete(_)));
}

#[test]
fn multibyte_name_roundtrip() {
    let req = Protocol::Fetch(Fetch { name: "ключ✓".to_string() });
    let bytes = req.encode();
    let (back, _) = Protocol::decode(&bytes).expect("multibyte name must decode");
    assert_eq!(back, req);
}

fn roundtrip_via_traits<T>(value: &T) -> T
where
    T: Encode + Decode,
    <T as Decode>::Error: std::fmt::Debug,
{
    let bytes = value.encode();
    let (back, used) = T::decode(&bytes).expect("an encoding must decode");
    assert_eq!(used, bytes.len());
    back
}

#[test]
fn traits_cover_every_message_type() {
    let term = Term::Tuple(
        Box::new(Term::String("pair".to_string())),
        Box::new(Term::Number(3.5f64.to_bits())),
    );
    assert_eq!(roundtrip_via_traits(&term), term);

    let req = Protocol::Store(Store { name: "k".to_string(), payload: Term::Bool(true) });
    assert_eq!(roundtrip_via_traits(&req), req);

    let resp = Response::Value(Term::Bool(false));
    assert_eq!(roundtrip_via_traits(&resp), resp);
}

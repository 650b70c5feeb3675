use termstorage::encoding::Encode;
use termstorage::protocol::{Delete, Fetch, Protocol, Store};
use termstorage::response::{self, Response};
use termstorage::server::{handle, handle_message};
use termstorage::storage::Storage;
use termstorage::term::Term;

fn fetch(name: &str) -> Protocol {
    Protocol::Fetch(Fetch { name: name.to_string() })
}

fn store(name: &str, payload: Term) -> Protocol {
    Protocol::Store(Store { name: name.to_string(), payload })
}

fn delete(name: &str) -> Protocol {
    Protocol::Delete(Delete { name: name.to_string() })
}

#[test]
fn set_then_fetch_returns_value() {
    let mut storage = Storage::new();
    let resp = handle(&mut storage, store("k", Term::Number(42.0f64.to_bits())));
    assert_eq!(resp, Response::Processed);
    let resp = handle(&mut storage, fetch("k"));
    assert_eq!(resp, Response::Value(Term::Number(42.0f64.to_bits())));
}

#[test]
fn fetch_missing_is_not_found() {
    let mut storage = Storage::new();
    let resp = handle(&mut storage, fetch("missing"));
    assert_eq!(resp, Response::NotFound);
}

#[test]
fn set_delete_fetch_is_not_found() {
    let mut storage = Storage::new();
    handle(&mut storage, store("k", Term::Bool(true)));
    let resp = handle(&mut storage, delete("k"));
    assert_eq!(resp, Response::Processed);
    let resp = handle(&mut storage, fetch("k"));
    assert_eq!(resp, Response::NotFound);
}

#[test]
fn delete_never_set_is_processed() {
    let mut storage = Storage::new();
    let resp = handle(&mut storage, delete("never-set"));
    assert_eq!(resp, Response::Processed);
}

#[test]
fn second_set_overwrites() {
    let mut storage = Storage::new();
    handle(&mut storage, store("k", Term::Bool(false)));
    handle(&mut storage, store("k", Term::String("second".to_string())));
    let resp = handle(&mut storage, fetch("k"));
    assert_eq!(resp, Response::Value(Term::String("second".to_string())));
}

#[test]
fn storage_get_returns_clone() {
    let mut storage = Storage::new();
    storage.set("k".to_string(), Term::Tuple(
        Box::new(Term::Bool(true)),
        Box::new(Term::Number(1.0f64.to_bits())),
    ));
    let first = storage.get("k").expect("stored value must be found");
    let second = storage.get("k").expect("stored value must still be found");
    assert_eq!(first, second);
}

#[test]
fn unknown_tag_byte_stream_yields_unprocessed() {
    let mut storage = Storage::new();
    let out = handle_message(&mut storage, &[0xFF]);
    assert_eq!(out, response::encode(Response::Unprocessed));
}

#[test]
fn empty_stream_yields_unprocessed() {
    let mut storage = Storage::new();
    let out = handle_message(&mut storage, &[]);
    assert_eq!(out, response::encode(Response::Unprocessed));
}

#[test]
fn garbled_request_leaves_table_unchanged() {
    let mut storage = Storage::new();
    handle_message(&mut storage, &store("k", Term::Bool(true)).encode());
    handle_message(&mut storage, &[0xFF, 1, 2, 3]);
    let resp = handle(&mut storage, fetch("k"));
    assert_eq!(resp, Response::Value(Term::Bool(true)));
}

#[test]
fn full_exchange_over_bytes() {
    let mut storage = Storage::new();

    let out = handle_message(&mut storage, &store("k", Term::Number(42.0f64.to_bits())).encode());
    assert_eq!(out, response::encode(Response::Processed));

    let out = handle_message(&mut storage, &fetch("k").encode());
    assert_eq!(out, response::encode(Response::Value(Term::Number(42.0f64.to_bits()))));

    let out = handle_message(&mut storage, &delete("k").encode());
    assert_eq!(out, response::encode(Response::Processed));

    let out = handle_message(&mut storage, &fetch("k").encode());
    assert_eq!(out, response::encode(Response::NotFound));
}

#[test]
fn distinct_names_no_lost_updates() {
    // Stores on distinct names commute, so any interleaving ends with all
    // of them present; here each one is applied once, then read back.
    let mut storage = Storage::new();
    let n = 32;
    for i in 0..n {
        let name = format!("name-{i}");
        let out = handle_message(
            &mut storage,
            &store(&name, Term::Number((i as f64).to_bits())).encode(),
        );
        assert_eq!(out, response::encode(Response::Processed));
    }
    for i in 0..n {
        let name = format!("name-{i}");
        let out = handle_message(&mut storage, &fetch(&name).encode());
        assert_eq!(
            out,
            response::encode(Response::Value(Term::Number((i as f64).to_bits())))
        );
    }
}

#[test]
fn unprocessed_reply_bytes() {
    assert_eq!(termstorage::server::unprocessed(), vec![53]);
}

//! Request dispatch: the server's decision logic from decoded request to
//! storage operation and encoded response.
//!
//! The connection plumbing (accepting, reading, writing, one worker per
//! connection) lives outside the library; it hands the bytes of one
//! request to [`handle_message`] and writes the returned response bytes
//! back. Every dispatch path is verified: a fetch hit answers with the
//! stored term, a miss with not-found, a store or delete with processed,
//! and a request that fails to decode with unprocessed — the client always
//! receives exactly one response.

use vstd::prelude::*;

use crate::encoding::Decode;
use crate::protocol::{lemma_parse_request_payload_wf, parse_request, Delete, Fetch, Protocol, ProtocolV, Store};
use crate::response::{response_bytes, Response, ResponseV};
use crate::storage::Storage;
use crate::term::term_wf;

verus! {

/// Answers a fetch: the stored term on a hit, not-found on a miss. The
/// table is not changed.
pub fn handle_fetch(storage: &Storage, fetch: Fetch) -> (r: Response)
    ensures
        storage@.contains_key(fetch.name@) ==> r@ == ResponseV::Value(storage@[fetch.name@]),
        !storage@.contains_key(fetch.name@) ==> r@ == ResponseV::NotFound,
{
    match storage.get(fetch.name.as_str()) {
        Some(term) => Response::Value(term),
        None => Response::NotFound,
    }
}

/// Performs a store: inserts or overwrites the name's binding and always
/// answers processed.
pub fn handle_set(storage: &mut Storage, store: Store) -> (r: Response)
    ensures
        final(storage)@ == old(storage)@.insert(store.name@, store.payload@),
        r@ == ResponseV::Processed,
{
    let Store { name, payload } = store;
    storage.set(name, payload);
    Response::Processed
}

/// Performs a delete: removes the name's binding if present and always
/// answers processed, whether or not the name existed.
pub fn handle_delete(storage: &mut Storage, delete: Delete) -> (r: Response)
    ensures
        final(storage)@ == old(storage)@.remove(delete.name@),
        r@ == ResponseV::Processed,
{
    storage.delete(delete.name.as_str());
    Response::Processed
}

/// Maps one decoded request to exactly one storage operation and its
/// response.
pub fn handle(storage: &mut Storage, prot: Protocol) -> (r: Response)
    ensures
        match prot@ {
            ProtocolV::Fetch { name } => final(storage)@ == old(storage)@ && (old(
                storage,
            )@.contains_key(name) ==> r@ == ResponseV::Value(old(storage)@[name])) && (!old(
                storage,
            )@.contains_key(name) ==> r@ == ResponseV::NotFound),
            ProtocolV::Store { name, payload } => final(storage)@ == old(storage)@.insert(
                name,
                payload,
            ) && r@ == ResponseV::Processed,
            ProtocolV::Delete { name } => final(storage)@ == old(storage)@.remove(name) && r@
                == ResponseV::Processed,
        },
{
    match prot {
        Protocol::Fetch(fetch) => handle_fetch(storage, fetch),
        Protocol::Store(store) => handle_set(storage, store),
        Protocol::Delete(delete) => handle_delete(storage, delete),
    }
}

/// The encoded response sent when a request cannot be decoded.
pub fn unprocessed() -> (r: Vec<u8>)
    ensures
        r@ == response_bytes(ResponseV::Unprocessed),
{
    crate::response::encode(Response::Unprocessed)
}

/// The response bytes owed to one request, as a function of the request
/// bytes and the table before the call.
pub open spec fn message_reply(s: Seq<u8>, m: Map<Seq<char>, crate::term::TermV>) -> Seq<u8> {
    match parse_request(s) {
        Ok((rv, _)) => match rv {
            ProtocolV::Fetch { name } => if m.contains_key(name) {
                response_bytes(ResponseV::Value(m[name]))
            } else {
                response_bytes(ResponseV::NotFound)
            },
            ProtocolV::Store { .. } => response_bytes(ResponseV::Processed),
            ProtocolV::Delete { .. } => response_bytes(ResponseV::Processed),
        },
        Err(_) => response_bytes(ResponseV::Unprocessed),
    }
}

/// The table after one request: unchanged unless the request is a store
/// or a delete that decoded successfully.
pub open spec fn message_table(s: Seq<u8>, m: Map<Seq<char>, crate::term::TermV>) -> Map<
    Seq<char>,
    crate::term::TermV,
> {
    match parse_request(s) {
        Ok((rv, _)) => match rv {
            ProtocolV::Fetch { .. } => m,
            ProtocolV::Store { name, payload } => m.insert(name, payload),
            ProtocolV::Delete { name } => m.remove(name),
        },
        Err(_) => m,
    }
}

/// Serves one connection's worth of work: decodes the request bytes,
/// dispatches on success, and returns the encoded response — the
/// unprocessed reply when decoding fails, in which case the table is
/// untouched.
pub fn handle_message(storage: &mut Storage, request: &[u8]) -> (out: Vec<u8>)
    requires
        old(storage).wf(),
    ensures
        final(storage).wf(),
        final(storage)@ == message_table(request@, old(storage)@),
        out@ == message_reply(request@, old(storage)@),
{
    proof {
        lemma_parse_request_payload_wf(request@);
    }
    match Protocol::decode(request) {
        Ok((prot, _)) => {
            let ghost payload_wf = match prot@ {
                ProtocolV::Store { payload, .. } => term_wf(payload),
                _ => true,
            };
            let resp = handle(storage, prot);
            proof {
                assert(storage.wf()) by {
                    assert forall|name: Seq<char>| storage@.contains_key(name) implies term_wf(
                        #[trigger] storage@[name],
                    ) by {
                        if !old(storage)@.contains_key(name) || storage@[name] != old(
                            storage,
                        )@[name] {
                            assert(payload_wf);
                        }
                    }
                }
            }
            crate::response::encode(resp)
        },
        Err(_) => unprocessed(),
    }
}

} // verus!

//! TLS record framing of single segments, and the short handshake in front of it.

use crate::tunnel::disguise_protocol;
use crate::tunnel::disguise_protocol::{build_tls_client_hello, build_tls_server_hello, encode_tls_record};
use crate::tunnel::fake_tcp::disguise;
use crate::tunnel::fake_tcp::disguise::DisguiseError;
use crate::wire::{append, read_be16};
use vstd::prelude::*;
use vstd::slice::*;
use vstd::string::*;

verus! {

const TLS_RECORD_HEADER_LEN: usize = 5;

/// The content type of application data.
pub const TLS_APP_DATA_TYPE: u8 = 0x17;

const TLS_MAX_RECORD_LEN: usize = 16384;

/// An application data record with the first 16 KiB of `payload`.
pub fn wrap_tls_record(payload: &[u8]) -> (r: Vec<u8>)
    ensures
        ({
            let n = if payload@.len() < 16384 { payload@.len() as int } else { 16384 };
            r@ == disguise_protocol::tls_record(0x17, 3, 3, payload@.take(n))
        }),
{
    let len: usize = if payload.len() < TLS_MAX_RECORD_LEN {
        payload.len()
    } else {
        TLS_MAX_RECORD_LEN
    };
    encode_tls_record(slice_subrange(payload, 0, len))
}

/// The length of the header and of the payload behind it, where `buf` starts with the
/// header of an application data record.
pub fn strip_tls_record_header(buf: &[u8]) -> (r: Option<(usize, usize)>)
    ensures
        r == if buf@.len() >= 5 && buf@[0] == 0x17 && buf@[1] == 0x03 {
            Some((5usize, disguise_protocol::tls_body_len(buf@) as usize))
        } else {
            None
        },
{
    if buf.len() < TLS_RECORD_HEADER_LEN {
        return None;
    }
    if buf[0] != TLS_APP_DATA_TYPE || buf[1] != 0x03 {
        return None;
    }
    let payload_len: usize = read_be16(buf, 3) as usize;
    Some((TLS_RECORD_HEADER_LEN, payload_len))
}

/// The header of a wrapped payload announces the payload.
pub proof fn wrapped_record_is_recognized(payload: Seq<u8>, rest: Seq<u8>)
    requires
        payload.len() <= 16384,
    ensures
        ({
            let buf = disguise_protocol::tls_record(0x17, 3, 3, payload) + rest;
            &&& buf.len() >= 5 && buf[0] == 0x17 && buf[1] == 0x03
            &&& disguise_protocol::tls_body_len(buf) == payload.len()
            &&& buf.subrange(5, 5 + payload.len() as int) == payload
        }),
{
    disguise_protocol::tls_record_round_trip(payload, rest);
}

/// A ChangeCipherSpec record.
pub fn build_change_cipher_spec() -> (r: Vec<u8>)
    ensures
        r@ == disguise_protocol::change_cipher_spec(),
{
    let r: Vec<u8> = vec![0x14, 0x03, 0x03, 0x00, 0x01, 0x01];
    assert(r@ =~= disguise_protocol::change_cipher_spec());
    r
}

/// The first segment of a client: its ClientHello.
pub fn client_first_flight(host: &str) -> (r: Vec<u8>)
    ensures
        exists|seed: disguise_protocol::ClientHelloSeed|
            r@ == #[trigger] disguise_protocol::client_hello(host.spec_bytes(), seed),
{
    build_tls_client_hello(host)
}

/// Judges what a peer sent first: a handshake record, or something else.
pub fn check_hello(received: &[u8], from_server: bool) -> (r: Result<(), DisguiseError>)
    ensures
        r == if received@.len() > 0 && received@[0] == 0x16 {
            Ok::<(), DisguiseError>(())
        } else if from_server {
            Err(DisguiseError::InvalidServerHello)
        } else {
            Err(DisguiseError::InvalidClientHello)
        },
{
    if received.len() > 0 && received[0] == 0x16 {
        Ok(())
    } else if from_server {
        Err(DisguiseError::InvalidServerHello)
    } else {
        Err(DisguiseError::InvalidClientHello)
    }
}

/// The session id in a received ClientHello: unlike in a stream, one of no bytes at the
/// very end of the segment counts as absent.
pub open spec fn segment_session_id(buf: Seq<u8>) -> Option<Seq<u8>> {
    if buf.len() > 44 && buf.len() >= 44 + buf[43] {
        Some(buf.subrange(44, 44 + buf[43]))
    } else {
        None
    }
}

/// The server's answer to a ClientHello: a ServerHello that echoes the session id, and a
/// ChangeCipherSpec record.
pub fn server_answer(received: &[u8]) -> (r: Result<Vec<u8>, DisguiseError>)
    ensures
        received@.len() == 0 || received@[0] != 0x16 ==> r == Err::<Vec<u8>, DisguiseError>(
            DisguiseError::InvalidClientHello,
        ),
        received@.len() > 0 && received@[0] == 0x16 ==> (r matches Ok(flight) && exists|
            random: Seq<u8>,
            sid: Seq<u8>,
            pubkey: Seq<u8>,
        |
            #![trigger disguise_protocol::server_hello(random, sid, pubkey)]
            {
                &&& random.len() == 32 && pubkey.len() == 32
                &&& match segment_session_id(received@) {
                    Some(s) => sid == s,
                    None => sid.len() == 32,
                }
                &&& flight@ == disguise_protocol::server_hello(random, sid, pubkey)
                    + disguise_protocol::change_cipher_spec()
            }),
{
    match check_hello(received, false) {
        Err(e) => Err(e),
        Ok(()) => {
            let mut session_id: Option<&[u8]> = None;
            if received.len() > 44 {
                let sid_len: usize = received[43] as usize;
                if received.len() >= 44 + sid_len {
                    session_id = Some(slice_subrange(received, 44, 44 + sid_len));
                }
            }
            let mut combined = build_tls_server_hello(session_id);
            let ccs = build_change_cipher_spec();
            append(&mut combined, &ccs);
            Ok(combined)
        },
    }
}

} // verus!

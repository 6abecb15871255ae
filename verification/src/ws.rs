//! WebSocket handshake and framing values: the accept key derived from a
//! client's nonce, and single-frame text messages. Sockets and the handshake
//! I/O belong to the unverified shell.

use crate::encoding::base64_chars;
use crate::encoding::base64_encode;
use crate::encoding::be_u64_bytes;
use crate::encoding::sha1_of;
use crate::encoding::Sha1;
use vstd::prelude::*;
use vstd::slice::slice_index_get;
use vstd::string::StringSliceAdditionalSpecFns;

verus! {

/// The fixed globally-unique identifier appended to a client's nonce before
/// hashing: "258EAFA5-E914-47DA-95CA-C5AB0DC85B11".
pub open spec fn handshake_guid() -> Seq<u8> {
    seq![
        50u8,
        53,
        56,
        69,
        65,
        70,
        65,
        53,
        45,
        69,
        57,
        49,
        52,
        45,
        52,
        55,
        68,
        65,
        45,
        57,
        53,
        67,
        65,
        45,
        67,
        53,
        65,
        66,
        48,
        68,
        67,
        56,
        53,
        66,
        49,
        49,
    ]
}

/// The accept key answering a client nonce: the base64 text of the SHA-1
/// digest of the nonce followed by the fixed handshake identifier.
pub fn generate_accept_key(key: &str) -> (r: String)
    requires
        key.spec_bytes().len() + 200 <= usize::MAX,
        key.spec_bytes().len() * 8 + 2048 < 0x10000000000000000,
    ensures
        r@ == base64_chars(sha1_of(key.spec_bytes() + handshake_guid())),
{
    let key_bytes = key.as_bytes();
    let mut input = vstd::slice::slice_to_vec(key_bytes);
    let guid = [
        50u8,
        53,
        56,
        69,
        65,
        70,
        65,
        53,
        45,
        69,
        57,
        49,
        52,
        45,
        52,
        55,
        68,
        65,
        45,
        57,
        53,
        67,
        65,
        45,
        67,
        53,
        65,
        66,
        48,
        68,
        67,
        56,
        53,
        66,
        49,
        49,
    ];
    let mut g: usize = 0;
    #[verifier::loop_isolation(false)]
    while g < 36
        invariant
            g <= 36,
            guid@.len() == 36,
            input@ == key.spec_bytes() + guid@.take(g as int),
        decreases 36 - g,
    {
        input.push(guid[g]);
        proof {
            assert(key.spec_bytes() + guid@.take(g + 1) =~= (key.spec_bytes() + guid@.take(
                g as int,
            )).push(guid@[g as int]));
        }
        g = g + 1;
    }
    proof {
        assert(guid@.take(36) =~= guid@);
        assert(guid@ =~= handshake_guid());
    }
    let digest = Sha1::hash(input.as_slice());
    base64_encode(digest.as_slice())
}

/// A single unmasked text frame carrying `msg`: the text opcode with the
/// final-fragment bit, the payload length in its shortest form, then the
/// payload itself.
pub open spec fn ws_frame(msg: Seq<u8>) -> Seq<u8> {
    let l = msg.len() as int;
    if l <= 125 {
        seq![0x81u8, l as u8] + msg
    } else if l <= 65535 {
        seq![0x81u8, 126u8, ((l / 0x100) % 0x100) as u8, (l % 0x100) as u8] + msg
    } else {
        seq![0x81u8, 127u8] + be_u64_bytes(l) + msg
    }
}

/// Builds the frame that carries `msg` as one text message.
pub fn websocket_frame(msg: &[u8]) -> (r: Vec<u8>)
    ensures
        r@ == ws_frame(msg@),
{
    let n = msg.len();
    let mut out: Vec<u8> = Vec::new();
    out.push(0x81);
    if n <= 125 {
        out.push(n as u8);
        proof {
            assert(out@ =~= seq![0x81u8, n as u8]);
        }
    } else if n <= 65535 {
        out.push(126);
        out.push(((n / 0x100) % 0x100) as u8);
        out.push((n % 0x100) as u8);
        proof {
            assert(out@ =~= seq![0x81u8, 126u8, ((n / 0x100) % 0x100) as u8, (n % 0x100) as u8]);
        }
    } else {
        out.push(127);
        let ln = n as u64;
        out.push(((ln / 0x100000000000000) % 0x100) as u8);
        out.push(((ln / 0x1000000000000) % 0x100) as u8);
        out.push(((ln / 0x10000000000) % 0x100) as u8);
        out.push(((ln / 0x100000000) % 0x100) as u8);
        out.push(((ln / 0x1000000) % 0x100) as u8);
        out.push(((ln / 0x10000) % 0x100) as u8);
        out.push(((ln / 0x100) % 0x100) as u8);
        out.push((ln % 0x100) as u8);
        proof {
            assert(out@ =~= seq![0x81u8, 127u8] + be_u64_bytes(n as int));
        }
    }
    let ghost header = out@;
    let mut i: usize = 0;
    #[verifier::loop_isolation(false)]
    while i < n
        invariant
            i <= n,
            out@ == header + msg@.take(i as int),
        decreases n - i,
    {
        out.push(*slice_index_get(msg, i));
        proof {
            assert(header + msg@.take(i + 1) =~= (header + msg@.take(i as int)).push(
                msg@[i as int],
            ));
        }
        i = i + 1;
    }
    proof {
        assert(msg@.take(n as int) =~= msg@);
        assert(header + msg@ =~= ws_frame(msg@));
    }
    out
}

} // verus!

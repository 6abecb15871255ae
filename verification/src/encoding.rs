//! Binary-to-text encoding and hashing: standard base64 and SHA-1, both
//! specified functionally and computed by verified code.

use vstd::prelude::*;
use vstd::slice::slice_index_get;

verus! {

/// The base64 alphabet: letter `v` of the standard table, for `v < 64`.
pub open spec fn b64_letter(v: int) -> u8 {
    if v < 26 {
        (65 + v) as u8  // 'A'..'Z'
    } else if v < 52 {
        (97 + v - 26) as u8  // 'a'..'z'
    } else if v < 62 {
        (48 + v - 52) as u8  // '0'..'9'
    } else if v == 62 {
        43u8  // '+'
    } else {
        47u8  // '/'
    }
}

/// The four output bytes encoding one chunk of one to three input bytes,
/// with `=` padding for short chunks.
pub open spec fn b64_chunk(c: Seq<u8>) -> Seq<u8>
    recommends
        1 <= c.len() <= 3,
{
    let b1 = if c.len() > 1 {
        c[1] as int
    } else {
        0
    };
    let b2 = if c.len() > 2 {
        c[2] as int
    } else {
        0
    };
    let n = c[0] * 0x10000 + b1 * 0x100 + b2;
    seq![
        b64_letter((n / 0x40000) % 64),
        b64_letter((n / 0x1000) % 64),
        if c.len() > 1 {
            b64_letter((n / 0x40) % 64)
        } else {
            61u8  // '='
        },
        if c.len() > 2 {
            b64_letter(n % 64)
        } else {
            61u8  // '='
        },
    ]
}

/// The base64 encoding of a byte string: four output bytes per chunk of
/// three input bytes, the last chunk padded.
pub open spec fn base64_of(s: Seq<u8>) -> Seq<u8>
    decreases s.len(),
{
    if s.len() == 0 {
        Seq::empty()
    } else if s.len() <= 3 {
        b64_chunk(s)
    } else {
        b64_chunk(s.take(3)) + base64_of(s.skip(3))
    }
}

/// The base64 encoding as text: its bytes read as characters, which is exact
/// because every base64 output byte is ASCII.
pub open spec fn base64_chars(s: Seq<u8>) -> Seq<char> {
    base64_of(s).map_values(|b: u8| b as char)
}

/// Relies on `String::from_utf8`: bytes below 128 are valid UTF-8 and decode
/// to one character each, the character with that code.
#[verifier::external_body]
fn ascii_to_string(v: Vec<u8>) -> (s: String)
    requires
        forall|i: int| 0 <= i < v@.len() ==> v@[i] < 128,
    ensures
        s@ == v@.map_values(|b: u8| b as char),
{
    String::from_utf8(v).unwrap_or_default()
}

/// Letter `v` of the base64 table.
fn b64_letter_of(v: u32) -> (r: u8)
    requires
        v < 64,
    ensures
        r == b64_letter(v as int),
        r < 128,
{
    if v < 26 {
        65 + v as u8
    } else if v < 52 {
        97 + (v as u8 - 26)
    } else if v < 62 {
        48 + (v as u8 - 52)
    } else if v == 62 {
        43
    } else {
        47
    }
}

/// Encodes `input` as standard base64 text.
#[verifier::rlimit(50)]
pub fn base64_encode(input: &[u8]) -> (r: String)
    ensures
        r@ == base64_chars(input@),
{
    let n = input.len();
    let mut out: Vec<u8> = Vec::new();
    let mut i: usize = 0;
    proof {
        assert(input@.skip(0) =~= input@);
    }
    #[verifier::loop_isolation(false)]
    while i < n
        invariant
            i <= n,
            base64_of(input@) == out@ + base64_of(input@.skip(i as int)),
            forall|j: int| 0 <= j < out@.len() ==> out@[j] < 128,
        decreases n - i,
    {
        let chunk_size = if n - i < 3 {
            n - i
        } else {
            3
        };
        let c0 = *slice_index_get(input, i) as u32;
        let c1 = if chunk_size > 1 {
            *slice_index_get(input, i + 1) as u32
        } else {
            0
        };
        let c2 = if chunk_size > 2 {
            *slice_index_get(input, i + 2) as u32
        } else {
            0
        };
        let nv = c0 * 0x10000 + c1 * 0x100 + c2;
        let ghost rest = input@.skip(i as int);
        let ghost chunk = if rest.len() <= 3 {
            rest
        } else {
            rest.take(3)
        };
        proof {
            assert(chunk.len() == chunk_size);
            assert(chunk[0] == input@[i as int]);
            if chunk.len() > 1 {
                assert(chunk[1] == input@[i as int + 1]);
            }
            if chunk.len() > 2 {
                assert(chunk[2] == input@[i as int + 2]);
            }
            assert(nv == chunk[0] * 0x10000 + (if chunk.len() > 1 {
                chunk[1] as int
            } else {
                0
            }) * 0x100 + (if chunk.len() > 2 {
                chunk[2] as int
            } else {
                0
            }));
            assert(nv < 0x1000000);
            assert(nv / 0x40000 == (nv / 0x40000) % 64);
        }
        let e0 = b64_letter_of(nv / 0x40000);
        let e1 = b64_letter_of((nv / 0x1000) % 64);
        let e2 = if chunk_size > 1 {
            b64_letter_of((nv / 0x40) % 64)
        } else {
            61u8
        };
        let e3 = if chunk_size > 2 {
            b64_letter_of(nv % 64)
        } else {
            61u8
        };
        proof {
            assert(e0 == b64_chunk(chunk)[0]);
            assert(e1 == b64_chunk(chunk)[1]);
            assert(e2 == b64_chunk(chunk)[2]);
            assert(e3 == b64_chunk(chunk)[3]);
        }
        out.push(e0);
        out.push(e1);
        out.push(e2);
        out.push(e3);
        proof {
            assert(out@.subrange(out@.len() - 4, out@.len() as int) =~= b64_chunk(chunk));
            if rest.len() > 3 {
                assert(rest.skip(3) =~= input@.skip(i as int + 3));
                assert(base64_of(rest) == b64_chunk(chunk) + base64_of(input@.skip(i as int + 3)));
            } else {
                assert(input@.skip(i as int + chunk_size as int) =~= Seq::<u8>::empty());
                assert(base64_of(rest) == b64_chunk(chunk));
            }
            assert(base64_of(input@) == out@ + base64_of(
                input@.skip(i as int + chunk_size as int),
            ));
        }
        i = i + chunk_size;
    }
    proof {
        assert(input@.skip(n as int) =~= Seq::<u8>::empty());
        assert(base64_of(input@) =~= out@);
    }
    ascii_to_string(out)
}

/// The big-endian 32-bit value held by the four bytes of `s`.
pub open spec fn be_u32(s: Seq<u8>) -> int
    recommends
        s.len() == 4,
{
    s[0] * 0x1000000 + s[1] * 0x10000 + s[2] * 0x100 + s[3]
}

/// Reduction of an integer to a 32-bit word.
pub open spec fn u32_mod(n: int) -> u32 {
    (n % 0x100000000) as u32
}

/// Left rotation of a 32-bit word by `n` places.
pub open spec fn rotl(x: u32, n: u32) -> u32
    recommends
        1 <= n <= 31,
{
    (x << n) | (x >> ((32 - n) as u32))
}

/// Word `t` of the message schedule of one 64-byte block.
pub open spec fn sha1_w(block: Seq<u8>, t: int) -> u32
    recommends
        block.len() == 64,
        0 <= t < 80,
    decreases t,
{
    if t < 16 {
        u32_mod(be_u32(block.subrange(4 * t, 4 * t + 4)))
    } else {
        rotl(
            sha1_w(block, t - 3) ^ sha1_w(block, t - 8) ^ sha1_w(block, t - 14) ^ sha1_w(
                block,
                t - 16,
            ),
            1,
        )
    }
}

/// The mixing function of round `t`.
pub open spec fn sha1_f(t: int, b: u32, c: u32, d: u32) -> u32 {
    if t < 20 {
        (b & c) | ((b ^ 0xFFFFFFFFu32) & d)
    } else if t < 40 {
        b ^ c ^ d
    } else if t < 60 {
        (b & c) | (b & d) | (c & d)
    } else {
        b ^ c ^ d
    }
}

/// The round constant of round `t`.
pub open spec fn sha1_k(t: int) -> u32 {
    if t < 20 {
        0x5A827999u32
    } else if t < 40 {
        0x6ED9EBA1u32
    } else if t < 60 {
        0x8F1BBCDCu32
    } else {
        0xCA62C1D6u32
    }
}

/// One round: the working state after round `t`, from the state before it.
pub open spec fn sha1_round(block: Seq<u8>, st: (u32, u32, u32, u32, u32), t: int) -> (
    u32,
    u32,
    u32,
    u32,
    u32,
) {
    let temp = u32_mod(
        rotl(st.0, 5) + sha1_f(t, st.1, st.2, st.3) + st.4 + sha1_w(block, t) + sha1_k(t),
    );
    (temp, st.0, rotl(st.1, 30), st.2, st.3)
}

/// The working state after the first `t` rounds on one block.
pub open spec fn sha1_state(block: Seq<u8>, h: (u32, u32, u32, u32, u32), t: int) -> (
    u32,
    u32,
    u32,
    u32,
    u32,
)
    decreases t,
{
    if t <= 0 {
        h
    } else {
        sha1_round(block, sha1_state(block, h, t - 1), t - 1)
    }
}

/// The chaining value after compressing one 64-byte block into `h`.
pub open spec fn sha1_compress(h: Seq<u32>, block: Seq<u8>) -> Seq<u32>
    recommends
        h.len() == 5,
        block.len() == 64,
{
    let st = sha1_state(block, (h[0], h[1], h[2], h[3], h[4]), 80);
    seq![
        u32_mod(h[0] + st.0),
        u32_mod(h[1] + st.1),
        u32_mod(h[2] + st.2),
        u32_mod(h[3] + st.3),
        u32_mod(h[4] + st.4),
    ]
}

/// The initial chaining value.
pub open spec fn sha1_init() -> Seq<u32> {
    seq![0x67452301u32, 0xEFCDAB89u32, 0x98BADCFEu32, 0x10325476u32, 0xC3D2E1F0u32]
}

/// The chaining value after compressing every whole 64-byte block of `msg`
/// into `h`, in order.
pub open spec fn sha1_blocks(h: Seq<u32>, msg: Seq<u8>) -> Seq<u32>
    decreases msg.len(),
{
    if msg.len() < 64 {
        h
    } else {
        sha1_blocks(sha1_compress(h, msg.take(64)), msg.skip(64))
    }
}

/// The eight big-endian bytes of a 64-bit value.
pub open spec fn be_u64_bytes(v: int) -> Seq<u8> {
    seq![
        ((v / 0x100000000000000) % 0x100) as u8,
        ((v / 0x1000000000000) % 0x100) as u8,
        ((v / 0x10000000000) % 0x100) as u8,
        ((v / 0x100000000) % 0x100) as u8,
        ((v / 0x1000000) % 0x100) as u8,
        ((v / 0x10000) % 0x100) as u8,
        ((v / 0x100) % 0x100) as u8,
        (v % 0x100) as u8,
    ]
}

/// The four big-endian bytes of a 32-bit word.
pub open spec fn be_u32_bytes(x: u32) -> Seq<u8> {
    seq![
        (x / 0x1000000) as u8,
        ((x / 0x10000) % 0x100) as u8,
        ((x / 0x100) % 0x100) as u8,
        (x % 0x100) as u8,
    ]
}

/// The message extended to a whole number of blocks: a marker byte, zeros,
/// and the message's bit length in the last eight bytes.
pub open spec fn sha1_pad(msg: Seq<u8>) -> Seq<u8> {
    let zeros: int = if msg.len() % 64 < 56 {
        55 - msg.len() % 64
    } else {
        119 - msg.len() % 64
    };
    msg + seq![0x80u8] + Seq::new(zeros as nat, |i: int| 0u8) + be_u64_bytes(8 * msg.len() as int)
}

/// The SHA-1 digest of a message: the chaining value after compressing the
/// padded message, written out big-endian.
pub open spec fn sha1_of(msg: Seq<u8>) -> Seq<u8> {
    let h = sha1_blocks(sha1_init(), sha1_pad(msg));
    be_u32_bytes(h[0]) + be_u32_bytes(h[1]) + be_u32_bytes(h[2]) + be_u32_bytes(h[3])
        + be_u32_bytes(h[4])
}

/// Compressing the blocks of a concatenation compresses the first part's
/// blocks, then the second's.
proof fn lemma_sha1_blocks_append(h: Seq<u32>, x: Seq<u8>, y: Seq<u8>)
    requires
        x.len() % 64 == 0,
    ensures
        sha1_blocks(h, x + y) == sha1_blocks(sha1_blocks(h, x), y),
    decreases x.len(),
{
    if x.len() == 0 {
        assert(x + y =~= y);
    } else {
        assert(x.len() >= 64);
        assert((x + y).take(64) =~= x.take(64));
        assert((x + y).skip(64) =~= x.skip(64) + y);
        assert(x.skip(64).len() % 64 == 0);
        lemma_sha1_blocks_append(sha1_compress(h, x.take(64)), x.skip(64), y);
    }
}

/// The 20 digest bytes of a chaining value, big-endian word by word.
fn digest_bytes(h: &[u32; 5]) -> (r: [u8; 20])
    ensures
        r@ == be_u32_bytes(h@[0]) + be_u32_bytes(h@[1]) + be_u32_bytes(h@[2]) + be_u32_bytes(
            h@[3],
        ) + be_u32_bytes(h@[4]),
{
    let mut r = [0u8; 20];
    r[0] = (h[0] / 0x1000000) as u8;
    r[1] = ((h[0] / 0x10000) % 0x100) as u8;
    r[2] = ((h[0] / 0x100) % 0x100) as u8;
    r[3] = (h[0] % 0x100) as u8;
    r[4] = (h[1] / 0x1000000) as u8;
    r[5] = ((h[1] / 0x10000) % 0x100) as u8;
    r[6] = ((h[1] / 0x100) % 0x100) as u8;
    r[7] = (h[1] % 0x100) as u8;
    r[8] = (h[2] / 0x1000000) as u8;
    r[9] = ((h[2] / 0x10000) % 0x100) as u8;
    r[10] = ((h[2] / 0x100) % 0x100) as u8;
    r[11] = (h[2] % 0x100) as u8;
    r[12] = (h[3] / 0x1000000) as u8;
    r[13] = ((h[3] / 0x10000) % 0x100) as u8;
    r[14] = ((h[3] / 0x100) % 0x100) as u8;
    r[15] = (h[3] % 0x100) as u8;
    r[16] = (h[4] / 0x1000000) as u8;
    r[17] = ((h[4] / 0x10000) % 0x100) as u8;
    r[18] = ((h[4] / 0x100) % 0x100) as u8;
    r[19] = (h[4] % 0x100) as u8;
    proof {
        assert(r@ =~= be_u32_bytes(h@[0]) + be_u32_bytes(h@[1]) + be_u32_bytes(h@[2])
            + be_u32_bytes(h@[3]) + be_u32_bytes(h@[4]));
    }
    r
}

/// An incremental SHA-1 hasher: a partial block buffer, the number of bytes
/// absorbed, and the chaining value over the whole blocks absorbed so far.
pub struct Sha1 {
    data: [u8; 64],
    length: usize,
    h: [u32; 5],
    absorbed: Ghost<Seq<u8>>,
}

impl Sha1 {
    /// Every byte this hasher has absorbed, in order.
    pub closed spec fn bytes(&self) -> Seq<u8> {
        self.absorbed@
    }

    /// The hasher's invariant: the length counts the absorbed bytes, the
    /// chaining value digests their whole blocks, and the buffer holds the
    /// remainder.
    pub closed spec fn wf(&self) -> bool {
        &&& self.absorbed@.len() == self.length
        &&& self.h@ == sha1_blocks(
            sha1_init(),
            self.absorbed@.take(self.length as int - (self.length as int % 64)),
        )
        &&& self.data@.subrange(0, self.length as int % 64) == self.absorbed@.skip(
            self.length as int - (self.length as int % 64),
        )
    }

    /// A hasher that has absorbed nothing.
    pub fn new() -> (s: Self)
        ensures
            s.wf(),
            s.bytes() == Seq::<u8>::empty(),
    {
        let s = Sha1 {
            data: [0u8; 64],
            length: 0,
            h: [0x67452301u32, 0xEFCDAB89u32, 0x98BADCFEu32, 0x10325476u32, 0xC3D2E1F0u32],
            absorbed: Ghost(Seq::empty()),
        };
        proof {
            assert(s.h@ =~= sha1_init());
            assert(s.absorbed@.take(0) =~= Seq::<u8>::empty());
            assert(s.data@.subrange(0, 0) =~= s.absorbed@.skip(0));
        }
        s
    }

    /// The digest of `data` in one call.
    pub fn hash(data: &[u8]) -> (r: [u8; 20])
        requires
            data@.len() * 8 < 0x10000000000000000,
            data@.len() + 129 <= usize::MAX,
        ensures
            r@ == sha1_of(data@),
    {
        let mut hasher = Self::new();
        hasher.update(data);
        hasher.finalize()
    }

    /// Absorbs `input`, compressing each block as it fills.
    #[verifier::rlimit(100)]
    pub fn update(&mut self, input: &[u8])
        requires
            old(self).wf(),
            old(self).bytes().len() + input@.len() <= usize::MAX,
        ensures
            final(self).wf(),
            final(self).bytes() == old(self).bytes() + input@,
    {
        let n = input.len();
        let mut i: usize = 0;
        proof {
            assert(old(self).bytes() + input@.take(0) =~= old(self).bytes());
        }
        #[verifier::loop_isolation(false)]
        while i < n
            invariant
                i <= n,
                self.wf(),
                self.bytes() == old(self).bytes() + input@.take(i as int),
            decreases n - i,
        {
            let ghost pre = *self;
            let pos = self.length % 64;
            let b = *slice_index_get(input, i);
            self.data[pos] = b;
            self.length = self.length + 1;
            self.absorbed = Ghost(self.absorbed@.push(b));
            proof {
                let m = pre.length as int % 64;
                let boundary = pre.length as int - m;
                assert(self.absorbed@.skip(boundary) =~= pre.absorbed@.skip(boundary).push(b));
                assert(self.absorbed@.take(boundary) =~= pre.absorbed@.take(boundary));
                if self.length as int % 64 != 0 {
                    assert(self.length as int % 64 == m + 1);
                    assert(self.length as int - (self.length as int % 64) == boundary);
                    assert(self.data@.subrange(0, m + 1) =~= pre.data@.subrange(0, m).push(b));
                } else {
                    assert(m == 63);
                    assert(self.data@.subrange(0, 64) =~= pre.data@.subrange(0, 63).push(b));
                    assert(self.data@.subrange(0, 64) =~= self.data@);
                }
            }
            if self.length % 64 == 0 {
                let ghost processed = self.absorbed@.take(self.length as int - 64);
                let ghost block = self.data@;
                proof {
                    assert(block =~= self.absorbed@.skip(self.length as int - 64));
                    assert(self.absorbed@.take(self.length as int) =~= processed + block);
                    assert(processed.len() % 64 == 0);
                }
                self.process_block();
                proof {
                    lemma_sha1_blocks_append(sha1_init(), processed, block);
                    let h2 = sha1_blocks(sha1_init(), processed);
                    assert(block.take(64) =~= block);
                    assert(block.skip(64) =~= Seq::<u8>::empty());
                    assert(sha1_blocks(h2, block) == sha1_blocks(
                        sha1_compress(h2, block.take(64)),
                        block.skip(64),
                    ));
                    assert(sha1_blocks(sha1_compress(h2, block), Seq::<u8>::empty())
                        == sha1_compress(h2, block));
                    assert(sha1_blocks(sha1_blocks(sha1_init(), processed), block)
                        == sha1_compress(sha1_blocks(sha1_init(), processed), block));
                    assert(self.data@.subrange(0, 0) =~= self.absorbed@.skip(
                        self.length as int,
                    ));
                }
            }
            proof {
                assert(old(self).bytes() + input@.take(i + 1) =~= (old(self).bytes()
                    + input@.take(i as int)).push(input@[i as int]));
            }
            i = i + 1;
        }
        proof {
            assert(input@.take(n as int) =~= input@);
        }
    }

    /// Pads the absorbed message and returns its digest.
    #[verifier::rlimit(100)]
    pub fn finalize(&mut self) -> (r: [u8; 20])
        requires
            old(self).wf(),
            old(self).bytes().len() * 8 < 0x10000000000000000,
            old(self).bytes().len() + 129 <= usize::MAX,
        ensures
            final(self).wf(),
            r@ == sha1_of(old(self).bytes()),
    {
        let ghost msg = self.absorbed@;
        let bit_len: u64 = (self.length as u64) * 8;
        let pad_len: usize = if self.length % 64 < 56 {
            56 - self.length % 64
        } else {
            120 - self.length % 64
        };
        let marker = [0x80u8];
        self.update(marker.as_slice());
        let mut zeros: Vec<u8> = Vec::new();
        let mut z: usize = 0;
        #[verifier::loop_isolation(false)]
        while z < pad_len - 1
            invariant
                z <= pad_len - 1,
                zeros@.len() == z,
                forall|j: int| 0 <= j < z ==> zeros@[j] == 0u8,
            decreases pad_len - 1 - z,
        {
            zeros.push(0u8);
            z = z + 1;
        }
        self.update(zeros.as_slice());
        let lenbytes = [
            ((bit_len / 0x100000000000000) % 0x100) as u8,
            ((bit_len / 0x1000000000000) % 0x100) as u8,
            ((bit_len / 0x10000000000) % 0x100) as u8,
            ((bit_len / 0x100000000) % 0x100) as u8,
            ((bit_len / 0x1000000) % 0x100) as u8,
            ((bit_len / 0x10000) % 0x100) as u8,
            ((bit_len / 0x100) % 0x100) as u8,
            (bit_len % 0x100) as u8,
        ];
        self.update(lenbytes.as_slice());
        proof {
            assert(marker@ =~= seq![0x80u8]);
            assert(zeros@ =~= Seq::new(
                (if msg.len() % 64 < 56 {
                    55 - msg.len() % 64
                } else {
                    119 - msg.len() % 64
                }) as nat,
                |j: int| 0u8,
            ));
            assert(lenbytes@ =~= be_u64_bytes(8 * msg.len() as int));
            assert(self.absorbed@ =~= sha1_pad(msg));
            assert(self.length as int % 64 == 0) by {
                vstd::arithmetic::div_mod::lemma_fundamental_div_mod(msg.len() as int, 64);
                vstd::arithmetic::div_mod::lemma_mod_multiples_basic(
                    (msg.len() as int / 64) + 1,
                    64,
                );
                vstd::arithmetic::div_mod::lemma_mod_multiples_basic(
                    (msg.len() as int / 64) + 2,
                    64,
                );
            }
            assert(self.absorbed@.take(self.length as int) =~= self.absorbed@);
            assert(self.h@ == sha1_blocks(sha1_init(), sha1_pad(msg)));
        }
        let r = digest_bytes(&self.h);
        proof {
            assert(r@ =~= sha1_of(msg));
        }
        r
    }

    /// Compresses the buffered block into the chaining value.
    fn process_block(&mut self)
        ensures
            final(self).h@ == sha1_compress(old(self).h@, old(self).data@),
            final(self).data == old(self).data,
            final(self).length == old(self).length,
            final(self).absorbed == old(self).absorbed,
    {
        let ghost block = self.data@;
        let mut w: [u32; 80] = [0u32; 80];
        let mut t: usize = 0;
        #[verifier::loop_isolation(false)]
        while t < 16
            invariant
                t <= 16,
                *self == *old(self),
                forall|j: int| 0 <= j < t ==> w@[j] == sha1_w(block, j),
            decreases 16 - t,
        {
            let b0 = self.data[4 * t] as u32;
            let b1 = self.data[4 * t + 1] as u32;
            let b2 = self.data[4 * t + 2] as u32;
            let b3 = self.data[4 * t + 3] as u32;
            let v = b0 * 0x1000000 + b1 * 0x10000 + b2 * 0x100 + b3;
            w[t] = v;
            proof {
                let s = block.subrange(4 * t as int, 4 * t as int + 4);
                assert(s[0] == block[4 * t as int]);
                assert(s[1] == block[4 * t as int + 1]);
                assert(s[2] == block[4 * t as int + 2]);
                assert(s[3] == block[4 * t as int + 3]);
                assert(v == u32_mod(be_u32(s)));
            }
            t = t + 1;
        }
        #[verifier::loop_isolation(false)]
        while t < 80
            invariant
                16 <= t <= 80,
                *self == *old(self),
                forall|j: int| 0 <= j < t ==> w@[j] == sha1_w(block, j),
            decreases 80 - t,
        {
            let x = w[t - 3] ^ w[t - 8] ^ w[t - 14] ^ w[t - 16];
            let v = (x << 1u32) | (x >> 31u32);
            w[t] = v;
            proof {
                assert(x == sha1_w(block, t as int - 3) ^ sha1_w(block, t as int - 8) ^ sha1_w(
                    block,
                    t as int - 14,
                ) ^ sha1_w(block, t as int - 16));
                assert(v == rotl(x, 1));
                assert(v == sha1_w(block, t as int));
            }
            t = t + 1;
        }
        let mut a = self.h[0];
        let mut b = self.h[1];
        let mut c = self.h[2];
        let mut d = self.h[3];
        let mut e = self.h[4];
        let ghost h0 = (a, b, c, d, e);
        let mut t: usize = 0;
        #[verifier::loop_isolation(false)]
        while t < 80
            invariant
                t <= 80,
                *self == *old(self),
                forall|j: int| 0 <= j < 80 ==> w@[j] == sha1_w(block, j),
                (a, b, c, d, e) == sha1_state(block, h0, t as int),
            decreases 80 - t,
        {
            let (f, k): (u32, u32) = if t < 20 {
                ((b & c) | ((b ^ 0xFFFFFFFFu32) & d), 0x5A827999u32)
            } else if t < 40 {
                (b ^ c ^ d, 0x6ED9EBA1u32)
            } else if t < 60 {
                ((b & c) | (b & d) | (c & d), 0x8F1BBCDCu32)
            } else {
                (b ^ c ^ d, 0xCA62C1D6u32)
            };
            let rot_a = (a << 5u32) | (a >> 27u32);
            let temp = ((rot_a as u64 + f as u64 + e as u64 + w[t] as u64 + k as u64)
                % 0x100000000) as u32;
            proof {
                assert(f == sha1_f(t as int, b, c, d));
                assert(k == sha1_k(t as int));
                assert(rot_a == rotl(a, 5));
                assert(temp == u32_mod(
                    rotl(a, 5) + sha1_f(t as int, b, c, d) + e + sha1_w(block, t as int) + sha1_k(
                        t as int,
                    ),
                ));
            }
            e = d;
            d = c;
            c = (b << 30u32) | (b >> 2u32);
            b = a;
            a = temp;
            proof {
                assert(c == rotl(sha1_state(block, h0, t as int).1, 30));
                assert((a, b, c, d, e) == sha1_round(
                    block,
                    sha1_state(block, h0, t as int),
                    t as int,
                ));
            }
            t = t + 1;
        }
        self.h[0] = ((self.h[0] as u64 + a as u64) % 0x100000000) as u32;
        self.h[1] = ((self.h[1] as u64 + b as u64) % 0x100000000) as u32;
        self.h[2] = ((self.h[2] as u64 + c as u64) % 0x100000000) as u32;
        self.h[3] = ((self.h[3] as u64 + d as u64) % 0x100000000) as u32;
        self.h[4] = ((self.h[4] as u64 + e as u64) % 0x100000000) as u32;
        proof {
            assert(self.h@ =~= sha1_compress(old(self).h@, old(self).data@));
        }
    }
}

} // verus!


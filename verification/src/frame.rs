//! RFC 6455 base framing: a bit-exact model of the wire format, a streaming
//! decoder, an encoder, and header-only introspection helpers.
//!
//! The wire layout is: byte 0 carries the FIN bit (bit 7) and the 4-bit
//! opcode; byte 1 carries the mask bit (bit 7) and a 7-bit length indicator.
//! An indicator of 126 means a 16-bit big-endian extended length follows,
//! 127 means a 64-bit big-endian extended length follows. A masked frame
//! then carries a 4-byte mask key, and the payload is XORed with that key
//! cyclically.

use vstd::prelude::*;
use vstd::string::StringSliceAdditionalSpecFns;

use crate::CoreError;

verus! {

/// FIN flag: bit 7 of byte 0.
pub open spec fn fin_bit(buf: Seq<u8>) -> bool {
    buf[0] & 0x80 != 0
}

/// Opcode: the low 4 bits of byte 0.
pub open spec fn opcode_bits(buf: Seq<u8>) -> u8 {
    buf[0] & 0x0f
}

/// Mask flag: bit 7 of byte 1.
pub open spec fn mask_bit(buf: Seq<u8>) -> bool {
    buf[1] & 0x80 != 0
}

/// Length indicator: the low 7 bits of byte 1.
pub open spec fn len_indicator(buf: Seq<u8>) -> u8 {
    buf[1] & 0x7f
}

/// A 16-bit big-endian quantity assembled from two bytes.
pub open spec fn be16_val(b0: u8, b1: u8) -> u64 {
    ((b0 as u64) << 8) | (b1 as u64)
}

/// A 64-bit big-endian quantity assembled from eight bytes.
pub open spec fn be64_val(b0: u8, b1: u8, b2: u8, b3: u8, b4: u8, b5: u8, b6: u8, b7: u8) -> u64 {
    ((b0 as u64) << 56) | ((b1 as u64) << 48) | ((b2 as u64) << 40) | ((b3 as u64) << 32)
        | ((b4 as u64) << 24) | ((b5 as u64) << 16) | ((b6 as u64) << 8) | (b7 as u64)
}

/// Number of header bytes up to and including the length field
/// (2, 4 or 10 depending on the indicator tier).
pub open spec fn ext_len_end(buf: Seq<u8>) -> nat {
    if len_indicator(buf) == 126 {
        4
    } else if len_indicator(buf) == 127 {
        10
    } else {
        2
    }
}

/// Payload length announced by the header. Meaningful once the buffer holds
/// at least `ext_len_end(buf)` bytes.
pub open spec fn spec_payload_len(buf: Seq<u8>) -> nat {
    if len_indicator(buf) == 126 {
        be16_val(buf[2], buf[3]) as nat
    } else if len_indicator(buf) == 127 {
        be64_val(buf[2], buf[3], buf[4], buf[5], buf[6], buf[7], buf[8], buf[9]) as nat
    } else {
        len_indicator(buf) as nat
    }
}

/// Total header length: length field plus the 4-byte mask key if masked.
pub open spec fn spec_header_len(buf: Seq<u8>) -> nat {
    ext_len_end(buf) + if mask_bit(buf) {
        4nat
    } else {
        0nat
    }
}

/// Total frame length: header plus payload.
pub open spec fn spec_frame_len(buf: Seq<u8>) -> nat {
    spec_header_len(buf) + spec_payload_len(buf)
}

/// Whether the buffer holds one whole frame: the two fixed header bytes, the
/// extended length bytes its tier requires, the mask key if masked, and the
/// full payload.
pub open spec fn spec_is_complete(buf: Seq<u8>) -> bool {
    buf.len() >= 2 && buf.len() >= ext_len_end(buf) && buf.len() >= spec_frame_len(buf)
}

/// The 4-byte mask key of a masked frame.
pub open spec fn spec_mask_key(buf: Seq<u8>) -> Seq<u8> {
    buf.subrange(ext_len_end(buf) as int, ext_len_end(buf) as int + 4)
}

/// The payload bytes as they stand on the wire (still masked if masked).
pub open spec fn spec_raw_payload(buf: Seq<u8>) -> Seq<u8> {
    buf.subrange(spec_header_len(buf) as int, spec_frame_len(buf) as int)
}

/// XOR a payload with a 4-byte key, cyclically.
pub open spec fn mask_bytes(payload: Seq<u8>, key: Seq<u8>) -> Seq<u8> {
    Seq::new(payload.len(), |i: int| payload[i] ^ key[i % 4])
}

/// The logical (unmasked) payload of a complete frame.
pub open spec fn spec_payload(buf: Seq<u8>) -> Seq<u8> {
    if mask_bit(buf) {
        mask_bytes(spec_raw_payload(buf), spec_mask_key(buf))
    } else {
        spec_raw_payload(buf)
    }
}

/// The length indicator byte that the smallest encoding of a payload of
/// `n` bytes uses: the length itself below 126, else 126 (16-bit extended)
/// up to 65535, else 127 (64-bit extended).
pub open spec fn spec_len_indicator(n: nat) -> u8 {
    if n < 126 {
        n as u8
    } else if n <= 65535 {
        126u8
    } else {
        127u8
    }
}

/// The extended length bytes of the smallest encoding: none, 2 big-endian
/// bytes, or 8 big-endian bytes.
pub open spec fn spec_len_bytes(n: nat) -> Seq<u8> {
    if n < 126 {
        Seq::<u8>::empty()
    } else if n <= 65535 {
        seq![((n as u64) >> 8) as u8, (n as u64) as u8]
    } else {
        seq![
            ((n as u64) >> 56) as u8,
            ((n as u64) >> 48) as u8,
            ((n as u64) >> 40) as u8,
            ((n as u64) >> 32) as u8,
            ((n as u64) >> 24) as u8,
            ((n as u64) >> 16) as u8,
            ((n as u64) >> 8) as u8,
            (n as u64) as u8,
        ]
    }
}

/// Byte 0 of an encoded frame: FIN bit and 4-bit opcode.
pub open spec fn spec_header0(is_final: bool, opcode: u8) -> u8 {
    (if is_final {
        0x80u8
    } else {
        0x00u8
    }) | (opcode & 0x0F)
}

/// Byte 1 of an encoded frame: mask bit and length indicator.
pub open spec fn spec_header1(masked: bool, n: nat) -> u8 {
    (if masked {
        0x80u8
    } else {
        0x00u8
    }) | spec_len_indicator(n)
}

/// The full encoding of a frame: the two header bytes, the extended length
/// bytes, the mask key if masking, then the payload (XORed with the key if
/// masking, verbatim otherwise).
pub open spec fn spec_encode(
    is_final: bool,
    opcode: u8,
    payload: Seq<u8>,
    mask: Option<Seq<u8>>,
) -> Seq<u8> {
    seq![spec_header0(is_final, opcode), spec_header1(mask is Some, payload.len())]
        + spec_len_bytes(payload.len()) + (match mask {
        Some(k) => k,
        None => Seq::<u8>::empty(),
    }) + (match mask {
        Some(k) => mask_bytes(payload, k),
        None => payload,
    })
}

/// A decoded WebSocket frame: logical payload, already unmasked.
#[derive(Debug)]
pub struct WebSocketFrame {
    pub opcode: u8,
    pub payload: Vec<u8>,
    pub is_final: bool,
    pub is_masked: bool,
}

/// Outcome of decoding one frame from the front of a buffer.
///
/// `NeedMoreData` is the expected steady state while streaming: the caller
/// retries once more bytes arrive. `Decoded` carries the frame and how many
/// bytes of the buffer it consumed; the remainder belongs to the next frame.
/// `Malformed` is reserved for internally contradictory byte counts; the
/// base algorithm never produces it.
#[derive(Debug)]
pub enum DecodeResult {
    NeedMoreData,
    Decoded(WebSocketFrame, usize),
    Malformed,
}

impl WebSocketFrame {
    /// Build a frame from its parts.
    pub fn new(opcode: u8, payload: Vec<u8>, is_final: bool, is_masked: bool) -> (r: Self)
        ensures
            r.opcode == opcode,
            r.payload == payload,
            r.is_final == is_final,
            r.is_masked == is_masked,
    {
        Self { opcode, payload, is_final, is_masked }
    }

    /// Decode one frame from the front of `frame_data`.
    ///
    /// Returns `NeedMoreData` whenever the buffer does not yet hold the whole
    /// frame, so the function is safe to call repeatedly on a growing buffer.
    /// On success the frame's payload is already unmasked, and the consumed
    /// count says where the next frame starts.
    pub fn parse(frame_data: &[u8]) -> (r: DecodeResult)
        ensures
            spec_is_complete(frame_data@) ==> match r {
                DecodeResult::Decoded(f, consumed) => {
                    &&& f.is_final == fin_bit(frame_data@)
                    &&& f.opcode == opcode_bits(frame_data@)
                    &&& f.is_masked == mask_bit(frame_data@)
                    &&& f.payload@ == spec_payload(frame_data@)
                    &&& consumed == spec_frame_len(frame_data@)
                },
                _ => false,
            },
            !spec_is_complete(frame_data@) ==> (r matches DecodeResult::NeedMoreData),
    {
        let ghost buf = frame_data@;
        if frame_data.len() < 2 {
            return DecodeResult::NeedMoreData;
        }
        let first_byte = frame_data[0];
        let second_byte = frame_data[1];
        let is_final = (first_byte & 0x80) != 0;
        let opcode = first_byte & 0x0F;
        let is_masked = (second_byte & 0x80) != 0;
        let len_ind = second_byte & 0x7F;
        proof {
            assert(second_byte & 0x7F <= 127) by (bit_vector);
        }

        let payload_len: u64;
        let ext_end: usize;
        if len_ind < 126 {
            payload_len = len_ind as u64;
            ext_end = 2;
        } else if len_ind == 126 {
            if frame_data.len() < 4 {
                return DecodeResult::NeedMoreData;
            }
            payload_len = ((frame_data[2] as u64) << 8) | (frame_data[3] as u64);
            ext_end = 4;
        } else {
            if frame_data.len() < 10 {
                return DecodeResult::NeedMoreData;
            }
            payload_len = ((frame_data[2] as u64) << 56) | ((frame_data[3] as u64) << 48) | ((
            frame_data[4] as u64) << 40) | ((frame_data[5] as u64) << 32) | ((frame_data[6] as u64)
                << 24) | ((frame_data[7] as u64) << 16) | ((frame_data[8] as u64) << 8) | (frame_data[9]
                as u64);
            ext_end = 10;
        }
        proof {
            assert(ext_end as nat == ext_len_end(buf));
            assert(payload_len as nat == spec_payload_len(buf));
        }
        let header_len: usize = if is_masked {
            ext_end + 4
        } else {
            ext_end
        };
        if frame_data.len() < header_len {
            return DecodeResult::NeedMoreData;
        }
        if payload_len > (frame_data.len() - header_len) as u64 {
            return DecodeResult::NeedMoreData;
        }
        let plen = payload_len as usize;
        proof {
            assert(spec_is_complete(buf));
        }
        let mut mask_key: Vec<u8> = Vec::new();
        if is_masked {
            mask_key.push(frame_data[ext_end]);
            mask_key.push(frame_data[ext_end + 1]);
            mask_key.push(frame_data[ext_end + 2]);
            mask_key.push(frame_data[ext_end + 3]);
            proof {
                assert(mask_key@ =~= spec_mask_key(buf));
            }
        }
        let mut payload: Vec<u8> = Vec::new();
        let mut i: usize = 0;
        while i < plen
            invariant
                spec_is_complete(buf),
                buf == frame_data@,
                buf.len() <= usize::MAX,
                plen == spec_payload_len(buf),
                header_len == spec_header_len(buf),
                is_masked == mask_bit(buf),
                is_masked ==> mask_key@ == spec_mask_key(buf),
                i <= plen,
                payload@.len() == i,
                forall|j: int| 0 <= j < i ==> payload@[j] == spec_payload(buf)[j],
            decreases plen - i,
        {
            let mut b = frame_data[header_len + i];
            proof {
                assert(b == spec_raw_payload(buf)[i as int]);
            }
            if is_masked {
                b = b ^ mask_key[i % 4];
            }
            payload.push(b);
            i += 1;
        }
        proof {
            assert(payload@ =~= spec_payload(buf));
        }
        DecodeResult::Decoded(
            WebSocketFrame { opcode, payload, is_final, is_masked },
            header_len + plen,
        )
    }

    /// Encode this frame for the wire, using the smallest length field that
    /// fits the payload. With `apply_mask` the given 4-byte key is written
    /// into the header and the payload is XORed with it; callers should use
    /// a fresh unpredictable key per masked frame.
    pub fn encode(&self, apply_mask: bool, mask_key: Option<&[u8; 4]>) -> (r: Vec<u8>)
        requires
            apply_mask ==> mask_key is Some,
        ensures
            r@ == spec_encode(
                self.is_final,
                self.opcode,
                self.payload@,
                if apply_mask {
                    Some(mask_key.unwrap()@)
                } else {
                    None
                },
            ),
    {
        let ghost m: Option<Seq<u8>> = if apply_mask {
            Some(mask_key.unwrap()@)
        } else {
            None
        };
        let ghost n_spec = self.payload@.len();
        let mut frame: Vec<u8> = Vec::new();
        let first_byte: u8 = (if self.is_final {
            0x80u8
        } else {
            0x00u8
        }) | (self.opcode & 0x0F);
        let n = self.payload.len();
        let ind: u8 = if n <= 125 {
            n as u8
        } else if n <= 65535 {
            126
        } else {
            127
        };
        let second_byte: u8 = (if apply_mask {
            0x80u8
        } else {
            0x00u8
        }) | ind;
        frame.push(first_byte);
        frame.push(second_byte);
        if n <= 125 {
        } else if n <= 65535 {
            let len64 = n as u64;
            frame.push((len64 >> 8) as u8);
            frame.push(len64 as u8);
        } else {
            let len64 = n as u64;
            frame.push((len64 >> 56) as u8);
            frame.push((len64 >> 48) as u8);
            frame.push((len64 >> 40) as u8);
            frame.push((len64 >> 32) as u8);
            frame.push((len64 >> 24) as u8);
            frame.push((len64 >> 16) as u8);
            frame.push((len64 >> 8) as u8);
            frame.push(len64 as u8);
        }
        if apply_mask {
            let k = mask_key.unwrap();
            frame.push(k[0]);
            frame.push(k[1]);
            frame.push(k[2]);
            frame.push(k[3]);
        }
        let ghost hdr = seq![
            spec_header0(self.is_final, self.opcode),
            spec_header1(m is Some, n_spec),
        ] + spec_len_bytes(n_spec) + (match m {
            Some(k) => k,
            None => Seq::<u8>::empty(),
        });
        proof {
            assert(frame@ =~= hdr);
        }
        let ghost tp: Seq<u8> = match m {
            Some(k) => mask_bytes(self.payload@, k),
            None => self.payload@,
        };
        let mut i: usize = 0;
        while i < self.payload.len()
            invariant
                i <= self.payload.len(),
                apply_mask ==> mask_key is Some,
                m == if apply_mask {
                    Some(mask_key.unwrap()@)
                } else {
                    None::<Seq<u8>>
                },
                tp == (match m {
                    Some(k) => mask_bytes(self.payload@, k),
                    None => self.payload@,
                }),
                frame@ == hdr + tp.subrange(0, i as int),
            decreases self.payload.len() - i,
        {
            let mut b = self.payload[i];
            if apply_mask {
                let k = mask_key.unwrap();
                b = b ^ k[i % 4];
            }
            proof {
                assert(b == tp[i as int]);
            }
            frame.push(b);
            proof {
                assert(tp.subrange(0, i as int).push(tp[i as int]) =~= tp.subrange(
                    0,
                    i as int + 1,
                ));
            }
            i += 1;
        }
        proof {
            assert(tp.subrange(0, self.payload@.len() as int) =~= tp);
            assert(frame@ =~= spec_encode(self.is_final, self.opcode, self.payload@, m));
        }
        frame
    }

    /// Encode this frame unmasked, as for server-to-client traffic.
    pub fn to_bytes(&self) -> (r: Vec<u8>)
        ensures
            r@ == spec_encode(self.is_final, self.opcode, self.payload@, None::<Seq<u8>>),
    {
        self.encode(false, None)
    }

    /// A final, unmasked text frame.
    pub fn text(text: &str) -> (r: Self)
        ensures
            r.opcode == 1,
            r.payload@ == text.spec_bytes(),
            r.is_final,
            !r.is_masked,
    {
        Self {
            opcode: 1,
            payload: vstd::slice::slice_to_vec(text.as_bytes()),
            is_final: true,
            is_masked: false,
        }
    }

    /// A final, unmasked binary frame.
    pub fn binary(data: &[u8]) -> (r: Self)
        ensures
            r.opcode == 2,
            r.payload@ == data@,
            r.is_final,
            !r.is_masked,
    {
        Self {
            opcode: 2,
            payload: vstd::slice::slice_to_vec(data),
            is_final: true,
            is_masked: false,
        }
    }

    /// A final, unmasked close frame. The payload is the 2-byte big-endian
    /// status code, if given, followed by the UTF-8 reason bytes, if given;
    /// each part may be omitted independently.
    pub fn close(code: Option<u16>, reason: Option<&str>) -> (r: Self)
        ensures
            r.opcode == 8,
            r.payload@ == (match code {
                Some(c) => seq![(c >> 8) as u8, c as u8],
                None => Seq::<u8>::empty(),
            }) + (match reason {
                Some(s) => s.spec_bytes(),
                None => Seq::<u8>::empty(),
            }),
            r.is_final,
            !r.is_masked,
    {
        let mut payload: Vec<u8> = Vec::new();
        if let Some(c) = code {
            payload.push((c >> 8) as u8);
            payload.push(c as u8);
        }
        if let Some(s) = reason {
            let mut rb = vstd::slice::slice_to_vec(s.as_bytes());
            payload.append(&mut rb);
        }
        proof {
            assert(payload@ =~= (match code {
                Some(c) => seq![(c >> 8) as u8, c as u8],
                None => Seq::<u8>::empty(),
            }) + (match reason {
                Some(s) => s.spec_bytes(),
                None => Seq::<u8>::empty(),
            }));
        }
        Self { opcode: 8, payload, is_final: true, is_masked: false }
    }

    /// A final, unmasked ping frame with optional application data.
    pub fn ping(data: Option<&[u8]>) -> (r: Self)
        ensures
            r.opcode == 9,
            r.payload@ == (match data {
                Some(d) => d@,
                None => Seq::<u8>::empty(),
            }),
            r.is_final,
            !r.is_masked,
    {
        let payload = match data {
            Some(d) => vstd::slice::slice_to_vec(d),
            None => Vec::new(),
        };
        Self { opcode: 9, payload, is_final: true, is_masked: false }
    }

    /// A final, unmasked pong frame with optional application data.
    pub fn pong(data: Option<&[u8]>) -> (r: Self)
        ensures
            r.opcode == 10,
            r.payload@ == (match data {
                Some(d) => d@,
                None => Seq::<u8>::empty(),
            }),
            r.is_final,
            !r.is_masked,
    {
        let payload = match data {
            Some(d) => vstd::slice::slice_to_vec(d),
            None => Vec::new(),
        };
        Self { opcode: 10, payload, is_final: true, is_masked: false }
    }
}

/// Whether the buffer marks a final frame: bit 7 of byte 0.
/// An empty buffer yields `false`.
pub fn is_final_frame(frame_data: &[u8]) -> (r: bool)
    ensures
        r == (frame_data@.len() >= 1 && fin_bit(frame_data@)),
{
    if frame_data.len() < 1 {
        return false;
    }
    (frame_data[0] & 0x80) != 0
}

/// The 4-bit opcode of the frame, or `None` on an empty buffer.
pub fn get_frame_type(frame_data: &[u8]) -> (r: Option<u8>)
    ensures
        match r {
            Some(op) => frame_data@.len() >= 1 && op == opcode_bits(frame_data@),
            None => frame_data@.len() == 0,
        },
{
    if frame_data.len() == 0 {
        return None;
    }
    Some(frame_data[0] & 0x0F)
}

/// Whether the buffer marks a masked frame: bit 7 of byte 1.
/// A buffer shorter than 2 bytes yields `false`.
pub fn is_masked_frame(frame_data: &[u8]) -> (r: bool)
    ensures
        r == (frame_data@.len() >= 2 && mask_bit(frame_data@)),
{
    if frame_data.len() < 2 {
        return false;
    }
    (frame_data[1] & 0x80) != 0
}

/// The payload length announced by the header, applying the three-tier
/// extended-length rule. Fails if the buffer is shorter than the header
/// bytes that the tier requires.
pub fn get_payload_length(frame_data: &[u8]) -> (r: Result<u64, CoreError>)
    ensures
        match r {
            Ok(n) => frame_data@.len() >= ext_len_end(frame_data@) && n == spec_payload_len(
                frame_data@,
            ),
            Err(e) => e == CoreError::FrameTooShort && frame_data@.len() < ext_len_end(frame_data@),
        },
{
    if frame_data.len() < 2 {
        return Err(CoreError::FrameTooShort);
    }
    let second_byte = frame_data[1];
    let len_ind = second_byte & 0x7F;
    if len_ind == 126 {
        if frame_data.len() < 4 {
            return Err(CoreError::FrameTooShort);
        }
        let n = ((frame_data[2] as u64) << 8) | (frame_data[3] as u64);
        Ok(n)
    } else if len_ind == 127 {
        if frame_data.len() < 10 {
            return Err(CoreError::FrameTooShort);
        }
        let n = ((frame_data[2] as u64) << 56) | ((frame_data[3] as u64) << 48) | ((frame_data[4]
            as u64) << 40) | ((frame_data[5] as u64) << 32) | ((frame_data[6] as u64) << 24) | ((
        frame_data[7] as u64) << 16) | ((frame_data[8] as u64) << 8) | (frame_data[9] as u64);
        Ok(n)
    } else {
        Ok(len_ind as u64)
    }
}

/// Whether the buffer holds one whole frame: header, mask key if masked,
/// and the full payload. Agrees with `parse`: it returns `true` exactly
/// when `parse` on the same buffer yields `Decoded`.
pub fn validate_websocket_frame(frame_data: &[u8]) -> (r: bool)
    ensures
        r == spec_is_complete(frame_data@),
{
    if frame_data.len() < 2 {
        return false;
    }
    let second_byte = frame_data[1];
    let is_masked = (second_byte & 0x80) != 0;
    let len_ind = second_byte & 0x7F;
    proof {
        assert(second_byte & 0x7F <= 127) by (bit_vector);
    }
    let payload_len: u64;
    let ext_end: usize;
    if len_ind < 126 {
        payload_len = len_ind as u64;
        ext_end = 2;
    } else if len_ind == 126 {
        if frame_data.len() < 4 {
            return false;
        }
        payload_len = ((frame_data[2] as u64) << 8) | (frame_data[3] as u64);
        ext_end = 4;
    } else {
        if frame_data.len() < 10 {
            return false;
        }
        payload_len = ((frame_data[2] as u64) << 56) | ((frame_data[3] as u64) << 48) | ((
        frame_data[4] as u64) << 40) | ((frame_data[5] as u64) << 32) | ((frame_data[6] as u64)
            << 24) | ((frame_data[7] as u64) << 16) | ((frame_data[8] as u64) << 8) | (frame_data[9]
            as u64);
        ext_end = 10;
    }
    let header_len: usize = if is_masked {
        ext_end + 4
    } else {
        ext_end
    };
    if frame_data.len() < header_len {
        return false;
    }
    payload_len <= (frame_data.len() - header_len) as u64
}

/// Masking is self-inverse: XOR-masking a payload twice with the same
/// 4-byte key returns the original bytes.
pub proof fn lemma_mask_involutive(payload: Seq<u8>, key: Seq<u8>)
    requires
        key.len() == 4,
    ensures
        mask_bytes(mask_bytes(payload, key), key) == payload,
{
    assert forall|i: int| 0 <= i < payload.len() implies mask_bytes(
        mask_bytes(payload, key),
        key,
    )[i] == payload[i] by {
        let a = payload[i];
        let b = key[i % 4];
        assert((a ^ b) ^ b == a) by (bit_vector);
    }
    assert(mask_bytes(mask_bytes(payload, key), key) =~= payload);
}

proof fn lemma_h0_bits(opcode: u8, is_final: bool)
    ensures
        (spec_header0(is_final, opcode) & 0x80 != 0) == is_final,
        spec_header0(is_final, opcode) & 0x0F == opcode & 0x0F,
{
    if is_final {
        assert((0x80u8 | (opcode & 0x0F)) & 0x80 != 0) by (bit_vector);
        assert((0x80u8 | (opcode & 0x0F)) & 0x0F == opcode & 0x0F) by (bit_vector);
    } else {
        assert((0x00u8 | (opcode & 0x0F)) & 0x80 == 0) by (bit_vector);
        assert((0x00u8 | (opcode & 0x0F)) & 0x0F == opcode & 0x0F) by (bit_vector);
    }
}

proof fn lemma_h1_bits(ind: u8, masked: bool)
    requires
        ind <= 127,
    ensures
        ((if masked {
            0x80u8
        } else {
            0x00u8
        }) | ind) & 0x80 != 0 <==> masked,
        ((if masked {
            0x80u8
        } else {
            0x00u8
        }) | ind) & 0x7F == ind,
{
    if masked {
        assert(ind <= 127 ==> ((0x80u8 | ind) & 0x80 != 0) && ((0x80u8 | ind) & 0x7F == ind))
            by (bit_vector);
    } else {
        assert(ind <= 127 ==> ((0x00u8 | ind) & 0x80 == 0) && ((0x00u8 | ind) & 0x7F == ind))
            by (bit_vector);
    }
}

proof fn lemma_be16_roundtrip(v: u64)
    requires
        v <= 65535,
    ensures
        be16_val((v >> 8) as u8, v as u8) == v,
{
    assert(v <= 65535 ==> ((((v >> 8) as u8) as u64) << 8) | ((v as u8) as u64) == v)
        by (bit_vector);
}

proof fn lemma_be64_roundtrip(v: u64)
    ensures
        be64_val(
            (v >> 56) as u8,
            (v >> 48) as u8,
            (v >> 40) as u8,
            (v >> 32) as u8,
            (v >> 24) as u8,
            (v >> 16) as u8,
            (v >> 8) as u8,
            v as u8,
        ) == v,
{
    assert(((((v >> 56) as u8) as u64) << 56) | ((((v >> 48) as u8) as u64) << 48) | ((((v >> 40)
        as u8) as u64) << 40) | ((((v >> 32) as u8) as u64) << 32) | ((((v >> 24) as u8) as u64)
        << 24) | ((((v >> 16) as u8) as u64) << 16) | ((((v >> 8) as u8) as u64) << 8) | ((v as u8)
        as u64) == v) by (bit_vector);
}

/// Decoding inverts encoding. The encoding of any frame is complete, is
/// consumed exactly, and decodes back to the same FIN flag, the same 4-bit
/// opcode, a mask flag equal to whether a key was applied, and the original
/// payload, for every payload length and either mask choice.
pub proof fn lemma_parse_encode(is_final: bool, opcode: u8, payload: Seq<u8>, mask: Option<Seq<u8>>)
    requires
        payload.len() <= u64::MAX,
        mask matches Some(k) ==> k.len() == 4,
    ensures
        ({
            let buf = spec_encode(is_final, opcode, payload, mask);
            &&& spec_is_complete(buf)
            &&& spec_frame_len(buf) == buf.len()
            &&& fin_bit(buf) == is_final
            &&& opcode_bits(buf) == (opcode & 0x0F)
            &&& mask_bit(buf) == (mask is Some)
            &&& spec_payload(buf) == payload
        }),
{
    let n = payload.len();
    let h0 = spec_header0(is_final, opcode);
    let h1 = spec_header1(mask is Some, n);
    let lb = spec_len_bytes(n);
    let kb: Seq<u8> = match mask {
        Some(k) => k,
        None => Seq::<u8>::empty(),
    };
    let tp: Seq<u8> = match mask {
        Some(k) => mask_bytes(payload, k),
        None => payload,
    };
    let buf = spec_encode(is_final, opcode, payload, mask);
    assert(buf =~= seq![h0, h1] + lb + kb + tp);
    assert(buf[0] == h0);
    assert(buf[1] == h1);
    lemma_h0_bits(opcode, is_final);
    let ind = spec_len_indicator(n);
    lemma_h1_bits(ind, mask is Some);
    assert(len_indicator(buf) == ind);
    assert(mask_bit(buf) == (mask is Some));
    if n < 126 {
        assert(ext_len_end(buf) == 2);
        assert(spec_payload_len(buf) == n);
    } else if n <= 65535 {
        assert(ext_len_end(buf) == 4);
        assert(buf[2] == lb[0] && buf[3] == lb[1]);
        lemma_be16_roundtrip(n as u64);
        assert(spec_payload_len(buf) == n);
    } else {
        assert(ext_len_end(buf) == 10);
        assert(buf[2] == lb[0] && buf[3] == lb[1] && buf[4] == lb[2] && buf[5] == lb[3] && buf[6]
            == lb[4] && buf[7] == lb[5] && buf[8] == lb[6] && buf[9] == lb[7]);
        lemma_be64_roundtrip(n as u64);
        assert(spec_payload_len(buf) == n);
    }
    assert(spec_header_len(buf) == 2 + lb.len() + kb.len());
    assert(spec_frame_len(buf) == buf.len());
    assert(spec_is_complete(buf));
    match mask {
        Some(k) => {
            assert(spec_mask_key(buf) =~= k);
            assert(spec_raw_payload(buf) =~= tp);
            lemma_mask_involutive(payload, k);
            assert(spec_payload(buf) == payload);
        },
        None => {
            assert(spec_raw_payload(buf) =~= payload);
        },
    }
}

/// A strict prefix of a complete frame is never complete: a streaming
/// decoder fed a truncated buffer reports that it needs more data, never
/// an error.
pub proof fn lemma_prefix_incomplete(buf: Seq<u8>, n: int)
    requires
        spec_is_complete(buf),
        0 <= n < spec_frame_len(buf),
    ensures
        !spec_is_complete(buf.subrange(0, n)),
{
    let p = buf.subrange(0, n);
    if n >= 2 {
        assert(p[0] == buf[0] && p[1] == buf[1]);
        assert(ext_len_end(p) == ext_len_end(buf));
        if n >= ext_len_end(buf) {
            assert(forall|i: int| 0 <= i < n ==> p[i] == buf[i]);
            assert(spec_payload_len(p) == spec_payload_len(buf));
            assert(spec_frame_len(p) == spec_frame_len(buf));
            assert(p.len() < spec_frame_len(p));
        }
    }
}

} // verus!


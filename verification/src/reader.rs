//! Parse received data and format writable data

use vstd::prelude::*;

use crate::peer::Msg;
use crate::MESSAGE_MAX_LEN;

verus! {

/// Kind of a message
#[derive(PartialEq, Eq, Structural, Debug, Copy, Clone)]
pub enum Kind {
    /// The data is a normal message
    Data,
    /// The data is a response to a message
    Response,
    /// Invalid data
    Wrong,
}

/// The low nibble of a frame's first byte, for each message kind.
pub open spec fn kind_byte(k: Kind) -> u8 {
    match k {
        Kind::Data => 0,
        Kind::Response => 1,
        Kind::Wrong => 2,
    }
}

/// The message kind encoded by the low nibble of a frame's first byte.
pub open spec fn kind_of_byte(b: u8) -> Kind {
    if b == 0 {
        Kind::Data
    } else if b == 1 {
        Kind::Response
    } else {
        Kind::Wrong
    }
}

impl Kind {
    /// The flag value that stands for this kind in a frame header.
    pub fn into(self) -> (r: u8)
        ensures
            r == kind_byte(self),
    {
        match self {
            Kind::Data => 0,
            Kind::Response => 1,
            Kind::Wrong => 2,
        }
    }

    /// The kind a frame header's flag value stands for.
    pub fn from(byte: u8) -> (r: Kind)
        ensures
            r == kind_of_byte(byte),
    {
        match byte {
            0 => Kind::Data,
            1 => Kind::Response,
            _ => Kind::Wrong,
        }
    }
}

/// 256 raised to `w`: the number of values a big-endian field of `w`
/// bytes can hold.
pub open spec fn pow256(w: int) -> int
    decreases w,
{
    if w <= 0 {
        1
    } else {
        256 * pow256(w - 1)
    }
}

/// The big-endian bytes of `v`, in a field `w` bytes wide.
pub open spec fn be_bytes(v: int, w: int) -> Seq<u8>
    decreases w,
{
    if w <= 0 {
        Seq::empty()
    } else {
        be_bytes(v / 256, w - 1).push((v % 256) as u8)
    }
}

/// The value a big-endian byte sequence stands for.
pub open spec fn be_val(s: Seq<u8>) -> int
    decreases s.len(),
{
    if s.len() == 0 {
        0
    } else {
        be_val(s.drop_last()) * 256 + s.last()
    }
}

/// The width in bytes of the smallest length field that can hold `len`.
pub open spec fn len_width(len: int) -> int {
    if len <= 0xFF {
        1
    } else if len <= 0xFFFF {
        2
    } else if len <= 0xFFFF_FFFF {
        4
    } else {
        8
    }
}

/// The whole wire frame for a payload: one flag byte (high nibble: the
/// length-field width; low nibble: the kind), the big-endian payload
/// length, then the payload itself.
pub open spec fn encode_spec(payload: Seq<u8>, k: Kind) -> Seq<u8> {
    let w = len_width(payload.len() as int);
    seq![(16 * w + kind_byte(k)) as u8] + be_bytes(payload.len() as int, w) + payload
}

proof fn lemma_pow256_pos(w: int)
    ensures
        pow256(w) >= 1,
    decreases w,
{
    if w > 0 {
        lemma_pow256_pos(w - 1);
    }
}

proof fn lemma_pow256_monotone(a: int, b: int)
    requires
        0 <= a <= b,
    ensures
        pow256(a) <= pow256(b),
    decreases b,
{
    if a < b {
        lemma_pow256_monotone(a, b - 1);
        lemma_pow256_pos(b - 1);
    }
}

/// Reading back the big-endian bytes of `v` yields `v`, as long as `v`
/// fits in the field.
proof fn lemma_be_roundtrip(v: int, w: int)
    requires
        0 <= v < pow256(w),
        0 <= w,
    ensures
        be_bytes(v, w).len() == w,
        be_val(be_bytes(v, w)) == v,
    decreases w,
{
    if w > 0 {
        let q = v / 256;
        let r = v % 256;
        vstd::arithmetic::div_mod::lemma_fundamental_div_mod(v, 256);
        assert(0 <= r < 256);
        vstd::arithmetic::div_mod::lemma_multiply_divide_lt(v, 256, pow256(w - 1));
        lemma_be_roundtrip(q, w - 1);
        let s = be_bytes(q, w - 1);
        assert(be_bytes(v, w) == s.push(r as u8));
        assert(s.push(r as u8).drop_last() =~= s);
        assert(be_val(s.push(r as u8)) == be_val(s) * 256 + r);
    }
}

/// Append the big-endian bytes of `v`, in a field `w` bytes wide, to
/// `buf`.
fn push_be(buf: &mut Vec<u8>, v: u64, w: usize)
    requires
        v < pow256(w as int),
    ensures
        final(buf)@ == old(buf)@ + be_bytes(v as int, w as int),
    decreases w,
{
    if w > 0 {
        proof {
            vstd::arithmetic::div_mod::lemma_multiply_divide_lt(
                v as int,
                256,
                pow256((w as int) - 1),
            );
        }
        push_be(buf, v / 256, w - 1);
        buf.push((v % 256) as u8);
        assert(buf@ =~= old(buf)@ + be_bytes(v as int, w as int));
    } else {
        assert(buf@ =~= old(buf)@ + be_bytes(v as int, w as int));
    }
}

/// Make a ready-to-send buffer, with the header.
///
/// The header consists of one flag byte whose high nibble gives the
/// width of the length field (0x10, 0x20, 0x40 or 0x80 for 1, 2, 4 or
/// 8 bytes) and whose low nibble gives the [`Kind`], followed by the
/// payload length, big-endian, in the selected width.
pub fn to_binary(data: &[u8], kind: Kind) -> (r: Vec<u8>)
    ensures
        r@ == encode_spec(data@, kind),
{
    let kind_flag: u8 = kind.into();
    let len = data.len();
    let w: usize = if len <= 0xFF {
        1
    } else if len <= 0xFFFF {
        2
    } else if len <= 0xFFFF_FFFF {
        4
    } else {
        8
    };
    assert(w as int == len_width(len as int));
    let mut buf: Vec<u8> = Vec::new();
    buf.push(16 * (w as u8) + kind_flag);
    proof {
        lemma_pow256_monotone(w as int, 8);
        reveal_with_fuel(pow256, 9);
        assert(pow256(8) == 0x1_0000_0000_0000_0000);
        assert(pow256(1) == 0x100 && pow256(2) == 0x1_0000 && pow256(4) == 0x1_0000_0000);
    }
    push_be(&mut buf, len as u64, w);
    let mut tail = vstd::slice::slice_to_vec(data);
    buf.append(&mut tail);
    proof {
        assert(buf@ =~= encode_spec(data@, kind));
    }
    buf
}

/// Errors when parsing data
#[derive(Debug, PartialEq, Eq, Structural, Copy, Clone)]
pub enum ReaderError {
    /// Wrong flag for the message [`Kind`]
    WrongKindFlag,
    /// Wrong flag for the message length
    WrongLengthFlag,
    /// The length of the received data doesn't match header information
    IncorrectSize,
    /// Input/output error on the underlying transport
    IO,
}

/// The buffer's first byte carries a known message kind in its low
/// nibble.
pub open spec fn header_kind_ok(s: Seq<u8>) -> bool {
    s.len() >= 1 && (s[0] as int) % 16 <= 1
}

/// The length-field width the buffer's first byte declares (its high
/// nibble).
pub open spec fn header_width(s: Seq<u8>) -> int {
    (s[0] as int) / 16
}

/// The buffer's first byte carries a known length-field width.
pub open spec fn header_flag_ok(s: Seq<u8>) -> bool {
    s.len() >= 1 && (header_width(s) == 1 || header_width(s) == 2 || header_width(s) == 4
        || header_width(s) == 8)
}

/// How many bytes of header the buffer's first byte declares.
pub open spec fn header_len_of(s: Seq<u8>) -> int {
    1 + header_width(s)
}

/// The buffer holds a whole, valid header.
pub open spec fn header_complete(s: Seq<u8>) -> bool {
    header_kind_ok(s) && header_flag_ok(s) && s.len() >= header_len_of(s)
}

/// The message kind the buffer's header declares.
pub open spec fn header_kind(s: Seq<u8>) -> Kind {
    kind_of_byte(((s[0] as int) % 16) as u8)
}

/// The payload length the buffer's header declares.
pub open spec fn payload_len_of(s: Seq<u8>) -> int {
    be_val(s.subrange(1, header_len_of(s)))
}

/// Header and payload length together: the size of the whole frame the
/// buffer's header declares.
pub open spec fn total_len_of(s: Seq<u8>) -> int {
    header_len_of(s) + payload_len_of(s)
}

/// What examining the buffer's first byte reports: a bad kind nibble is
/// reported before a bad width nibble; an empty buffer reports nothing.
pub open spec fn header_error(s: Seq<u8>) -> Option<ReaderError> {
    if s.len() == 0 {
        None
    } else if !header_kind_ok(s) {
        Some(ReaderError::WrongKindFlag)
    } else if !header_flag_ok(s) {
        Some(ReaderError::WrongLengthFlag)
    } else {
        None
    }
}

/// What one parse step on the buffer reports: a header error, or a
/// declared payload length over [`MESSAGE_MAX_LEN`] once the whole
/// header is buffered.
pub open spec fn parse_error(s: Seq<u8>) -> Option<ReaderError> {
    if header_error(s) is Some {
        header_error(s)
    } else if header_complete(s) && payload_len_of(s) > MESSAGE_MAX_LEN as int {
        Some(ReaderError::IncorrectSize)
    } else {
        None
    }
}

/// One parse step on the buffer yields a message: no error, and the
/// whole declared frame is buffered.
pub open spec fn parse_emits(s: Seq<u8>) -> bool {
    parse_error(s) is None && header_complete(s) && s.len() >= total_len_of(s)
}

/// Information of the message from its header
#[derive(Clone, Copy)]
struct PayloadInfo {
    kind: Kind,
    payload_len: u64,
    header_len: usize,
}

/// The Reader is responsible of parsing the received data
/// and return a [`Msg`]
pub struct Reader {
    /// Buffer where the incoming data accumulates
    pending: Vec<u8>,
}

impl Reader {
    /// The bytes received but not yet consumed into a completed message.
    pub closed spec fn buffered(&self) -> Seq<u8> {
        self.pending@
    }

    pub fn new() -> (r: Reader)
        ensures
            r.buffered() == Seq::<u8>::empty(),
    {
        Reader { pending: Vec::new() }
    }

    /// Append newly received bytes to the decode buffer.
    pub fn feed(&mut self, chunk: &[u8])
        ensures
            final(self).buffered() == old(self).buffered() + chunk@,
    {
        let mut tail = vstd::slice::slice_to_vec(chunk);
        self.pending.append(&mut tail);
    }

    /// Parse the header. It can take different sizes
    ///
    /// The header consists of:
    ///
    /// ## First byte:
    ///
    /// - low nibble: the [`Kind`] flag
    /// - high nibble: the length flag (0x10, 0x20, 0x40 or 0x80)
    ///
    /// ## Following bytes:
    ///
    /// The big-endian message length, as wide as the length flag says:
    /// 1, 2, 4 or 8 bytes.
    fn parse_header(&self) -> (r: Result<Option<PayloadInfo>, ReaderError>)
        ensures
            match r {
                Err(e) => header_error(self.buffered()) == Some(e),
                Ok(None) => header_error(self.buffered()) is None && !header_complete(
                    self.buffered(),
                ),
                Ok(Some(info)) => {
                    &&& header_error(self.buffered()) is None
                    &&& header_complete(self.buffered())
                    &&& info.kind == header_kind(self.buffered())
                    &&& info.header_len as int == header_len_of(self.buffered())
                    &&& info.payload_len as int == payload_len_of(self.buffered())
                },
            },
    {
        let ghost s = self.buffered();
        let received_len = self.pending.len();

        if received_len < 1 {
            return Ok(None);
        }
        let b0 = self.pending[0];
        let kind_nibble = b0 % 16;
        if kind_nibble >= 2 {
            return Err(ReaderError::WrongKindFlag);
        }
        let kind = Kind::from(kind_nibble);

        let len_flag = b0 / 16;
        let width: usize = if len_flag == 1 {
            1
        } else if len_flag == 2 {
            2
        } else if len_flag == 4 {
            4
        } else if len_flag == 8 {
            8
        } else {
            return Err(ReaderError::WrongLengthFlag);
        };
        let header_len = 1 + width;
        if received_len < header_len {
            return Ok(None);
        }

        let mut payload_len: u64 = 0;
        let mut i: usize = 1;
        proof {
            assert(s.subrange(1, 1) =~= Seq::<u8>::empty());
            lemma_pow256_pos(0);
        }
        while i < header_len
            invariant
                1 <= i as int <= header_len as int,
                header_len as int == header_len_of(s),
                header_len as int <= 9,
                header_len as int <= s.len(),
                s == self.buffered(),
                payload_len as int == be_val(s.subrange(1, i as int)),
                (payload_len as int) < pow256((i as int) - 1),
            decreases header_len - i,
        {
            let b = self.pending[i];
            proof {
                lemma_pow256_monotone(i as int, 8);
                reveal_with_fuel(pow256, 9);
                assert(pow256(8) == 0x1_0000_0000_0000_0000);
                assert((payload_len as int) * 256 + 256 <= pow256(i as int))
                    by (nonlinear_arith)
                    requires
                        (payload_len as int) < pow256((i as int) - 1),
                        pow256(i as int) == 256 * pow256((i as int) - 1),
                ;
                assert(s.subrange(1, i as int + 1).drop_last() =~= s.subrange(1, i as int));
                assert(s.subrange(1, i as int + 1).last() == s[i as int]);
            }
            payload_len = payload_len * 256 + (b as u64);
            i = i + 1;
        }
        Ok(Some(PayloadInfo { kind, payload_len, header_len }))
    }

    /// Run one parse step on the decode buffer.
    ///
    /// Returns `Ok(None)` when the buffered bytes do not yet hold a
    /// whole frame; returns one message, and keeps any bytes after it
    /// buffered, when they do; on a framing violation drops all
    /// buffered bytes and returns the error.
    pub fn parse(&mut self) -> (r: Result<Option<Msg>, ReaderError>)
        ensures
            match r {
                Ok(None) => {
                    &&& final(self).buffered() == old(self).buffered()
                    &&& parse_error(old(self).buffered()) is None
                    &&& !parse_emits(old(self).buffered())
                },
                Ok(Some(msg)) => {
                    let s = old(self).buffered();
                    &&& parse_emits(s)
                    &&& msg.wf()
                    &&& msg.spec_bytes() == s.subrange(0, total_len_of(s))
                    &&& msg.spec_kind() == header_kind(s)
                    &&& msg.spec_header_len() == header_len_of(s)
                    &&& final(self).buffered() == s.subrange(total_len_of(s), s.len() as int)
                },
                Err(e) => {
                    &&& parse_error(old(self).buffered()) == Some(e)
                    &&& final(self).buffered() == Seq::<u8>::empty()
                },
            },
    {
        let ghost s = self.buffered();
        let info = match self.parse_header() {
            Err(e) => {
                self.pending.clear();
                return Err(e);
            },
            Ok(None) => {
                return Ok(None);
            },
            Ok(Some(info)) => info,
        };

        if info.payload_len > MESSAGE_MAX_LEN {
            self.pending.clear();
            return Err(ReaderError::IncorrectSize);
        }

        let total: u64 = (info.header_len as u64) + info.payload_len;
        if (self.pending.len() as u64) < total {
            // We didn't receive the full message: grow the buffer ahead
            // of time, so the rest arrives without repeated reallocation
            let needed = total - (self.pending.len() as u64) + 1;
            self.pending.reserve(needed as usize);
            return Ok(None);
        }

        let total_idx: usize = total as usize;
        let mut frame = self.pending.split_off(total_idx);
        core::mem::swap(&mut self.pending, &mut frame);
        proof {
            assert(frame@ == s.subrange(0, total_len_of(s)));
        }
        Ok(Some(Msg::new(frame, info.kind, info.header_len)))
    }
}

proof fn lemma_flag_byte(w: int, kb: int)
    requires
        w == 1 || w == 2 || w == 4 || w == 8,
        0 <= kb <= 1,
    ensures
        (((16 * w + kb) as u8) as int) / 16 == w,
        (((16 * w + kb) as u8) as int) % 16 == kb,
{
    let b = 16 * w + kb;
    assert(0 <= b < 256);
    assert((b as u8) as int == b);
    vstd::arithmetic::div_mod::lemma_fundamental_div_mod_converse(b, 16, w, kb);
}

/// A frame arriving at a decoder parses back to what was encoded: one
/// whole valid frame at the head of the buffer, however many bytes
/// follow it, is emitted with the kind, header length and payload
/// length that [`encode_spec`] selected, and consumes exactly its own
/// bytes.
pub proof fn lemma_parse_encoded(p: Seq<u8>, k: Kind, extra: Seq<u8>)
    requires
        k != Kind::Wrong,
        p.len() <= MESSAGE_MAX_LEN as int,
    ensures
        parse_error(encode_spec(p, k) + extra) is None,
        parse_emits(encode_spec(p, k) + extra),
        header_kind(encode_spec(p, k) + extra) == k,
        header_len_of(encode_spec(p, k) + extra) == 1 + len_width(p.len() as int),
        payload_len_of(encode_spec(p, k) + extra) == p.len(),
        total_len_of(encode_spec(p, k) + extra) == encode_spec(p, k).len(),
        (encode_spec(p, k) + extra).subrange(0, encode_spec(p, k).len() as int) == encode_spec(
            p,
            k,
        ),
        (encode_spec(p, k) + extra).subrange(
            encode_spec(p, k).len() as int,
            (encode_spec(p, k) + extra).len() as int,
        ) == extra,
{
    let e = encode_spec(p, k);
    let s = e + extra;
    let len = p.len() as int;
    let w = len_width(len);
    let kb = kind_byte(k) as int;
    reveal_with_fuel(pow256, 9);
    assert(pow256(1) == 0x100 && pow256(2) == 0x1_0000 && pow256(4) == 0x1_0000_0000 && pow256(8)
        == 0x1_0000_0000_0000_0000);
    assert(len < pow256(w));
    lemma_be_roundtrip(len, w);
    let bb = be_bytes(len, w);
    let b0 = (16 * w + kb) as u8;
    assert(e == seq![b0] + bb + p);
    assert(e.len() == 1 + w + p.len());
    assert(s[0] == b0);
    lemma_flag_byte(w, kb);
    assert(header_kind_ok(s));
    assert(header_width(s) == w);
    assert(header_flag_ok(s));
    assert(header_len_of(s) == 1 + w);
    assert(header_complete(s));
    assert(header_kind(s) == kind_of_byte(kb as u8));
    assert(kind_of_byte(kb as u8) == k);
    assert(s.subrange(1, 1 + w) =~= bb);
    assert(payload_len_of(s) == len);
    assert(total_len_of(s) == e.len());
    assert(header_error(s) is None);
    assert(parse_error(s) is None);
    assert(s.len() >= total_len_of(s));
    assert(parse_emits(s));
    assert(s.subrange(0, e.len() as int) =~= e);
    assert(s.subrange(e.len() as int, s.len() as int) =~= extra);
}

/// Round-trip law: decoding an encoded frame yields the payload and the
/// kind that were encoded, exactly. The emitted message holds the whole
/// frame, its payload — the bytes after the header — is `p`, and
/// nothing is left in the buffer.
pub proof fn lemma_round_trip(p: Seq<u8>, k: Kind)
    requires
        k != Kind::Wrong,
        p.len() <= MESSAGE_MAX_LEN as int,
    ensures
        parse_emits(encode_spec(p, k)),
        header_kind(encode_spec(p, k)) == k,
        total_len_of(encode_spec(p, k)) == encode_spec(p, k).len(),
        encode_spec(p, k).subrange(
            header_len_of(encode_spec(p, k)),
            encode_spec(p, k).len() as int,
        ) == p,
{
    let e = encode_spec(p, k);
    lemma_parse_encoded(p, k, Seq::<u8>::empty());
    assert(e + Seq::<u8>::empty() =~= e);
    let w = len_width(p.len() as int);
    let bb = be_bytes(p.len() as int, w);
    reveal_with_fuel(pow256, 9);
    assert(p.len() < pow256(w));
    lemma_be_roundtrip(p.len() as int, w);
    assert(e == seq![(16 * w + kind_byte(k) as int) as u8] + bb + p);
    assert(e.subrange(1 + w, e.len() as int) =~= p);
}

/// Header-width selection is exact, and both sides agree on it: the
/// encoder picks the smallest length field that holds the payload
/// length (1 byte up to 255, 2 up to 65535, 4 up to 4294967295, 8
/// above), and the decoder reads back exactly that header length.
pub proof fn lemma_header_width(p: Seq<u8>, k: Kind)
    requires
        k != Kind::Wrong,
        p.len() <= MESSAGE_MAX_LEN as int,
    ensures
        encode_spec(p, k).len() == 1 + len_width(p.len() as int) + p.len(),
        header_len_of(encode_spec(p, k)) == 1 + len_width(p.len() as int),
        p.len() <= 0xFF ==> header_len_of(encode_spec(p, k)) == 2,
        0xFF < p.len() <= 0xFFFF ==> header_len_of(encode_spec(p, k)) == 3,
        0xFFFF < p.len() <= 0xFFFF_FFFF ==> header_len_of(encode_spec(p, k)) == 5,
        0xFFFF_FFFF < p.len() ==> header_len_of(encode_spec(p, k)) == 9,
{
    lemma_parse_encoded(p, k, Seq::<u8>::empty());
    assert(encode_spec(p, k) + Seq::<u8>::empty() =~= encode_spec(p, k));
    let w = len_width(p.len() as int);
    reveal_with_fuel(pow256, 9);
    assert(p.len() < pow256(w));
    lemma_be_roundtrip(p.len() as int, w);
}

/// Incremental delivery: while only a strict prefix of an encoded frame
/// has been fed — no matter how the frame was cut into chunks — a parse
/// step reports neither an error nor a message; it waits. Together with
/// [`lemma_round_trip`], feeding a frame split across any chunks yields
/// exactly one message, identical to feeding it whole, because the
/// decoder's only state is the concatenation of the bytes fed so far.
pub proof fn lemma_incremental(p: Seq<u8>, k: Kind, i: int)
    requires
        k != Kind::Wrong,
        p.len() <= MESSAGE_MAX_LEN as int,
        0 <= i < encode_spec(p, k).len(),
    ensures
        parse_error(encode_spec(p, k).subrange(0, i)) is None,
        !parse_emits(encode_spec(p, k).subrange(0, i)),
{
    let e = encode_spec(p, k);
    let pre = e.subrange(0, i);
    lemma_parse_encoded(p, k, Seq::<u8>::empty());
    assert(e + Seq::<u8>::empty() =~= e);
    if i == 0 {
        assert(pre.len() == 0);
    } else {
        assert(pre[0] == e[0]);
        assert(header_kind_ok(pre) && header_flag_ok(pre));
        assert(header_width(pre) == header_width(e));
        if i < header_len_of(e) {
            assert(!header_complete(pre));
        } else {
            assert(pre.subrange(1, header_len_of(pre)) =~= e.subrange(1, header_len_of(e)));
            assert(payload_len_of(pre) == payload_len_of(e));
            assert(total_len_of(pre) == e.len());
            assert(pre.len() < total_len_of(pre));
        }
    }
}

/// Pipelining: two valid frames concatenated in one buffer decode to
/// exactly two messages, in order — the first parse step emits the
/// first frame and leaves the second intact, the next emits the second
/// and leaves nothing.
pub proof fn lemma_pipelining(p1: Seq<u8>, k1: Kind, p2: Seq<u8>, k2: Kind)
    requires
        k1 != Kind::Wrong,
        k2 != Kind::Wrong,
        p1.len() <= MESSAGE_MAX_LEN as int,
        p2.len() <= MESSAGE_MAX_LEN as int,
    ensures
        parse_emits(encode_spec(p1, k1) + encode_spec(p2, k2)),
        header_kind(encode_spec(p1, k1) + encode_spec(p2, k2)) == k1,
        (encode_spec(p1, k1) + encode_spec(p2, k2)).subrange(
            0,
            total_len_of(encode_spec(p1, k1) + encode_spec(p2, k2)),
        ) == encode_spec(p1, k1),
        (encode_spec(p1, k1) + encode_spec(p2, k2)).subrange(
            total_len_of(encode_spec(p1, k1) + encode_spec(p2, k2)),
            (encode_spec(p1, k1) + encode_spec(p2, k2)).len() as int,
        ) == encode_spec(p2, k2),
        parse_emits(encode_spec(p2, k2)),
        header_kind(encode_spec(p2, k2)) == k2,
        total_len_of(encode_spec(p2, k2)) == encode_spec(p2, k2).len(),
{
    lemma_parse_encoded(p1, k1, encode_spec(p2, k2));
    lemma_round_trip(p2, k2);
}

/// Invalid-kind rejection: a first byte whose low nibble is not a known
/// kind yields a decode error and no message, whatever follows it.
pub proof fn lemma_reject_bad_kind(s: Seq<u8>)
    requires
        s.len() >= 1,
        (s[0] as int) % 16 >= 2,
    ensures
        parse_error(s) == Some(ReaderError::WrongKindFlag),
        !parse_emits(s),
{
}

/// Invalid-width rejection: a first byte whose high nibble is not a
/// known length-field width yields a decode error and no message,
/// whatever follows it.
pub proof fn lemma_reject_bad_length_flag(s: Seq<u8>)
    requires
        s.len() >= 1,
        (s[0] as int) % 16 <= 1,
        header_width(s) != 1 && header_width(s) != 2 && header_width(s) != 4 && header_width(s)
            != 8,
    ensures
        parse_error(s) == Some(ReaderError::WrongLengthFlag),
        !parse_emits(s),
{
}

/// Oversized rejection: a complete header declaring a payload longer
/// than [`MESSAGE_MAX_LEN`] yields a decode error and no message, as
/// soon as the header itself is buffered — whatever follows it.
pub proof fn lemma_reject_oversized(v: int, k: Kind, extra: Seq<u8>)
    requires
        k != Kind::Wrong,
        (MESSAGE_MAX_LEN as int) < v < pow256(8),
    ensures
        parse_error(seq![(128 + kind_byte(k) as int) as u8] + be_bytes(v, 8) + extra) == Some(
            ReaderError::IncorrectSize,
        ),
        !parse_emits(seq![(128 + kind_byte(k) as int) as u8] + be_bytes(v, 8) + extra),
{
    let kb = kind_byte(k) as int;
    let b0 = (128 + kb) as u8;
    let s = seq![b0] + be_bytes(v, 8) + extra;
    reveal_with_fuel(pow256, 9);
    lemma_be_roundtrip(v, 8);
    assert(s[0] == b0);
    lemma_flag_byte(8, kb);
    assert(header_kind_ok(s));
    assert(header_width(s) == 8);
    assert(header_flag_ok(s));
    assert(s.len() >= 9);
    assert(header_complete(s));
    assert(s.subrange(1, 9) =~= be_bytes(v, 8));
    assert(payload_len_of(s) == v);
    assert(header_error(s) is None);
}

} // verus!

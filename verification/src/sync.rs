//! Y-websocket compatible sync framing.
//!
//! Wire format compatible with the `y-websocket` JS library:
//! - Outer message type: 0 = sync, 1 = awareness
//! - For sync messages, inner type: 0 = SyncStep1, 1 = SyncStep2, 2 = Update
//! - Payloads are length-prefixed byte arrays (lib0 varUint encoding)

use vstd::prelude::*;
use crate::text::{push_str, push_decimal, decimal, chars_to_string};

verus! {

/// Outer message type of a sync message.
pub const MSG_SYNC: u8 = 0;
/// Outer message type of an awareness message.
pub const MSG_AWARENESS: u8 = 1;
/// Inner type: client state vector.
pub const SYNC_STEP1: u8 = 0;
/// Inner type: update answering a state vector.
pub const SYNC_STEP2: u8 = 1;
/// Inner type: incremental update.
pub const SYNC_UPDATE: u8 = 2;

/// The number of bytes after which a varUint that has not ended is refused.
pub const MAX_VAR_UINT_LEN: usize = 10;

/// Decoded message from a y-websocket client.
#[derive(Debug)]
pub enum SyncMessage {
    /// Client sends its state vector, requesting missing updates.
    SyncStep1(Vec<u8>),
    /// Client sends an update (response to our SyncStep1).
    SyncStep2(Vec<u8>),
    /// Client sends an incremental update.
    Update(Vec<u8>),
    /// Awareness update (passed through).
    Awareness(Vec<u8>),
}

/// The mathematical content of a [`SyncMessage`].
pub enum SyncMessageView {
    SyncStep1(Seq<u8>),
    SyncStep2(Seq<u8>),
    Update(Seq<u8>),
    Awareness(Seq<u8>),
}

impl View for SyncMessage {
    type V = SyncMessageView;

    open spec fn view(&self) -> SyncMessageView {
        match self {
            SyncMessage::SyncStep1(p) => SyncMessageView::SyncStep1(p@),
            SyncMessage::SyncStep2(p) => SyncMessageView::SyncStep2(p@),
            SyncMessage::Update(p) => SyncMessageView::Update(p@),
            SyncMessage::Awareness(p) => SyncMessageView::Awareness(p@),
        }
    }
}

/// Errors of the sync framing.
#[derive(Debug, Clone, Copy, PartialEq, Eq, Structural)]
pub enum SyncError {
    UnexpectedEof,
    UnknownMessageType(u64),
    UnknownSyncType(u64),
}

/// How an error of the sync framing is reported.
pub open spec fn sync_error_message(e: SyncError) -> Seq<char> {
    match e {
        SyncError::UnexpectedEof => "unexpected end of message"@,
        SyncError::UnknownMessageType(t) => "unknown message type: "@ + decimal(t as nat),
        SyncError::UnknownSyncType(t) => "unknown sync type: "@ + decimal(t as nat),
    }
}

impl SyncError {
    /// The text of the error, as it is reported.
    pub fn message(&self) -> (r: String)
        ensures
            r@ == sync_error_message(*self),
    {
        let mut out: Vec<char> = Vec::new();
        match self {
            SyncError::UnexpectedEof => push_str(&mut out, "unexpected end of message"),
            SyncError::UnknownMessageType(t) => {
                push_str(&mut out, "unknown message type: ");
                push_decimal(&mut out, *t);
            },
            SyncError::UnknownSyncType(t) => {
                push_str(&mut out, "unknown sync type: ");
                push_decimal(&mut out, *t);
            },
        }
        chars_to_string(&out)
    }
}

// ---------------------------------------------------------------------------
// lib0 varUint: specification
// ---------------------------------------------------------------------------

/// A byte whose high bit is set announces that more bytes follow.
pub open spec fn has_continuation(b: u8) -> bool {
    b >= 128
}

/// Little-endian base-128 value of the low seven bits of each byte.
pub open spec fn base128_value(s: Seq<u8>) -> nat
    decreases s.len(),
{
    if s.len() == 0 {
        0
    } else {
        ((s[0] % 128) as nat) + 128 * base128_value(s.drop_first())
    }
}

/// The lib0 encoding of `v`: seven bits per byte, least significant first,
/// the high bit set on every byte but the last.
pub open spec fn var_uint_bytes(v: nat) -> Seq<u8>
    decreases v,
{
    if v < 128 {
        seq![v as u8]
    } else {
        seq![((v % 128) + 128) as u8] + var_uint_bytes(v / 128)
    }
}

/// `k` is the index of the byte that ends a varUint read from the start of `s`:
/// it lies among the first ten bytes, has no continuation bit, and every byte
/// before it has one.
pub open spec fn ends_var_uint_at(s: Seq<u8>, k: int) -> bool {
    &&& 0 <= k < s.len()
    &&& k < MAX_VAR_UINT_LEN
    &&& !has_continuation(s[k])
    &&& forall|j: int| 0 <= j < k ==> has_continuation(#[trigger] s[j])
}

/// What reading a varUint from the start of `s` gives: the value (kept modulo
/// 2^64, as the reader accumulates into a `u64`) and the number of bytes used;
/// `None` where the input ends or ten bytes pass without a terminating byte.
pub open spec fn spec_read_var_uint(s: Seq<u8>) -> Option<(u64, nat)> {
    if exists|k: int| ends_var_uint_at(s, k) {
        let k = choose|k: int| ends_var_uint_at(s, k);
        Some(((base128_value(s.take(k + 1)) % 0x1_0000_0000_0000_0000) as u64, (k + 1) as nat))
    } else {
        None
    }
}

/// What reading a length-prefixed byte array from the start of `s` gives:
/// the payload and the total number of bytes used.
pub open spec fn spec_read_var_bytes(s: Seq<u8>) -> Option<(Seq<u8>, nat)> {
    match spec_read_var_uint(s) {
        None => None,
        Some((len, used)) => if used + len > s.len() {
            None
        } else {
            Some((s.subrange(used as int, used + len), (used + len) as nat))
        },
    }
}

/// The lib0 encoding of a length-prefixed byte array.
pub open spec fn var_bytes(data: Seq<u8>) -> Seq<u8> {
    var_uint_bytes(data.len()) + data
}

/// The decoding of the part of a sync message after its outer type.
pub open spec fn spec_decode_sync(rest: Seq<u8>) -> Result<SyncMessageView, SyncError> {
    match spec_read_var_uint(rest) {
        None => Err(SyncError::UnexpectedEof),
        Some((sync_type, used2)) => {
            let rest2 = rest.skip(used2 as int);
            let sub = sync_type;
            if sub == SYNC_STEP1 as u64 || sub == SYNC_STEP2 as u64 || sub == SYNC_UPDATE as u64 {
                match spec_read_var_bytes(rest2) {
                    None => Err(SyncError::UnexpectedEof),
                    Some((payload, _)) => if sub == SYNC_STEP1 as u64 {
                        Ok(SyncMessageView::SyncStep1(payload))
                    } else if sub == SYNC_STEP2 as u64 {
                        Ok(SyncMessageView::SyncStep2(payload))
                    } else {
                        Ok(SyncMessageView::Update(payload))
                    },
                }
            } else {
                Err(SyncError::UnknownSyncType(sync_type))
            }
        },
    }
}

/// The full decoding of a binary WebSocket message: the outer type is read as a
/// varUint and must be 0 (sync) or 1 (awareness); a sync message's inner type
/// must be 0 (step 1), 1 (step 2) or 2 (update).
pub open spec fn spec_decode_message(s: Seq<u8>) -> Result<SyncMessageView, SyncError> {
    match spec_read_var_uint(s) {
        None => Err(SyncError::UnexpectedEof),
        Some((msg_type, used)) => {
            let rest = s.skip(used as int);
            if msg_type == MSG_SYNC as u64 {
                spec_decode_sync(rest)
            } else if msg_type == MSG_AWARENESS as u64 {
                Ok(SyncMessageView::Awareness(rest))
            } else {
                Err(SyncError::UnknownMessageType(msg_type))
            }
        },
    }
}

/// The view of a decoding result.
pub open spec fn decode_result_view(r: Result<SyncMessage, SyncError>) -> Result<SyncMessageView, SyncError> {
    match r {
        Ok(m) => Ok(m@),
        Err(e) => Err(e),
    }
}

/// The encoding of a sync message of inner type `sync_type` with `payload`.
pub open spec fn sync_frame(sync_type: u8, payload: Seq<u8>) -> Seq<u8> {
    var_uint_bytes(MSG_SYNC as nat) + var_uint_bytes(sync_type as nat) + var_bytes(payload)
}


/// 128 raised to `i`.
pub open spec fn pow128(i: nat) -> nat
    decreases i,
{
    if i == 0 {
        1
    } else {
        128 * pow128((i - 1) as nat)
    }
}

// ---------------------------------------------------------------------------
// lib0 varUint: lemmas
// ---------------------------------------------------------------------------

proof fn lemma_pow128_positive(i: nat)
    ensures
        pow128(i) >= 1,
    decreases i,
{
    if i > 0 {
        lemma_pow128_positive((i - 1) as nat);
    }
}

proof fn lemma_pow128_values()
    ensures
        pow128(9) == 0x8000_0000_0000_0000,
        pow128(10) == 0x1_0000_0000_0000_0000 * 64,
{
    reveal_with_fuel(pow128, 11);
}

proof fn lemma_pow128_monotone(i: nat, j: nat)
    requires
        i <= j,
    ensures
        pow128(i) <= pow128(j),
    decreases j,
{
    if i < j {
        lemma_pow128_monotone(i, (j - 1) as nat);
        lemma_pow128_positive((j - 1) as nat);
    }
}

/// Appending a byte adds its seven low bits at the next power of 128.
proof fn lemma_base128_push(t: Seq<u8>, x: u8)
    ensures
        base128_value(t.push(x)) == base128_value(t) + ((x % 128) as nat) * pow128(t.len()),
    decreases t.len(),
{
    let tx = t.push(x);
    if t.len() == 0 {
        assert(tx.drop_first() =~= Seq::<u8>::empty());
        assert(base128_value(Seq::<u8>::empty()) == 0);
        assert(tx[0] == x);
        assert(pow128(0) == 1);
        assert(base128_value(tx) == (x % 128) as nat);
    } else {
        assert(tx.drop_first() =~= t.drop_first().push(x));
        assert(tx[0] == t[0]);
        lemma_base128_push(t.drop_first(), x);
        let a = base128_value(t.drop_first());
        let d = (x % 128) as nat;
        let p = pow128((t.len() - 1) as nat);
        assert(pow128(t.len()) == 128 * p);
        assert(base128_value(tx) == (t[0] % 128) as nat + 128 * (a + d * p));
        assert(base128_value(t) == (t[0] % 128) as nat + 128 * a);
        assert(128 * (a + d * p) == 128 * a + d * (128 * p)) by (nonlinear_arith);
    }
}

/// The base-128 value of a sequence stays below 128 to its length.
proof fn lemma_base128_bound(t: Seq<u8>)
    ensures
        base128_value(t) < pow128(t.len()),
    decreases t.len(),
{
    if t.len() > 0 {
        lemma_base128_bound(t.drop_first());
        let a = base128_value(t.drop_first());
        let p = pow128((t.len() - 1) as nat);
        let d = (t[0] % 128) as nat;
        assert(d + 128 * a < 128 * p) by (nonlinear_arith)
            requires
                a < p,
                d < 128,
        ;
    }
}

/// Facts about the encoding of one value.
pub proof fn lemma_var_uint_bytes(v: nat)
    ensures
        var_uint_bytes(v).len() >= 1,
        base128_value(var_uint_bytes(v)) == v,
        !has_continuation(var_uint_bytes(v).last()),
        forall|j: int|
            0 <= j < var_uint_bytes(v).len() - 1 ==> has_continuation(#[trigger] var_uint_bytes(v)[j]),
        forall|k: nat| k >= 1 && v < pow128(k) ==> var_uint_bytes(v).len() <= k,
    decreases v,
{
    if v >= 128 {
        lemma_var_uint_bytes(v / 128);
        let rest = var_uint_bytes(v / 128);
        let first = ((v % 128) + 128) as u8;
        let all = var_uint_bytes(v);
        assert(all == seq![first] + rest);
        assert(all.drop_first() =~= rest);
        assert(all[0] == first);
        assert(first % 128 == v % 128);
        assert(base128_value(all) == (v % 128) + 128 * (v / 128));
        assert forall|j: int| 0 <= j < all.len() - 1 implies has_continuation(#[trigger] all[j]) by {
            if j > 0 {
                assert(all[j] == rest[j - 1]);
            }
        }
        assert forall|k: nat| k >= 1 && v < pow128(k) implies all.len() <= k by {
            assert(pow128(k) == 128 * pow128((k - 1) as nat));
            if k == 1 {
                assert(pow128(0) == 1);
            } else {
                assert(v / 128 < pow128((k - 1) as nat)) by (nonlinear_arith)
                    requires
                        v < 128 * pow128((k - 1) as nat),
                ;
            }
        }
    } else {
        let all = var_uint_bytes(v);
        assert(all.drop_first() =~= Seq::<u8>::empty());
        assert(base128_value(Seq::<u8>::empty()) == 0);
        assert(all[0] == v as u8);
    }
}

proof fn lemma_ends_unique(s: Seq<u8>, k1: int, k2: int)
    requires
        ends_var_uint_at(s, k1),
        ends_var_uint_at(s, k2),
    ensures
        k1 == k2,
{
    if k1 < k2 {
        assert(has_continuation(s[k1]));
    } else if k2 < k1 {
        assert(has_continuation(s[k2]));
    }
}

/// Reading back an encoded value, with anything after it, gives the value and the
/// length of its encoding.
pub proof fn law_read_var_uint_of_encoding(v: u64, rest: Seq<u8>)
    ensures
        spec_read_var_uint(var_uint_bytes(v as nat) + rest) == Some(
            (v, var_uint_bytes(v as nat).len()),
        ),
        var_uint_bytes(v as nat).len() <= MAX_VAR_UINT_LEN,
{
    let e = var_uint_bytes(v as nat);
    let s = e + rest;
    lemma_var_uint_bytes(v as nat);
    lemma_pow128_values();
    assert(e.len() <= 10);
    let k = e.len() - 1;
    assert forall|j: int| 0 <= j < k implies has_continuation(#[trigger] s[j]) by {
        assert(s[j] == e[j]);
    }
    assert(s[k] == e.last());
    assert(ends_var_uint_at(s, k));
    let c = choose|k: int| ends_var_uint_at(s, k);
    lemma_ends_unique(s, k, c);
    assert(s.take(k + 1) =~= e);
}

/// Reading back an encoded byte array, with anything after it, gives the array and
/// the length of its encoding.
pub proof fn law_read_var_bytes_of_encoding(data: Seq<u8>, rest: Seq<u8>)
    requires
        data.len() <= u64::MAX,
    ensures
        spec_read_var_bytes(var_bytes(data) + rest) == Some((data, var_bytes(data).len())),
{
    let n = data.len() as u64;
    let e = var_uint_bytes(n as nat);
    law_read_var_uint_of_encoding(n, data + rest);
    assert(var_bytes(data) + rest =~= e + (data + rest));
    let s = var_bytes(data) + rest;
    assert(s.subrange(e.len() as int, (e.len() + data.len()) as int) =~= data);
}

/// Decoding the encoding of a sync message, with anything after it, gives back its
/// payload under the same inner type.
pub proof fn law_decode_sync_frame(sync_type: u8, payload: Seq<u8>, rest: Seq<u8>)
    requires
        sync_type == SYNC_STEP1 || sync_type == SYNC_STEP2 || sync_type == SYNC_UPDATE,
        payload.len() <= u64::MAX,
    ensures
        spec_decode_message(sync_frame(sync_type, payload) + rest) == (if sync_type == SYNC_STEP1 {
            Ok::<SyncMessageView, SyncError>(SyncMessageView::SyncStep1(payload))
        } else if sync_type == SYNC_STEP2 {
            Ok(SyncMessageView::SyncStep2(payload))
        } else {
            Ok(SyncMessageView::Update(payload))
        }),
{
    let a = var_uint_bytes(MSG_SYNC as nat);
    let b = var_uint_bytes(sync_type as nat);
    let c = var_bytes(payload);
    let s = sync_frame(sync_type, payload) + rest;
    assert(s =~= a + (b + (c + rest)));
    law_read_var_uint_of_encoding(MSG_SYNC as u64, b + (c + rest));
    assert(s.skip(a.len() as int) =~= b + (c + rest));
    law_read_var_uint_of_encoding(sync_type as u64, c + rest);
    assert((b + (c + rest)).skip(b.len() as int) =~= c + rest);
    law_read_var_bytes_of_encoding(payload, rest);
}

/// Decoding the encoding of an awareness message gives back its whole payload.
pub proof fn law_decode_awareness_frame(data: Seq<u8>)
    ensures
        spec_decode_message(var_uint_bytes(MSG_AWARENESS as nat) + data) == Ok::<
            SyncMessageView,
            SyncError,
        >(SyncMessageView::Awareness(data)),
{
    let a = var_uint_bytes(MSG_AWARENESS as nat);
    law_read_var_uint_of_encoding(MSG_AWARENESS as u64, data);
    assert((a + data).skip(a.len() as int) =~= data);
}

// ---------------------------------------------------------------------------
// lib0 varUint: executable code
// ---------------------------------------------------------------------------

/// Read a varUint starting at `start`; returns (value, bytes consumed).
fn read_var_uint_from(data: &[u8], start: usize) -> (r: Result<(u64, usize), SyncError>)
    requires
        start <= data@.len(),
    ensures
        match spec_read_var_uint(data@.skip(start as int)) {
            Some((v, n)) => r == Ok::<(u64, usize), SyncError>((v, n as usize)),
            None => r == Err::<(u64, usize), SyncError>(SyncError::UnexpectedEof),
        },
        r matches Ok((_, n)) ==> 1 <= n <= MAX_VAR_UINT_LEN && start + n <= data@.len(),
{
    let ghost s = data@.skip(start as int);
    let avail = data.len() - start;
    let mut value: u64 = 0;
    let mut mult: u64 = 1;
    let mut i: usize = 0;
    proof {
        lemma_pow128_values();
        assert(s.take(0) =~= Seq::<u8>::empty());
    }
    while i < avail
        invariant
            s == data@.skip(start as int),
            start <= data@.len(),
            avail == s.len(),
            avail == data@.len() - start,
            start + avail <= usize::MAX,
            i < MAX_VAR_UINT_LEN,
            i <= s.len(),
            forall|j: int| 0 <= j < i ==> has_continuation(#[trigger] s[j]),
            value == base128_value(s.take(i as int)),
            mult == pow128(i as nat),
            pow128(9) == 0x8000_0000_0000_0000,
        decreases s.len() - i,
    {
        let b = data[start + i];
        assert(b == s[i as int]);
        let d: u64 = (b % 128) as u64;
        proof {
            lemma_base128_bound(s.take(i as int));
            lemma_pow128_monotone(i as nat, 9);
            assert(s.take(i as int).push(b) =~= s.take(i + 1));
            lemma_base128_push(s.take(i as int), b);
        }
        if b < 128 {
            let total = if i == 9 {
                proof {
                    let q = d / 2;
                    assert(d * mult == q * 0x1_0000_0000_0000_0000 + (d % 2) * mult) by (nonlinear_arith)
                        requires
                            mult == 0x8000_0000_0000_0000,
                            q == d / 2,
                    ;
                    assert((value + d * mult) % 0x1_0000_0000_0000_0000 == value + (d % 2) * mult) by (nonlinear_arith)
                        requires
                            d * mult == q * 0x1_0000_0000_0000_0000 + (d % 2) * mult,
                            mult == 0x8000_0000_0000_0000,
                            value < mult,
                            d % 2 <= 1,
                    ;
                }
                value + (d % 2) * mult
            } else {
                proof {
                    assert(value + d * mult < 128 * mult) by (nonlinear_arith)
                        requires
                            value < mult,
                            d < 128,
                    ;
                    lemma_pow128_monotone((i + 1) as nat, 9);
                }
                value + d * mult
            };
            proof {
                assert(ends_var_uint_at(s, i as int));
                let c = choose|k: int| ends_var_uint_at(s, k);
                lemma_ends_unique(s, i as int, c);
            }
            return Ok((total, i + 1));
        }
        if i == 9 {
            proof {
                assert forall|k: int| !ends_var_uint_at(s, k) by {
                    if 0 <= k < 10 && k < s.len() && k != 9 {
                        assert(has_continuation(s[k]));
                    }
                }
            }
            return Err(SyncError::UnexpectedEof);
        }
        proof {
            assert(value + d * mult < 128 * mult) by (nonlinear_arith)
                requires
                    value < mult,
                    d < 128,
            ;
            lemma_pow128_monotone((i + 1) as nat, 9);
        }
        value = value + d * mult;
        mult = mult * 128;
        i = i + 1;
    }
    proof {
        assert forall|k: int| !ends_var_uint_at(s, k) by {
            if 0 <= k < s.len() {
                assert(has_continuation(s[k]));
            }
        }
    }
    Err(SyncError::UnexpectedEof)
}

/// Read a variable-length unsigned integer (lib0 format).
/// Returns (value, bytes_consumed).
pub fn read_var_uint(data: &[u8]) -> (r: Result<(u64, usize), SyncError>)
    ensures
        match spec_read_var_uint(data@) {
            Some((v, n)) => r == Ok::<(u64, usize), SyncError>((v, n as usize)),
            None => r == Err::<(u64, usize), SyncError>(SyncError::UnexpectedEof),
        },
{
    assert(data@.skip(0) =~= data@);
    read_var_uint_from(data, 0)
}

/// Write a variable-length unsigned integer (lib0 format).
pub fn write_var_uint(buf: &mut Vec<u8>, value: u64)
    ensures
        final(buf)@ == old(buf)@ + var_uint_bytes(value as nat),
{
    let mut v = value;
    while v >= 128
        invariant
            buf@ + var_uint_bytes(v as nat) == old(buf)@ + var_uint_bytes(value as nat),
        decreases v,
    {
        let ghost before = buf@;
        let byte = ((v % 128) + 128) as u8;
        buf.push(byte);
        assert(var_uint_bytes(v as nat) == seq![byte] + var_uint_bytes((v / 128) as nat));
        assert(before + var_uint_bytes(v as nat) =~= buf@ + var_uint_bytes((v / 128) as nat));
        v = v / 128;
    }
    let ghost before = buf@;
    buf.push(v as u8);
    assert(buf@ =~= before + var_uint_bytes(v as nat));
}

/// Copy `len` bytes of `data` from `start` into a new vector.
fn copy_range(data: &[u8], start: usize, len: usize) -> (r: Vec<u8>)
    requires
        start + len <= data@.len(),
    ensures
        r@ == data@.subrange(start as int, start + len),
{
    let total = data.len();
    let mut out: Vec<u8> = Vec::new();
    let mut i: usize = 0;
    while i < len
        invariant
            start + len <= data@.len(),
            total == data@.len(),
            i <= len,
            out@ == data@.subrange(start as int, start + i),
        decreases len - i,
    {
        out.push(data[start + i]);
        assert(out@ =~= data@.subrange(start as int, start + i + 1));
        i = i + 1;
    }
    out
}

/// Read a length-prefixed byte array starting at `start`;
/// returns (bytes, bytes consumed from `start`).
fn read_var_bytes_from(data: &[u8], start: usize) -> (r: Result<(Vec<u8>, usize), SyncError>)
    requires
        start <= data@.len(),
    ensures
        match spec_read_var_bytes(data@.skip(start as int)) {
            Some((p, n)) => r matches Ok((v, m)) && v@ == p && m == n,
            None => r == Err::<(Vec<u8>, usize), SyncError>(SyncError::UnexpectedEof),
        },
{
    let ghost s = data@.skip(start as int);
    let (len, consumed) = read_var_uint_from(data, start)?;
    let avail = data.len() - start - consumed;
    if len > avail as u64 {
        return Err(SyncError::UnexpectedEof);
    }
    let n = len as usize;
    let out = copy_range(data, start + consumed, n);
    assert(out@ =~= s.subrange(consumed as int, consumed + len));
    Ok((out, consumed + n))
}

/// Read a length-prefixed byte array.
/// Returns (bytes, total_consumed).
pub fn read_var_bytes(data: &[u8]) -> (r: Result<(Vec<u8>, usize), SyncError>)
    ensures
        match spec_read_var_bytes(data@) {
            Some((p, n)) => r matches Ok((v, m)) && v@ == p && m == n,
            None => r == Err::<(Vec<u8>, usize), SyncError>(SyncError::UnexpectedEof),
        },
{
    assert(data@.skip(0) =~= data@);
    read_var_bytes_from(data, 0)
}

/// Append the bytes of `data` to `buf`.
fn append_bytes(buf: &mut Vec<u8>, data: &[u8])
    ensures
        final(buf)@ == old(buf)@ + data@,
{
    let mut i: usize = 0;
    while i < data.len()
        invariant
            i <= data@.len(),
            buf@ == old(buf)@ + data@.take(i as int),
        decreases data@.len() - i,
    {
        buf.push(data[i]);
        assert(buf@ =~= old(buf)@ + data@.take(i + 1));
        i = i + 1;
    }
    assert(data@.take(data@.len() as int) =~= data@);
}

/// Write a length-prefixed byte array.
pub fn write_var_bytes(buf: &mut Vec<u8>, data: &[u8])
    ensures
        final(buf)@ == old(buf)@ + var_bytes(data@),
{
    write_var_uint(buf, data.len() as u64);
    append_bytes(buf, data);
    assert(buf@ =~= old(buf)@ + var_bytes(data@));
}

// ---------------------------------------------------------------------------
// Messages
// ---------------------------------------------------------------------------

/// Decode the part of a sync message that starts at `start`, after the outer type.
fn decode_sync_from(data: &[u8], start: usize) -> (r: Result<SyncMessage, SyncError>)
    requires
        start <= data@.len(),
    ensures
        decode_result_view(r) == spec_decode_sync(data@.skip(start as int)),
{
    let ghost s = data@.skip(start as int);
    let _total = data.len();
    let (sync_type, consumed2) = read_var_uint_from(data, start)?;
    let pos = start + consumed2;
    assert(s.skip(consumed2 as int) =~= data@.skip(pos as int));
    let sub = sync_type;
    if sub == SYNC_STEP1 as u64 {
        let (payload, _) = read_var_bytes_from(data, pos)?;
        Ok(SyncMessage::SyncStep1(payload))
    } else if sub == SYNC_STEP2 as u64 {
        let (payload, _) = read_var_bytes_from(data, pos)?;
        Ok(SyncMessage::SyncStep2(payload))
    } else if sub == SYNC_UPDATE as u64 {
        let (payload, _) = read_var_bytes_from(data, pos)?;
        Ok(SyncMessage::Update(payload))
    } else {
        Err(SyncError::UnknownSyncType(sync_type))
    }
}

/// Decode a raw WebSocket binary message.
pub fn decode_message(data: &[u8]) -> (r: Result<SyncMessage, SyncError>)
    ensures
        decode_result_view(r) == spec_decode_message(data@),
{
    let ghost s = data@;
    assert(s.skip(0) =~= s);
    let (msg_type, consumed) = read_var_uint_from(data, 0)?;
    let tag = msg_type;
    if tag == MSG_SYNC as u64 {
        decode_sync_from(data, consumed)
    } else if tag == MSG_AWARENESS as u64 {
        let out = copy_range(data, consumed, data.len() - consumed);
        assert(out@ =~= s.skip(consumed as int));
        Ok(SyncMessage::Awareness(out))
    } else {
        Err(SyncError::UnknownMessageType(msg_type))
    }
}

fn encode_sync_frame(sync_type: u8, payload: &[u8]) -> (r: Vec<u8>)
    ensures
        r@ == sync_frame(sync_type, payload@),
{
    let mut buf: Vec<u8> = Vec::new();
    write_var_uint(&mut buf, MSG_SYNC as u64);
    write_var_uint(&mut buf, sync_type as u64);
    write_var_bytes(&mut buf, payload);
    assert(buf@ =~= sync_frame(sync_type, payload@));
    buf
}

/// Encode a SyncStep1 message (contains our state vector).
pub fn encode_sync_step1(state_vector: &[u8]) -> (r: Vec<u8>)
    ensures
        r@ == sync_frame(SYNC_STEP1, state_vector@),
{
    encode_sync_frame(SYNC_STEP1, state_vector)
}

/// Encode a SyncStep2 message (contains an update for the client).
pub fn encode_sync_step2(update: &[u8]) -> (r: Vec<u8>)
    ensures
        r@ == sync_frame(SYNC_STEP2, update@),
{
    encode_sync_frame(SYNC_STEP2, update)
}

/// Encode an incremental update message.
pub fn encode_update(update: &[u8]) -> (r: Vec<u8>)
    ensures
        r@ == sync_frame(SYNC_UPDATE, update@),
{
    encode_sync_frame(SYNC_UPDATE, update)
}

/// Encode an awareness message.
pub fn encode_awareness(data: &[u8]) -> (r: Vec<u8>)
    ensures
        r@ == var_uint_bytes(MSG_AWARENESS as nat) + data@,
{
    let mut buf: Vec<u8> = Vec::new();
    write_var_uint(&mut buf, MSG_AWARENESS as u64);
    append_bytes(&mut buf, data);
    assert(buf@ =~= var_uint_bytes(MSG_AWARENESS as nat) + data@);
    buf
}

} // verus!

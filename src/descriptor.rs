//! The descriptor file that the agent publishes for a loop-back socket: a
//! port and a 16-byte nonce, in the raw or the Cygwin format.
use crate::error::{report_data_err, BridgeError};
use crate::text::{
    all_digits, all_hex, all_spaces, decimal, decimal_value, digit_run, hex_digit_value,
    hex_digits, hex_value, is_digit, is_hex_digit, is_space, lemma_decimal_round_trip,
    lemma_digit_run_exact, lemma_hex_round_trip, lemma_hex_value_bound, lemma_pow16_le8,
    lemma_space_run_exact, pow16, space_run,
};
use vstd::prelude::*;

verus! {

/// Where an agent listens on loop-back, and the secret that a client presents
/// first.
#[derive(Clone, Copy, Debug, PartialEq, Eq)]
pub struct SocketDescriptor {
    pub port: u16,
    pub nonce: [u8; 16],
}

/// Why a descriptor file was rejected.
#[derive(Clone, Copy, Debug, PartialEq, Eq, Structural)]
pub enum DescriptorError {
    /// The file ends before a required field.
    Truncated,
    /// A required digit is missing or a number holds another character.
    NotNumeric,
    /// The port does not fit the allowed range.
    PortOutOfRange,
    /// A delimiter is missing or wrong.
    WrongFormat,
}

impl DescriptorError {
    pub open spec fn spec_message(self) -> Seq<char> {
        match self {
            DescriptorError::Truncated => "buffer too short"@,
            DescriptorError::NotNumeric => "invalid number"@,
            DescriptorError::PortOutOfRange => "port out of range"@,
            DescriptorError::WrongFormat => "wrong data format"@,
        }
    }

    /// The data-format error that reports this rejection.
    pub fn to_error(self) -> (r: BridgeError)
        ensures
            r.kind == crate::error::ErrorKind::InvalidData,
            r.details@ == self.spec_message(),
    {
        let msg = match self {
            DescriptorError::Truncated => "buffer too short",
            DescriptorError::NotNumeric => "invalid number",
            DescriptorError::PortOutOfRange => "port out of range",
            DescriptorError::WrongFormat => "wrong data format",
        };
        report_data_err(String::from_str(msg))
    }
}

/// Scans the digits of `b` from `start` on, stopping at `end`.
fn scan_digits(b: &[u8], start: usize, end: usize) -> (r: usize)
    requires
        start <= end <= b@.len(),
    ensures
        start <= r <= end,
        r - start == digit_run(b@.subrange(start as int, end as int)),
        all_digits(b@.subrange(start as int, r as int)),
        r == end || !is_digit(b@[r as int]),
{
    let mut i: usize = start;
    while i < end && b[i] >= 48 && b[i] <= 57
        invariant
            start <= i <= end <= b@.len(),
            all_digits(b@.subrange(start as int, i as int)),
        decreases end - i,
    {
        assert(b@.subrange(start as int, i + 1) =~= b@.subrange(start as int, i as int).push(b@[i as int]));
        i = i + 1;
    }
    let ghost s = b@.subrange(start as int, end as int);
    assert(s.subrange(0, i - start) =~= b@.subrange(start as int, i as int));
    proof {
        lemma_digit_run_exact(s, i - start);
    }
    i
}

/// Scans the white space of `b` from `start` on, stopping at `end`.
fn scan_spaces(b: &[u8], start: usize, end: usize) -> (r: usize)
    requires
        start <= end <= b@.len(),
    ensures
        start <= r <= end,
        r - start == space_run(b@.subrange(start as int, end as int)),
{
    let mut i: usize = start;
    while i < end && (b[i] == 32 || (b[i] >= 9 && b[i] <= 13))
        invariant
            start <= i <= end <= b@.len(),
            all_spaces(b@.subrange(start as int, i as int)),
        decreases end - i,
    {
        assert(b@.subrange(start as int, i + 1) =~= b@.subrange(start as int, i as int).push(b@[i as int]));
        i = i + 1;
    }
    let ghost s = b@.subrange(start as int, end as int);
    assert(s.subrange(0, i - start) =~= b@.subrange(start as int, i as int));
    proof {
        lemma_space_run_exact(s, i - start);
    }
    i
}

/// Whether `b[start..end]` is all white space.
fn only_spaces(b: &[u8], start: usize, end: usize) -> (r: bool)
    requires
        start <= end <= b@.len(),
    ensures
        r == all_spaces(b@.subrange(start as int, end as int)),
{
    let mut i: usize = start;
    while i < end
        invariant
            start <= i <= end <= b@.len(),
            all_spaces(b@.subrange(start as int, i as int)),
        decreases end - i,
    {
        if !(b[i] == 32 || (b[i] >= 9 && b[i] <= 13)) {
            assert(!is_space(b@.subrange(start as int, end as int)[i - start]));
            return false;
        }
        assert(b@.subrange(start as int, i + 1) =~= b@.subrange(start as int, i as int).push(b@[i as int]));
        i = i + 1;
    }
    assert(b@.subrange(start as int, end as int) =~= b@.subrange(start as int, i as int));
    true
}

/// The value of the decimal digits `b[start..end]`, when it fits a port.
fn parse_port(b: &[u8], start: usize, end: usize) -> (r: Option<u16>)
    requires
        start <= end <= b@.len(),
        all_digits(b@.subrange(start as int, end as int)),
    ensures
        r == (if decimal_value(b@.subrange(start as int, end as int)) <= 65535 {
            Some(decimal_value(b@.subrange(start as int, end as int)) as u16)
        } else {
            None
        }),
{
    let mut v: u32 = 0;
    let mut big = false;
    let mut i: usize = start;
    while i < end
        invariant
            start <= i <= end <= b@.len(),
            all_digits(b@.subrange(start as int, end as int)),
            big ==> decimal_value(b@.subrange(start as int, i as int)) > 65535,
            !big ==> v == decimal_value(b@.subrange(start as int, i as int)) && v <= 65535,
        decreases end - i,
    {
        let ghost prev = b@.subrange(start as int, i as int);
        let ghost next = b@.subrange(start as int, i + 1);
        assert(next.drop_last() =~= prev);
        assert(next.last() == b@[i as int]);
        assert(is_digit(b@.subrange(start as int, end as int)[i - start]));
        let d = (b[i] - 48) as u32;
        if !big {
            let nv = v * 10 + d;
            if nv > 65535 {
                big = true;
            } else {
                v = nv;
            }
        }
        i = i + 1;
    }
    if big {
        None
    } else {
        Some(v as u16)
    }
}

fn hex_digit(c: u8) -> (r: Option<u32>)
    ensures
        r == (if is_hex_digit(c) {
            Some(hex_digit_value(c) as u32)
        } else {
            None
        }),
{
    if c >= 48 && c <= 57 {
        Some((c - 48) as u32)
    } else if c >= 97 && c <= 102 {
        Some((c - 87) as u32)
    } else if c >= 65 && c <= 70 {
        Some((c - 55) as u32)
    } else {
        None
    }
}

/// The value of the eight hexadecimal digits at `b[start..start + 8]`.
fn parse_hex8(b: &[u8], start: usize) -> (r: Option<u32>)
    requires
        start + 8 <= b@.len(),
    ensures
        r == (if all_hex(b@.subrange(start as int, start + 8)) {
            Some(hex_value(b@.subrange(start as int, start + 8)) as u32)
        } else {
            None
        }),
        all_hex(b@.subrange(start as int, start + 8)) ==> hex_value(
            b@.subrange(start as int, start + 8),
        ) < 0x1_0000_0000,
{
    let mut v: u64 = 0;
    let n = b.len();
    let end = start + 8;
    let mut i: usize = start;
    while i < end
        invariant
            end == start + 8,
            start <= i <= start + 8 <= b@.len(),
            all_hex(b@.subrange(start as int, i as int)),
            v == hex_value(b@.subrange(start as int, i as int)),
            v < pow16((i - start) as nat),
        decreases end - i,
    {
        let ghost prev = b@.subrange(start as int, i as int);
        let ghost next = b@.subrange(start as int, i + 1);
        assert(next.drop_last() =~= prev);
        assert(next =~= prev.push(b@[i as int]));
        match hex_digit(b[i]) {
            None => {
                assert(!is_hex_digit(b@.subrange(start as int, start + 8)[i - start]));
                return None;
            },
            Some(h) => {
                proof {
                    lemma_pow16_le8((i - start) as nat);
                    lemma_hex_value_bound(next);
                }
                v = v * 16 + h as u64;
                i = i + 1;
            },
        }
    }
    proof {
        lemma_pow16_le8(8);
    }
    Some(v as u32)
}

/// The literal that opens a descriptor in the Cygwin format.
pub open spec fn cygwin_magic() -> Seq<u8> {
    seq![33u8, 60, 115, 111, 99, 107, 101, 116, 32, 62]
}

pub open spec fn has_cygwin_magic(b: Seq<u8>) -> bool {
    b.len() >= 10 && b.subrange(0, 10) == cygwin_magic()
}

/// The raw format: a decimal port surrounded by white space, then the last
/// 16 bytes of the file as the nonce.
pub open spec fn raw_spec(b: Seq<u8>) -> Result<(u16, Seq<u8>), DescriptorError> {
    if b.len() < 16 {
        Err(DescriptorError::Truncated)
    } else {
        let text = b.subrange(0, b.len() - 16);
        let a = space_run(text) as int;
        let d = digit_run(text.subrange(a, text.len() as int)) as int;
        if d == 0 || !all_spaces(text.subrange(a + d, text.len() as int)) {
            Err(DescriptorError::NotNumeric)
        } else if decimal_value(text.subrange(a, a + d)) > 65535 {
            Err(DescriptorError::PortOutOfRange)
        } else {
            Ok(
                (
                    decimal_value(text.subrange(a, a + d)) as u16,
                    b.subrange(b.len() - 16, b.len() as int),
                ),
            )
        }
    }
}

/// Where the hexadecimal group `g` starts, after a port of `k` digits.
pub open spec fn group_start(k: int, g: int) -> int {
    k + 3 + 9 * g
}

/// Eight hexadecimal digits at `start`, followed by `sep`.
pub open spec fn group_ok(b: Seq<u8>, start: int, sep: u8) -> bool {
    all_hex(b.subrange(start, start + 8)) && b[start + 8] == sep
}

pub open spec fn group_value(b: Seq<u8>, start: int) -> u32 {
    hex_value(b.subrange(start, start + 8)) as u32
}

/// The Cygwin format after its opening literal:
/// `<port> s <8hex>-<8hex>-<8hex>-<8hex>\0`, with a port in `1..=65535`.
/// Bytes after the terminating zero are ignored.
pub open spec fn cygwin_spec(b: Seq<u8>) -> Result<(u16, Seq<u32>), DescriptorError> {
    let k = digit_run(b) as int;
    if k == 0 {
        Err(DescriptorError::NotNumeric)
    } else if decimal_value(b.subrange(0, k)) == 0 || decimal_value(b.subrange(0, k)) > 65535 {
        Err(DescriptorError::PortOutOfRange)
    } else if b.len() < k + 39 {
        Err(DescriptorError::Truncated)
    } else if b[k] != 32 || b[k + 1] != 115 || b[k + 2] != 32 {
        Err(DescriptorError::WrongFormat)
    } else if !(group_ok(b, group_start(k, 0), 45) && group_ok(b, group_start(k, 1), 45)
        && group_ok(b, group_start(k, 2), 45) && group_ok(b, group_start(k, 3), 0)) {
        Err(DescriptorError::WrongFormat)
    } else {
        Ok(
            (
                decimal_value(b.subrange(0, k)) as u16,
                seq![
                    group_value(b, group_start(k, 0)),
                    group_value(b, group_start(k, 1)),
                    group_value(b, group_start(k, 2)),
                    group_value(b, group_start(k, 3)),
                ],
            ),
        )
    }
}

/// The four bytes of `w`, least significant first.
pub open spec fn le_bytes(w: u32) -> Seq<u8> {
    seq![
        (w % 256) as u8,
        ((w / 256) % 256) as u8,
        ((w / 65536) % 256) as u8,
        (w / 16777216) as u8,
    ]
}

/// The four bytes of `w`, most significant first.
pub open spec fn be_bytes(w: u32) -> Seq<u8> {
    seq![
        (w / 16777216) as u8,
        ((w / 65536) % 256) as u8,
        ((w / 256) % 256) as u8,
        (w % 256) as u8,
    ]
}

/// Each word of `words` stands at its place in `nonce` in the host's byte
/// order, which is one of the two.
pub open spec fn nonce_holds_words(nonce: Seq<u8>, words: Seq<u32>) -> bool {
    &&& nonce.len() == 16
    &&& words.len() == 4
    &&& forall|g: int|
        0 <= g < 4 ==> (#[trigger] nonce.subrange(4 * g, 4 * g + 4) == le_bytes(words[g])
            || nonce.subrange(4 * g, 4 * g + 4) == be_bytes(words[g]))
}

/// Relies on `u32::to_ne_bytes`: the word's bytes in the host's byte order,
/// which is little- or big-endian.
#[verifier::external_body]
fn native_bytes(w: u32) -> (r: [u8; 4])
    ensures
        r@ == le_bytes(w) || r@ == be_bytes(w),
{
    w.to_ne_bytes()
}

/// The 16-byte nonce made of four words laid out in native byte order.
pub fn words_to_nonce(words: [u32; 4]) -> (r: [u8; 16])
    ensures
        nonce_holds_words(r@, words@),
{
    let a = native_bytes(words[0]);
    let b = native_bytes(words[1]);
    let c = native_bytes(words[2]);
    let d = native_bytes(words[3]);
    let r = [a[0], a[1], a[2], a[3], b[0], b[1], b[2], b[3], c[0], c[1], c[2], c[3], d[0], d[1], d[2], d[3]];
    assert(r@.subrange(0, 4) =~= a@);
    assert(r@.subrange(4, 8) =~= b@);
    assert(r@.subrange(8, 12) =~= c@);
    assert(r@.subrange(12, 16) =~= d@);
    assert forall|g: int| 0 <= g < 4 implies (#[trigger] r@.subrange(4 * g, 4 * g + 4) == le_bytes(words@[g])
        || r@.subrange(4 * g, 4 * g + 4) == be_bytes(words@[g])) by {
        if g == 0 {
        } else if g == 1 {
        } else if g == 2 {
        } else {
        }
    }
    r
}

/// One hexadecimal group at `start` and the delimiter `sep` after it.
fn parse_group(b: &[u8], start: usize, sep: u8) -> (r: Option<u32>)
    requires
        start + 9 <= b@.len(),
    ensures
        r == (if group_ok(b@, start as int, sep) {
            Some(group_value(b@, start as int))
        } else {
            None
        }),
{
    let n = b.len();
    match parse_hex8(b, start) {
        None => None,
        Some(v) => {
            if start + 8 < n && b[start + 8] == sep {
                Some(v)
            } else {
                None
            }
        },
    }
}

/// Parses the Cygwin format, `b` starting after the opening literal, into
/// the port and the four words of the nonce.
pub fn parse_cygwin(b: &[u8]) -> (r: Result<(u16, [u32; 4]), DescriptorError>)
    ensures
        match cygwin_spec(b@) {
            Ok((port, words)) => r matches Ok((p, w)) && p == port && w@ == words,
            Err(e) => r == Err::<(u16, [u32; 4]), DescriptorError>(e),
        },
{
    let n = b.len();
    let k = scan_digits(b, 0, n);
    assert(b@.subrange(0, n as int) =~= b@);
    if k == 0 {
        return Err(DescriptorError::NotNumeric);
    }
    let port = match parse_port(b, 0, k) {
        None => {
            return Err(DescriptorError::PortOutOfRange);
        },
        Some(p) => p,
    };
    if port == 0 {
        return Err(DescriptorError::PortOutOfRange);
    }
    if n - k < 39 {
        return Err(DescriptorError::Truncated);
    }
    if b[k] != 32 || b[k + 1] != 115 || b[k + 2] != 32 {
        return Err(DescriptorError::WrongFormat);
    }
    let w0 = match parse_group(b, k + 3, 45) {
        None => {
            return Err(DescriptorError::WrongFormat);
        },
        Some(w) => w,
    };
    let w1 = match parse_group(b, k + 12, 45) {
        None => {
            return Err(DescriptorError::WrongFormat);
        },
        Some(w) => w,
    };
    let w2 = match parse_group(b, k + 21, 45) {
        None => {
            return Err(DescriptorError::WrongFormat);
        },
        Some(w) => w,
    };
    let w3 = match parse_group(b, k + 30, 0) {
        None => {
            return Err(DescriptorError::WrongFormat);
        },
        Some(w) => w,
    };
    let words = [w0, w1, w2, w3];
    assert(words@ =~= seq![w0, w1, w2, w3]);
    Ok((port, words))
}

/// Parses a Cygwin-format descriptor, `b` starting after the opening literal.
pub fn load_cygwin_port_nounce(b: &[u8]) -> (r: Result<SocketDescriptor, DescriptorError>)
    ensures
        match cygwin_spec(b@) {
            Ok((port, words)) => r matches Ok(d) && d.port == port && nonce_holds_words(
                d.nonce@,
                words,
            ),
            Err(e) => r == Err::<SocketDescriptor, DescriptorError>(e),
        },
{
    match parse_cygwin(b) {
        Ok((port, words)) => Ok(SocketDescriptor { port, nonce: words_to_nonce(words) }),
        Err(e) => Err(e),
    }
}

/// Parses a raw-format descriptor.
pub fn load_raw_port_nounce(b: &[u8]) -> (r: Result<SocketDescriptor, DescriptorError>)
    ensures
        match raw_spec(b@) {
            Ok((port, nonce)) => r matches Ok(d) && d.port == port && d.nonce@ == nonce,
            Err(e) => r == Err::<SocketDescriptor, DescriptorError>(e),
        },
{
    let n = b.len();
    if n < 16 {
        return Err(DescriptorError::Truncated);
    }
    let t = n - 16;
    let ghost text = b@.subrange(0, t as int);
    let a = scan_spaces(b, 0, t);
    let e = scan_digits(b, a, t);
    assert(text.subrange(a as int, text.len() as int) =~= b@.subrange(a as int, t as int));
    assert(text.subrange(e as int, text.len() as int) =~= b@.subrange(e as int, t as int));
    assert(text.subrange(a as int, e as int) =~= b@.subrange(a as int, e as int));
    assert(b@.subrange(0, t as int) =~= text);
    if e == a || !only_spaces(b, e, t) {
        return Err(DescriptorError::NotNumeric);
    }
    let port = match parse_port(b, a, e) {
        None => {
            return Err(DescriptorError::PortOutOfRange);
        },
        Some(p) => p,
    };
    let nonce = [
        b[t], b[t + 1], b[t + 2], b[t + 3], b[t + 4], b[t + 5], b[t + 6], b[t + 7],
        b[t + 8], b[t + 9], b[t + 10], b[t + 11], b[t + 12], b[t + 13], b[t + 14], b[t + 15],
    ];
    assert(nonce@ =~= b@.subrange(t as int, n as int));
    Ok(SocketDescriptor { port, nonce })
}

/// What a descriptor file holds, in either format.
pub open spec fn descriptor_matches(b: Seq<u8>, r: Result<SocketDescriptor, DescriptorError>) -> bool {
    if has_cygwin_magic(b) {
        match cygwin_spec(b.subrange(10, b.len() as int)) {
            Ok((port, words)) => r matches Ok(d) && d.port == port && nonce_holds_words(
                d.nonce@,
                words,
            ),
            Err(e) => r == Err::<SocketDescriptor, DescriptorError>(e),
        }
    } else {
        match raw_spec(b) {
            Ok((port, nonce)) => r matches Ok(d) && d.port == port && d.nonce@ == nonce,
            Err(e) => r == Err::<SocketDescriptor, DescriptorError>(e),
        }
    }
}

fn starts_with_cygwin_magic(b: &[u8]) -> (r: bool)
    ensures
        r == has_cygwin_magic(b@),
{
    if b.len() < 10 {
        return false;
    }
    let r = b[0] == 33 && b[1] == 60 && b[2] == 115 && b[3] == 111 && b[4] == 99 && b[5] == 107
        && b[6] == 101 && b[7] == 116 && b[8] == 32 && b[9] == 62;
    assert(r ==> b@.subrange(0, 10) =~= cygwin_magic());
    assert(b@.subrange(0, 10) == cygwin_magic() ==> r) by {
        if b@.subrange(0, 10) == cygwin_magic() {
            assert(b@.subrange(0, 10)[9] == 62);
            assert(b@.subrange(0, 10)[8] == 32);
        }
    }
    r
}

/// Parses the whole content of a descriptor file, telling the two formats
/// apart by the Cygwin opening literal.
pub fn load_port_nounce(b: &[u8]) -> (r: Result<SocketDescriptor, DescriptorError>)
    ensures
        descriptor_matches(b@, r),
{
    if starts_with_cygwin_magic(b) {
        let rest = vstd::slice::slice_subrange(b, 10, b.len());
        load_cygwin_port_nounce(rest)
    } else {
        load_raw_port_nounce(b)
    }
}

/// A raw descriptor file: the port in decimal, a newline, the nonce.
pub open spec fn raw_file(port: u16, nonce: Seq<u8>) -> Seq<u8> {
    decimal(port as nat).push(10u8) + nonce
}

/// A Cygwin descriptor file as the agent writes it:
/// `!<socket >{port} s {w0:08x}-{w1:08x}-{w2:08x}-{w3:08x}\0`.
pub open spec fn cygwin_file(port: u16, w0: u32, w1: u32, w2: u32, w3: u32) -> Seq<u8> {
    cygwin_magic() + cygwin_body(port, w0, w1, w2, w3)
}

pub open spec fn cygwin_body(port: u16, w0: u32, w1: u32, w2: u32, w3: u32) -> Seq<u8> {
    decimal(port as nat) + seq![32u8, 115, 32] + hex_digits(w0 as nat, 8).push(45u8)
        + hex_digits(w1 as nat, 8).push(45u8) + hex_digits(w2 as nat, 8).push(45u8)
        + hex_digits(w3 as nat, 8).push(0u8)
}

/// A raw descriptor file made of a port, a newline and any 16 bytes reads
/// back as that port and those bytes unchanged.
pub proof fn lemma_raw_round_trip(port: u16, nonce: Seq<u8>)
    requires
        nonce.len() == 16,
    ensures
        !has_cygwin_magic(raw_file(port, nonce)),
        raw_spec(raw_file(port, nonce)) == Ok::<(u16, Seq<u8>), DescriptorError>((port, nonce)),
{
    let b = raw_file(port, nonce);
    let dec = decimal(port as nat);
    lemma_decimal_round_trip(port as nat);
    let k = dec.len() as int;
    let text = b.subrange(0, b.len() - 16);
    assert(text =~= dec.push(10u8));
    assert(b.subrange(b.len() - 16, b.len() as int) =~= nonce);
    assert(is_digit(dec[0]));
    assert(text[0] == dec[0]);
    assert(space_run(text) == 0);
    assert(text.subrange(0, text.len() as int) =~= text);
    assert(text.subrange(0, k) =~= dec);
    lemma_digit_run_exact(text, k);
    assert(text.subrange(k, text.len() as int) =~= seq![10u8]);
    assert(all_spaces(seq![10u8]));
    assert(b[0] == dec[0]);
    if b.len() >= 10 && b.subrange(0, 10) == cygwin_magic() {
        assert(b.subrange(0, 10)[0] == 33);
    }
}

proof fn lemma_group_at(b: Seq<u8>, start: int, w: u32, sep: u8, tail: Seq<u8>)
    requires
        0 <= start <= b.len(),
        b.subrange(start, b.len() as int) == hex_digits(w as nat, 8).push(sep) + tail,
    ensures
        start + 9 <= b.len(),
        group_ok(b, start, sep),
        group_value(b, start) == w,
{
    lemma_pow16_le8(8);
    reveal_with_fuel(pow16, 9);
    lemma_hex_round_trip(w as nat, 8);
    let h = hex_digits(w as nat, 8);
    let r = b.subrange(start, b.len() as int);
    assert(r.len() >= 9);
    assert(b.subrange(start, start + 8) =~= h) by {
        assert forall|i: int| 0 <= i < 8 implies b.subrange(start, start + 8)[i] == h[i] by {
            assert(r[i] == (h.push(sep) + tail)[i]);
            assert(r[i] == b[start + i]);
        }
    }
    assert(r[8] == (h.push(sep) + tail)[8]);
    assert(r[8] == b[start + 8]);
}

/// A Cygwin descriptor file as the agent writes it, for any valid port and
/// any four words, reads back as that port and those words.
pub proof fn lemma_cygwin_round_trip(port: u16, w0: u32, w1: u32, w2: u32, w3: u32)
    requires
        1 <= port,
    ensures
        has_cygwin_magic(cygwin_file(port, w0, w1, w2, w3)),
        cygwin_spec(cygwin_file(port, w0, w1, w2, w3).subrange(10, cygwin_file(port, w0, w1, w2, w3).len() as int))
            == Ok::<(u16, Seq<u32>), DescriptorError>((port, seq![w0, w1, w2, w3])),
{
    let f = cygwin_file(port, w0, w1, w2, w3);
    let b = cygwin_body(port, w0, w1, w2, w3);
    assert(f.subrange(0, 10) =~= cygwin_magic());
    assert(f.subrange(10, f.len() as int) =~= b);
    let dec = decimal(port as nat);
    lemma_decimal_round_trip(port as nat);
    let k = dec.len() as int;
    let g0 = hex_digits(w0 as nat, 8).push(45u8);
    let g1 = hex_digits(w1 as nat, 8).push(45u8);
    let g2 = hex_digits(w2 as nat, 8).push(45u8);
    let g3 = hex_digits(w3 as nat, 8).push(0u8);
    lemma_pow16_le8(8);
    reveal_with_fuel(pow16, 9);
    lemma_hex_round_trip(w0 as nat, 8);
    lemma_hex_round_trip(w1 as nat, 8);
    lemma_hex_round_trip(w2 as nat, 8);
    lemma_hex_round_trip(w3 as nat, 8);
    assert(b.len() == k + 39);
    assert(b.subrange(0, k) =~= dec);
    assert(b[k] == 32);
    assert(b[k + 1] == 115);
    assert(b[k + 2] == 32);
    lemma_digit_run_exact(b, k);
    assert(b.subrange(group_start(k, 0), b.len() as int) =~= g0 + (g1 + g2 + g3));
    assert(b.subrange(group_start(k, 1), b.len() as int) =~= g1 + (g2 + g3));
    assert(b.subrange(group_start(k, 2), b.len() as int) =~= g2 + g3);
    assert(b.subrange(group_start(k, 3), b.len() as int) =~= g3 + Seq::<u8>::empty());
    lemma_group_at(b, group_start(k, 0), w0, 45, g1 + g2 + g3);
    lemma_group_at(b, group_start(k, 1), w1, 45, g2 + g3);
    lemma_group_at(b, group_start(k, 2), w2, 45, g3);
    lemma_group_at(b, group_start(k, 3), w3, 0, Seq::<u8>::empty());
}

} // verus!

//! The proxy's answer to the CONNECT request.
use vstd::prelude::*;
use vstd::utf8::valid_utf8;

verus! {

/// The bytes `HTTP/1` that begin every acceptable answer.
pub open spec fn http1_prefix() -> Seq<u8> {
    seq![72u8, 84u8, 84u8, 80u8, 47u8, 49u8]
}

/// The shortest answer that holds a status code, which stands in bytes 9 to
/// 11, after `HTTP/1.x `.
pub const MIN_REPLY_LEN: usize = 12;

pub open spec fn is_ascii_digit(b: u8) -> bool {
    48 <= b && b <= 57
}

/// The status code of an answer: its three bytes after the version read as a
/// decimal number, or 0 when they are missing or not all digits.
pub open spec fn status_code(d: Seq<u8>) -> nat {
    if d.len() >= MIN_REPLY_LEN && is_ascii_digit(d[9]) && is_ascii_digit(d[10]) && is_ascii_digit(d[11]) {
        ((d[9] - 48) * 100 + (d[10] - 48) * 10 + (d[11] - 48)) as nat
    } else {
        0
    }
}

/// The proxy opened the tunnel: its answer is UTF-8 text long enough to hold
/// a status, begins with `HTTP/1`, and has a status in the 2xx range.
pub open spec fn reply_accepted(d: Seq<u8>) -> bool {
    &&& d.len() >= MIN_REPLY_LEN
    &&& valid_utf8(d)
    &&& d.subrange(0, 6) == http1_prefix()
    &&& 200 <= status_code(d) < 300
}

/// Relies on `std::str::from_utf8`, which succeeds exactly on valid UTF-8.
#[verifier::external_body]
fn is_utf8(data: &[u8]) -> (r: bool)
    ensures
        r == valid_utf8(data@),
{
    std::str::from_utf8(data).is_ok()
}

/// The status code that the answer `data` carries, 0 when it carries none.
pub fn reply_status(data: &[u8]) -> (r: u16)
    ensures
        r as nat == status_code(data@),
{
    if data.len() < MIN_REPLY_LEN {
        return 0;
    }
    let a = data[9];
    let b = data[10];
    let c = data[11];
    if 48 <= a && a <= 57 && 48 <= b && b <= 57 && 48 <= c && c <= 57 {
        (a - 48) as u16 * 100 + (b - 48) as u16 * 10 + (c - 48) as u16
    } else {
        0
    }
}

/// Whether the answer `data`, read in one piece, opens the tunnel.
pub fn accepts_reply(data: &[u8]) -> (r: bool)
    ensures
        r == reply_accepted(data@),
{
    if data.len() < MIN_REPLY_LEN {
        return false;
    }
    let mut i: usize = 0;
    while i < 6
        invariant
            i <= 6,
            data@.len() >= MIN_REPLY_LEN,
            forall|k: int| 0 <= k < i ==> data@[k] == #[trigger] http1_prefix()[k],
        decreases 6 - i,
    {
        let expected: u8 = if i == 0 {
            72
        } else if i == 1 || i == 2 {
            84
        } else if i == 3 {
            80
        } else if i == 4 {
            47
        } else {
            49
        };
        if data[i] != expected {
            assert(data@.subrange(0, 6)[i as int] != http1_prefix()[i as int]);
            return false;
        }
        i = i + 1;
    }
    assert(data@.subrange(0, 6) =~= http1_prefix());
    let status = reply_status(data);
    if status < 200 || status >= 300 {
        return false;
    }
    is_utf8(data)
}

} // verus!

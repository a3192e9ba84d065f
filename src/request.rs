//! The CONNECT request sent to the proxy.
use vstd::prelude::*;
use vstd::string::*;

verus! {

/// Why a tunnel could not be configured.
#[derive(Clone, Copy, Debug, PartialEq, Eq, Structural)]
pub enum ConfigError {
    /// The destination port is not an unsigned decimal integer.
    InvalidPort,
    /// The credential file could not be read.
    CredentialUnavailable,
}

pub open spec fn is_digit(c: char) -> bool {
    '0' <= c && c <= '9'
}

/// The value of a string of decimal digits.
pub open spec fn digits_value(s: Seq<char>) -> nat
    decreases s.len(),
{
    if s.len() == 0 {
        0
    } else {
        digits_value(s.drop_last()) * 10 + (s.last() as nat - '0' as nat) as nat
    }
}

/// The digits of a port: the text without one leading `+`.
pub open spec fn port_digits(s: Seq<char>) -> Seq<char> {
    if s.len() > 0 && s[0] == '+' {
        s.skip(1)
    } else {
        s
    }
}

/// A port is an optional `+` and at least one decimal digit, whose value fits in 32 bits.
pub open spec fn valid_port(s: Seq<char>) -> bool {
    let d = port_digits(s);
    &&& d.len() > 0
    &&& forall|i: int| 0 <= i < d.len() ==> is_digit(#[trigger] d[i])
    &&& digits_value(d) <= u32::MAX
}

/// Reads a destination port; `None` when it is not an unsigned 32-bit decimal number.
pub fn parse_port(s: &str) -> (r: Option<u32>)
    ensures
        r.is_some() == valid_port(s@),
        r matches Some(v) ==> v as nat == digits_value(port_digits(s@)),
{
    let n = s.unicode_len();
    let mut start: usize = 0;
    if n > 0 && s.get_char(0) == '+' {
        start = 1;
    }
    if start >= n {
        return None;
    }
    let ghost d = port_digits(s@);
    assert(d =~= s@.subrange(start as int, n as int));
    let mut value: u32 = 0;
    let mut i: usize = start;
    while i < n
        invariant
            start <= i <= n,
            n == s@.len(),
            d == port_digits(s@),
            d =~= s@.subrange(start as int, n as int),
            forall|k: int| 0 <= k < i - start ==> is_digit(#[trigger] d[k]),
            value as nat == digits_value(d.subrange(0, i - start)),
        decreases n - i,
    {
        let c = s.get_char(i);
        if !('0' <= c && c <= '9') {
            assert(d[i - start] == c && !is_digit(d[i - start]));
            return None;
        }
        let digit = (c as u32) - ('0' as u32);
        let ghost next = d.subrange(0, i + 1 - start);
        assert(next.drop_last() =~= d.subrange(0, i - start));
        assert(next.last() == c);
        assert(digits_value(next) == value * 10 + digit);
        if value > 429496729 || (value == 429496729 && digit > 5) {
            proof {
                if forall|k: int| 0 <= k < d.len() ==> is_digit(#[trigger] d[k]) {
                    lemma_digits_prefix_bound(d, (i + 1 - start) as int);
                }
            }
            return None;
        }
        value = value * 10 + digit;
        i = i + 1;
    }
    assert(d.subrange(0, n - start) =~= d);
    Some(value)
}

/// A prefix of a digit string is worth no more than the whole of it.
proof fn lemma_digits_prefix_bound(d: Seq<char>, k: int)
    requires
        0 <= k <= d.len(),
        forall|i: int| 0 <= i < d.len() ==> is_digit(#[trigger] d[i]),
    ensures
        digits_value(d.subrange(0, k)) <= digits_value(d),
    decreases d.len() - k,
{
    if k < d.len() {
        lemma_digits_prefix_bound(d, k + 1);
        assert(d.subrange(0, k + 1).drop_last() =~= d.subrange(0, k));
    } else {
        assert(d.subrange(0, k) =~= d);
    }
}

/// The standard base64 encoding, with padding, of the UTF-8 bytes of a text.
pub uninterp spec fn base64_of(text: Seq<char>) -> Seq<char>;

/// Relies on `base64::encode`: the standard alphabet with `=` padding over the
/// bytes of `text`. Its output length is at most four thirds of the input's,
/// which fits in a `usize` for every `str`, so it does not panic.
#[verifier::external_body]
fn encode_base64(text: &str) -> (r: String)
    ensures
        r@ == base64_of(text@),
{
    base64::encode(text)
}

/// The credential header's value: the credential's base64 encoding.
pub open spec fn encoded_credential(credential: Option<Seq<char>>) -> Option<Seq<char>> {
    match credential {
        Some(c) => Some(base64_of(c)),
        None => None,
    }
}

/// The request line, an authorization header when a credential is given,
/// and the blank line that ends the request.
pub open spec fn request_text(host: Seq<char>, port: Seq<char>, encoded: Option<Seq<char>>) -> Seq<char> {
    let line = "CONNECT "@ + host + ":"@ + port + " HTTP/1.0\r\n"@;
    let auth = match encoded {
        Some(e) => "Proxy-Authorization: Basic "@ + e + "\r\n"@,
        None => Seq::empty(),
    };
    line + auth + "\r\n"@
}

pub open spec fn opt_view(o: Option<&str>) -> Option<Seq<char>> {
    match o {
        Some(t) => Some(t@),
        None => None,
    }
}

/// Writes the request for `host:port`, with `encoded` as the Basic credential when given.
pub fn assemble_request(host: &str, port: &str, encoded: Option<&str>) -> (r: String)
    ensures
        r@ == request_text(host@, port@, opt_view(encoded)),
{
    let mut out = String::from_str("CONNECT ");
    out.append(host);
    out.append(":");
    out.append(port);
    out.append(" HTTP/1.0\r\n");
    if let Some(e) = encoded {
        out.append("Proxy-Authorization: Basic ");
        out.append(e);
        out.append("\r\n");
    }
    out.append("\r\n");
    out
}

/// Builds the CONNECT request for the destination `host:port`, with the
/// credential, when given, base64-encoded into a Basic authorization header.
pub fn build_request(host: &str, port: &str, credential: Option<&str>) -> (r: Result<String, ConfigError>)
    ensures
        r is Err <==> !valid_port(port@),
        r matches Err(e) ==> e == ConfigError::InvalidPort,
        r matches Ok(t) ==> t@ == request_text(host@, port@, encoded_credential(opt_view(credential))),
{
    if parse_port(port).is_none() {
        return Err(ConfigError::InvalidPort);
    }
    match credential {
        None => Ok(assemble_request(host, port, None)),
        Some(c) => {
            let encoded = encode_base64(c);
            Ok(assemble_request(host, port, Some(encoded.as_str())))
        },
    }
}

} // verus!

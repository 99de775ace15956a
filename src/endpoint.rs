use vstd::prelude::*;
use crate::size::{parse_u64, parse_number};
use crate::paths::same_text;

verus! {

/// Port used when a host names none.
pub const DEFAULT_PORT: u16 = 22;

/// The position of the last `:` in `s`.
pub open spec fn last_colon(s: Seq<char>, end: int) -> Option<int>
    decreases end,
{
    if end <= 0 || end > s.len() {
        None
    } else if s[end - 1] == ':' {
        Some(end - 1)
    } else {
        last_colon(s, end - 1)
    }
}

/// What `"host[:port]"` names: the part before the last `:` and the port
/// after it, or the whole text and the default port when there is no `:`;
/// `None` when the port is not a number that fits in 16 bits.
pub open spec fn host_port(s: Seq<char>) -> Option<(Seq<char>, u16)> {
    match last_colon(s, s.len() as int) {
        None => Some((s, DEFAULT_PORT)),
        Some(i) => match parse_u64(s.skip(i + 1)) {
            Some(v) => if v <= 65535 { Some((s.take(i), v as u16)) } else { None },
            None => None,
        },
    }
}

proof fn lemma_last_colon_bound(s: Seq<char>, end: int)
    ensures
        last_colon(s, end) matches Some(i) ==> 0 <= i < end && i < s.len() && s[i] == ':',
    decreases end,
{
    if !(end <= 0 || end > s.len()) && s[end - 1] != ':' {
        lemma_last_colon_bound(s, end - 1);
    }
}

/// Splits `"host[:port]"` into host and port (22 when absent); the error
/// names the text when the port is not a valid port number.
pub fn split_host_port(host_with_port: &str) -> (r: Result<(String, u16), String>)
    ensures
        match r {
            Ok((h, p)) => host_port(host_with_port@) == Some((h@, p)),
            Err(e) => host_port(host_with_port@) is None && e@ == "invalid port in host: "@ + host_with_port@,
        },
{
    let s = host_with_port;
    let n = s.unicode_len();
    let mut end: usize = n;
    while end > 0 && s.get_char(end - 1) != ':'
        invariant
            end <= n,
            n == s@.len(),
            last_colon(s@, n as int) == last_colon(s@, end as int),
        decreases end,
    {
        end = end - 1;
    }
    if end == 0 {
        return Ok((String::from_str(s), DEFAULT_PORT));
    }
    proof {
        lemma_last_colon_bound(s@, n as int);
    }
    let i = end - 1;
    let port_text = s.substring_char(end, n);
    assert(port_text@ =~= s@.skip(i + 1));
    match parse_number(port_text) {
        Some(v) => {
            if v <= 65535 {
                let host = s.substring_char(0, i);
                assert(host@ =~= s@.take(i as int));
                return Ok((String::from_str(host), v as u16));
            }
        },
        None => {},
    }
    let mut msg = String::from_str("invalid port in host: ");
    msg.append(s);
    proof {
        reveal_strlit("invalid port in host: ");
    }
    Err(msg)
}

/// Some entry equals the fingerprint or the key.
pub open spec fn key_listed(list: Seq<String>, fingerprint: Seq<char>, key: Seq<char>) -> bool {
    exists|k: int| 0 <= k < list.len() && (#[trigger] list[k]@ == fingerprint || list[k]@ == key)
}

/// Whether a server's host key is accepted: always when no list of
/// fingerprints is configured, otherwise when its SHA-256 fingerprint or its
/// base64 public key equals an entry.
pub fn host_key_allowed(allowed: &Option<Vec<String>>, fingerprint: &str, key_base64: &str) -> (r: bool)
    ensures
        r == match allowed {
            None => true,
            Some(list) => key_listed(list@, fingerprint@, key_base64@),
        },
{
    match allowed {
        None => true,
        Some(list) => {
            let mut k: usize = 0;
            while k < list.len()
                invariant
                    k <= list@.len(),
                    forall|j: int| 0 <= j < k ==> !(#[trigger] list@[j]@ == fingerprint@ || list@[j]@ == key_base64@),
                    *allowed == Some(*list),
                decreases list.len() - k,
            {
                if same_text(list[k].as_str(), fingerprint) || same_text(list[k].as_str(), key_base64) {
                    assert(list@[k as int]@ == fingerprint@ || list@[k as int]@ == key_base64@);
                    assert(key_listed(list@, fingerprint@, key_base64@));
                    return true;
                }
                k = k + 1;
            }
            false
        },
    }
}

} // verus!

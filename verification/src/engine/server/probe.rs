//! What a health probe asks and what it makes of the answer.
use vstd::prelude::*;

use crate::text::{chars_of, lemma_rfind, rfind, string_of, Text};

verus! {

/// The port of a listen address: what stands behind its last colon, or all of it.
pub open spec fn port_of(addr: Text) -> Text {
    addr.skip(rfind(addr, ':') + 1)
}

/// Where a probe connects to: the port of the listen address on loopback. The
/// listen host may be one that cannot be connected to.
pub fn probe_target(addr: &str) -> (out: String)
    ensures
        out@ == "127.0.0.1:"@ + port_of(addr@),
{
    proof {
        lemma_rfind(addr@, ':');
    }
    let chars = chars_of(addr);
    let mut start: usize = chars.len();
    while start > 0 && chars[start - 1] != ':'
        invariant
            start <= chars.len(),
            forall|i: int| start <= i < chars@.len() ==> #[trigger] chars@[i] != ':',
        decreases start,
    {
        start -= 1;
    }
    let port = string_of(&chars, start, chars.len());
    proof {
        let i = rfind(addr@, ':');
        assert(start == i + 1);
        assert(addr@.subrange(start as int, addr@.len() as int) =~= addr@.skip(i + 1));
    }
    let mut out = "127.0.0.1:".to_string();
    out.push_str(port.as_str());
    out
}

/// Whether the first line of an HTTP response, as in `HTTP/1.1 200 OK`, says that
/// the server is up: the status is the three bytes from the tenth on.
pub open spec fn is_up(line: Seq<u8>) -> bool {
    line.len() >= 12 && line[9] == 50 && line[10] == 48 && line[11] == 48
}

/// Whether the first line of an HTTP response says that the server is up.
pub fn answered_ok(line: &[u8]) -> (r: bool)
    ensures
        r == is_up(line@),
{
    line.len() >= 12 && line[9] == 50 && line[10] == 48 && line[11] == 48
}

} // verus!

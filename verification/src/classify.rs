//! Text/binary classification of a byte payload, a pure heuristic over the
//! first 1024 bytes only.

use vstd::prelude::*;

verus! {

/// Verdict on a payload: render it as escaped text or as a hex dump.
#[derive(Clone, Copy, Debug, PartialEq, Eq, Structural)]
pub enum Classification {
    Text,
    Binary,
}

/// How many leading bytes the classifier inspects.
pub const PREFIX_LEN: usize = 1024;

/// Bytes that may appear in a text payload: everything from 0x20 up, plus
/// bell, backspace, tab, line feed, form feed, carriage return and escape.
pub open spec fn allowed_byte(b: u8) -> bool {
    0x20 <= b || b == 0x07 || b == 0x08 || b == 0x09 || b == 0x0a || b == 0x0c || b == 0x0d
        || b == 0x1b
}

/// The inspected prefix: the whole payload when it is shorter than the limit.
pub open spec fn inspected_prefix(payload: Seq<u8>) -> Seq<u8> {
    if payload.len() <= PREFIX_LEN {
        payload
    } else {
        payload.take(PREFIX_LEN as int)
    }
}

/// The classification verdict. A payload is binary when it is empty, when its
/// inspected prefix holds a 0x00 byte, or when the prefix holds any byte
/// outside the allowed set; otherwise it is text. Bytes past the prefix never
/// matter: a payload whose first kilobyte looks textual is text.
pub open spec fn spec_classify(payload: Seq<u8>) -> Classification {
    let prefix = inspected_prefix(payload);
    if payload.len() == 0 {
        Classification::Binary
    } else if forall|i: int| 0 <= i < prefix.len() ==> allowed_byte(#[trigger] prefix[i]) {
        Classification::Text
    } else {
        Classification::Binary
    }
}

/// Decides whether a payload is text or binary from its first bytes alone.
pub fn classify(payload: &[u8]) -> (r: Classification)
    ensures
        r == spec_classify(payload@),
{
    if payload.len() == 0 {
        return Classification::Binary;
    }
    let n: usize = if payload.len() <= PREFIX_LEN {
        payload.len()
    } else {
        PREFIX_LEN
    };
    assert(inspected_prefix(payload@) == payload@.take(n as int));
    let mut i: usize = 0;
    while i < n
        invariant
            0 < n <= payload@.len(),
            0 <= i <= n,
            inspected_prefix(payload@) == payload@.take(n as int),
            forall|j: int| 0 <= j < i ==> allowed_byte(#[trigger] payload@[j]),
        decreases n - i,
    {
        let b = payload[i];
        if !(b >= 0x20 || b == 0x07 || b == 0x08 || b == 0x09 || b == 0x0a || b == 0x0c
            || b == 0x0d || b == 0x1b) {
            assert(!allowed_byte(inspected_prefix(payload@)[i as int]));
            return Classification::Binary;
        }
        i += 1;
    }
    assert(forall|j: int|
        0 <= j < inspected_prefix(payload@).len() ==> allowed_byte(
            #[trigger] inspected_prefix(payload@)[j],
        ));
    Classification::Text
}

/// A 0x00 byte anywhere in the inspected prefix forces a binary verdict.
pub proof fn lemma_zero_in_prefix_binary(payload: Seq<u8>, i: int)
    requires
        0 <= i < payload.len(),
        i < PREFIX_LEN,
        payload[i] == 0u8,
    ensures
        spec_classify(payload) == Classification::Binary,
{
    assert(inspected_prefix(payload)[i] == 0u8);
    assert(!allowed_byte(inspected_prefix(payload)[i]));
}

/// A non-empty payload whose inspected prefix holds only allowed bytes is
/// text, whatever follows the prefix. (An empty payload is the one exception:
/// it is classified binary as a fail-safe default.)
pub proof fn lemma_allowed_prefix_text(payload: Seq<u8>)
    requires
        payload.len() > 0,
        forall|i: int|
            0 <= i < payload.len() && i < PREFIX_LEN ==> allowed_byte(#[trigger] payload[i]),
    ensures
        spec_classify(payload) == Classification::Text,
{
    let prefix = inspected_prefix(payload);
    assert(forall|i: int| 0 <= i < prefix.len() ==> allowed_byte(#[trigger] prefix[i])) by {
        assert(forall|i: int| 0 <= i < prefix.len() ==> prefix[i] == payload[i]);
    }
}

} // verus!

use vstd::prelude::*;

verus! {

/// JSON insignificant whitespace: space, tab, line feed, carriage return.
pub open spec fn is_json_ws(b: u8) -> bool {
    b == 0x20 || b == 0x09 || b == 0x0a || b == 0x0d
}

/// Every byte of `s` is JSON whitespace.
pub open spec fn all_json_ws(s: Seq<u8>) -> bool {
    forall|k: int| 0 <= k < s.len() ==> is_json_ws(#[trigger] s[k])
}

/// The bytes of the JSON literal `true`.
pub open spec fn true_bytes() -> Seq<u8> {
    seq![0x74u8, 0x72u8, 0x75u8, 0x65u8]
}

/// The bytes of the JSON literal `false`.
pub open spec fn false_bytes() -> Seq<u8> {
    seq![0x66u8, 0x61u8, 0x6cu8, 0x73u8, 0x65u8]
}

/// `s` is exactly the token `tok` surrounded by optional JSON whitespace.
pub open spec fn is_ws_wrapped_token(s: Seq<u8>, tok: Seq<u8>) -> bool {
    exists|i: int|
        0 <= i && i + tok.len() <= s.len() && #[trigger] s.subrange(i, i + tok.len() as int) == tok
            && all_json_ws(s.subrange(0, i)) && all_json_ws(
            s.subrange(i + tok.len() as int, s.len() as int),
        )
}

/// What a JSON document holding a single boolean denotes: `Some(b)` when the
/// bytes are the literal `true` or `false` with optional surrounding
/// whitespace, `None` for anything else.
pub open spec fn spec_json_bool(s: Seq<u8>) -> Option<bool> {
    if is_ws_wrapped_token(s, true_bytes()) {
        Some(true)
    } else if is_ws_wrapped_token(s, false_bytes()) {
        Some(false)
    } else {
        None
    }
}

/// Relies on `serde_json::from_slice::<bool>`: deserializing a boolean
/// consumes optional leading whitespace, the literal `true` or `false`, and
/// optional trailing whitespace, and errors on any other input.
#[verifier::external_body]
pub(crate) fn parse_json_bool(bytes: &Vec<u8>) -> (r: Option<bool>)
    ensures
        r == spec_json_bool(bytes@),
{
    serde_json::from_slice::<bool>(bytes.as_slice()).ok()
}

} // verus!

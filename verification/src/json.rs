//! JSON texts: what is taken on trust about `serde_json`, and the framing of
//! the manifest document around the texts it encodes.

use crate::text::{ascii_bytes, comma_separated, push_ascii, views, COMMA};
use vstd::pervasive::unreached;
use vstd::prelude::*;

verus! {

/// `serde_json::Error`, handed through and never looked into.
#[verifier::external_type_specification]
#[verifier::external_body]
pub struct ExJsonError(serde_json::Error);

/// `serde_json::Value`, handed through and never looked into.
#[verifier::external_type_specification]
#[verifier::external_body]
pub struct ExJsonValue(serde_json::Value);

/// The JSON string literal that `serde_json::to_vec` writes for a text.
pub uninterp spec fn json_string(text: Seq<char>) -> Seq<u8>;

/// Whether `serde_json::from_slice` reads the bytes as one JSON value.
pub uninterp spec fn is_json(bytes: Seq<u8>) -> bool;

/// Calls `serde_json::to_vec` on a text. Trusted: it succeeds, since a text
/// is encoded by writing to a vector and nothing else, and what it returns
/// depends on the text alone.
#[verifier::external_body]
fn to_vec(text: &str) -> (out: Result<Vec<u8>, serde_json::Error>)
    ensures
        out is Ok,
        out matches Ok(bytes) ==> bytes@ == json_string(text@),
{
    serde_json::to_vec(text)
}

/// Calls `serde_json::from_slice` for a `serde_json::Value`. Trusted: whether
/// it succeeds depends on the bytes alone.
#[verifier::external_body]
fn from_slice(bytes: &[u8]) -> (out: Result<serde_json::Value, serde_json::Error>)
    ensures
        out is Ok <==> is_json(bytes@),
{
    serde_json::from_slice(bytes)
}

/// Whether `bytes` are one JSON document.
pub fn is_document(bytes: &[u8]) -> (yes: bool)
    ensures
        yes == is_json(bytes@),
{
    match from_slice(bytes) {
        Ok(_) => true,
        Err(_) => false,
    }
}

/// The JSON string literal for `text`.
pub fn encode_string(text: &str) -> (bytes: Vec<u8>)
    ensures
        bytes@ == json_string(text@),
{
    match to_vec(text) {
        Ok(bytes) => bytes,
        Err(_) => unreached(),
    }
}

/// The manifest document around its three variable parts: the revision and
/// the roots, each already a JSON string literal, and the metadata, already a
/// JSON document. The list of WebAssembly modules is always empty.
pub open spec fn manifest_frame(revision: Seq<u8>, roots: Seq<Seq<u8>>, metadata: Seq<u8>) -> Seq<
    u8,
> {
    ascii_bytes("{\"revision\":"@) + revision + ascii_bytes(",\"roots\":["@) + comma_separated(
        roots,
    ) + ascii_bytes("],\"wasm-modules\":[],\"metadata\":"@) + metadata + ascii_bytes("}"@)
}

/// The manifest document of a bundle with this revision, these roots and this
/// encoded metadata.
pub open spec fn manifest_json(revision: Seq<char>, roots: Seq<Seq<char>>, metadata: Seq<u8>) -> Seq<
    u8,
> {
    manifest_frame(
        json_string(revision),
        roots.map_values(|root: Seq<char>| json_string(root)),
        metadata,
    )
}

/// Writes the manifest document around its already encoded parts.
pub fn frame_manifest(revision: &[u8], roots: &Vec<Vec<u8>>, metadata: &[u8]) -> (out: Vec<u8>)
    ensures
        out@ == manifest_frame(revision@, views(roots@), metadata@),
{
    let mut out: Vec<u8> = Vec::new();
    proof {
        reveal_strlit("{\"revision\":");
        reveal_strlit(",\"roots\":[");
        reveal_strlit("],\"wasm-modules\":[],\"metadata\":");
        reveal_strlit("}");
    }
    push_ascii(&mut out, "{\"revision\":");
    out.extend_from_slice(revision);
    push_ascii(&mut out, ",\"roots\":[");
    let ghost head = out@;
    let mut i: usize = 0;
    while i < roots.len()
        invariant
            i <= roots.len(),
            out@ == head + comma_separated(views(roots@).take(i as int)),
        decreases roots.len() - i,
    {
        let ghost before = views(roots@).take(i as int);
        let ghost after = views(roots@).take(i + 1);
        proof {
            assert(after.drop_last() =~= before);
            assert(after.last() == roots@[i as int]@);
        }
        if i > 0 {
            out.push(COMMA);
        }
        out.extend_from_slice(roots[i].as_slice());
        proof {
            if i == 0 {
                assert(before =~= Seq::<Seq<u8>>::empty());
                assert(out@ =~= head + comma_separated(after));
            } else {
                assert(out@ =~= head + comma_separated(after));
            }
        }
        i += 1;
    }
    proof {
        assert(views(roots@).take(roots.len() as int) =~= views(roots@));
    }
    push_ascii(&mut out, "],\"wasm-modules\":[],\"metadata\":");
    out.extend_from_slice(metadata);
    push_ascii(&mut out, "}");
    out
}

} // verus!

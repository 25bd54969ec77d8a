//! Profile-update helpers: the data-URL handling around a chosen profile
//! image and the request that carries the changes to the backend.
//!
//! A freshly chosen image is previewed as a `data:image;base64,` URL; on
//! save, the engine strips that prefix and recovers the raw bytes for the
//! upload. The base64 transcoding itself is done by an outside crate
//! behind trusted wrappers; everything around the calls — the prefix, the
//! splicing, the request — is verified.

use vstd::prelude::*;

use crate::protocol::{ClientPayload, ClientPayloadView};

verus! {

/// The base64 text (standard alphabet, padded) of a byte string.
pub uninterp spec fn b64_of(data: Seq<u8>) -> Seq<u8>;

/// Relies on `base64::engine::Engine::encode` with the
/// `general_purpose::STANDARD` engine: the result is a function of the
/// input bytes alone (fixed alphabet and padding), ASCII, and empty
/// exactly for empty input. The length bound keeps the crate's output
/// size computation from overflowing.
#[verifier::external_body]
fn b64_encode(data: &Vec<u8>) -> (r: Vec<u8>)
    requires
        data@.len() <= 0x1000_0000_0000_0000,
    ensures
        r@ == b64_of(data@),
        data@.len() == 0 ==> r@.len() == 0,
        data@.len() > 0 ==> r@.len() > 0,
{
    base64::Engine::encode(&base64::engine::general_purpose::STANDARD, data).into_bytes()
}

/// Relies on `base64::engine::Engine::decode` with the
/// `general_purpose::STANDARD` engine: it accepts exactly the canonical
/// encodings (canonical padding is required and set trailing bits are
/// rejected) and inverts them, so a success returns the byte string whose
/// encoding the input is, and the encoding of some byte string never
/// fails to decode.
#[verifier::external_body]
fn b64_decode(text: &Vec<u8>) -> (r: Option<Vec<u8>>)
    ensures
        match r {
            Some(d) => text@ == b64_of(d@) && (forall|x: Seq<u8>|
                text@ == #[trigger] b64_of(x) ==> d@ == x),
            None => forall|x: Seq<u8>| text@ != #[trigger] b64_of(x),
        },
{
    match base64::Engine::decode(&base64::engine::general_purpose::STANDARD, text) {
        Ok(v) => Some(v),
        Err(_) => None,
    }
}

/// The bytes of the text `data:image;base64,` that front an inline image.
pub open spec fn data_url_prefix() -> Seq<u8> {
    seq![
        100u8, 97u8, 116u8, 97u8, 58u8, 105u8, 109u8, 97u8, 103u8, 101u8, 59u8, 98u8, 97u8, 115u8,
        101u8, 54u8, 52u8, 44u8,
    ]
}

/// Builds the `data:image;base64,` bytes.
fn data_url_prefix_bytes() -> (r: Vec<u8>)
    ensures
        r@ == data_url_prefix(),
{
    let mut r: Vec<u8> = Vec::new();
    r.push(100);  // d
    r.push(97);  // a
    r.push(116);  // t
    r.push(97);  // a
    r.push(58);  // :
    r.push(105);  // i
    r.push(109);  // m
    r.push(97);  // a
    r.push(103);  // g
    r.push(101);  // e
    r.push(59);  // ;
    r.push(98);  // b
    r.push(97);  // a
    r.push(115);  // s
    r.push(101);  // e
    r.push(54);  // 6
    r.push(52);  // 4
    r.push(44);  // ,
    proof {
        assert(r@ =~= data_url_prefix());
    }
    r
}

/// Renders image bytes as an inline data URL for the preview.
pub fn encode_image_data_url(data: &Vec<u8>) -> (r: Vec<u8>)
    requires
        data@.len() <= 0x1000_0000_0000_0000,
    ensures
        r@ == data_url_prefix() + b64_of(data@),
{
    let mut r = data_url_prefix_bytes();
    let mut b = b64_encode(data);
    r.append(&mut b);
    r
}

/// Recovers the image bytes from an inline data URL: exactly the URLs
/// that [`encode_image_data_url`] produces decode, back to the bytes they
/// were made from; a URL without the prefix, or with a body that encodes
/// nothing, is rejected.
pub fn decode_image_data_url(url: &Vec<u8>) -> (r: Option<Vec<u8>>)
    ensures
        forall|x: Seq<u8>|
            url@ == data_url_prefix() + #[trigger] b64_of(x) ==> (r matches Some(d) && d@ == x),
        r matches Some(d) ==> url@ == data_url_prefix() + b64_of(d@),
        !(url@.len() >= 18 && url@.subrange(0, 18) == data_url_prefix()) ==> r is None,
{
    let prefix = data_url_prefix_bytes();
    if url.len() < 18 {
        return None;
    }
    let mut i: usize = 0;
    while i < 18
        invariant
            0 <= i <= 18,
            url@.len() >= 18,
            prefix@ == data_url_prefix(),
            forall|j: int| 0 <= j < i ==> url@[j] == data_url_prefix()[j],
        decreases 18 - i,
    {
        if url[i] != prefix[i] {
            proof {
                assert(url@.subrange(0, 18)[i as int] != data_url_prefix()[i as int]);
                assert forall|x: Seq<u8>|
                    url@ == data_url_prefix() + #[trigger] b64_of(x) implies false by {
                    assert(url@.subrange(0, 18) =~= data_url_prefix());
                };
            }
            return None;
        }
        i = i + 1;
    }
    proof {
        assert(url@.subrange(0, 18) =~= data_url_prefix());
    }
    let n = url.len();
    let mut tail: Vec<u8> = Vec::new();
    let mut k: usize = 18;
    while k < n
        invariant
            18 <= k <= n == url@.len(),
            tail@ == url@.subrange(18, k as int),
        decreases n - k,
    {
        tail.push(url[k]);
        proof {
            assert(tail@ =~= url@.subrange(18, k + 1));
        }
        k = k + 1;
    }
    proof {
        assert(tail@ =~= url@.subrange(18, url@.len() as int));
    }
    let r = b64_decode(&tail);
    proof {
        assert(url@ =~= data_url_prefix() + tail@);
        assert forall|x: Seq<u8>|
            url@ == data_url_prefix() + #[trigger] b64_of(x) implies (r matches Some(d) && d@
            == x) by {
            assert(tail@ =~= b64_of(x));
        };
    }
    r
}

/// Builds the profile-update request: the display name is always carried,
/// the image reference only when a new image was uploaded.
pub fn profile_update_request(display_name: Vec<u8>, image_url: Option<Vec<u8>>) -> (r:
    ClientPayload)
    ensures
        r@ == (ClientPayloadView::UpdateProfile {
            display_name: Some(display_name@),
            profile_image: crate::protocol::view_of_opt_bytes(image_url),
        }),
{
    ClientPayload::UpdateProfile { display_name: Some(display_name), profile_image: image_url }
}

} // verus!

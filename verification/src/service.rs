//! The two fingerprint-matching services: their endpoints, labels, and
//! the service-specific request-body shapes.
//!
//! Both services take one POST per batch. The primary service expects the
//! body to be a bare JSON array of unsigned 32-bit fingerprints; the
//! secondary expects an object wrapping the same array under a
//! `fingerprints` field.

use crate::batch::Batch;
use vstd::prelude::*;

verus! {

/// One of the two independent fingerprint-matching services. The two
/// differ only in endpoint URL and in the shape of the request body.
#[derive(Clone, Copy, PartialEq, Eq, Structural, Debug)]
pub enum ServiceChoice {
    Primary,
    Secondary,
}

impl ServiceChoice {
    /// The fixed endpoint that fingerprint queries for this service go to.
    pub fn fingerprint_url(&self) -> (r: &'static str)
        ensures
            *self == ServiceChoice::Primary ==> r@
                == "https://addons-ecs.forgesvc.net/api/v2/fingerprint"@,
            *self == ServiceChoice::Secondary ==> r@
                == "https://hub.wowup.io/curseforge/addons/fingerprint"@,
    {
        match self {
            ServiceChoice::Primary => "https://addons-ecs.forgesvc.net/api/v2/fingerprint",
            ServiceChoice::Secondary => "https://hub.wowup.io/curseforge/addons/fingerprint",
        }
    }

    /// The short name used when reporting a failure of this service.
    pub fn label(&self) -> (r: &'static str)
        ensures
            *self == ServiceChoice::Primary ==> r@ == "curse_api"@,
            *self == ServiceChoice::Secondary ==> r@ == "wowup_api"@,
    {
        match self {
            ServiceChoice::Primary => "curse_api",
            ServiceChoice::Secondary => "wowup_api",
        }
    }
}

/// The shortest base-ten digit string of `n`, as ASCII bytes.
pub open spec fn dec_digits(n: nat) -> Seq<u8>
    decreases n,
{
    if n < 10 {
        seq![(48 + n) as u8]
    } else {
        dec_digits(n / 10) + seq![(48 + n % 10) as u8]
    }
}

/// The bytes between the brackets of a JSON array of `fps`: the numbers
/// in base ten, separated by commas, with no spaces.
pub open spec fn json_items(fps: Seq<u32>) -> Seq<u8>
    decreases fps.len(),
{
    if fps.len() == 0 {
        Seq::empty()
    } else if fps.len() == 1 {
        dec_digits(fps[0] as nat)
    } else {
        json_items(fps.drop_last()) + seq![44u8] + dec_digits(fps.last() as nat)
    }
}

/// The compact JSON array of `fps`: `[` items `]`.
pub open spec fn json_fingerprint_array(fps: Seq<u32>) -> Seq<u8> {
    seq![91u8] + json_items(fps) + seq![93u8]
}

/// The bytes of `{"fingerprints":`, the opening of the secondary
/// service's wrapper object.
pub open spec fn secondary_prefix() -> Seq<u8> {
    seq![
        123u8,
        34u8,
        102u8,
        105u8,
        110u8,
        103u8,
        101u8,
        114u8,
        112u8,
        114u8,
        105u8,
        110u8,
        116u8,
        115u8,
        34u8,
        58u8,
    ]
}

/// The request body each service expects for the fingerprints `fps`: the
/// primary takes the bare array, the secondary the array wrapped in an
/// object under a `fingerprints` field.
pub open spec fn body_bytes(service: ServiceChoice, fps: Seq<u32>) -> Seq<u8> {
    match service {
        ServiceChoice::Primary => json_fingerprint_array(fps),
        ServiceChoice::Secondary => secondary_prefix() + json_fingerprint_array(fps) + seq![125u8],
    }
}

/// Relies on serde_json::to_vec on a Vec<u32>: the compact encoding is a
/// JSON array of the numbers in base ten, comma-separated, no spaces, and
/// encoding to a byte vector cannot fail for this type.
#[verifier::external_body]
fn encode_fingerprint_array(fps: &Vec<u32>) -> (r: Vec<u8>)
    ensures
        r@ == json_fingerprint_array(fps@),
{
    serde_json::to_vec(fps).unwrap()
}

/// Builds the request body carrying `batch`'s fingerprints in the shape
/// `service` expects.
pub fn request_body(service: ServiceChoice, batch: &Batch) -> (r: Vec<u8>)
    ensures
        r@ == body_bytes(service, batch.fingerprints@),
{
    let arr = encode_fingerprint_array(&batch.fingerprints);
    match service {
        ServiceChoice::Primary => arr,
        ServiceChoice::Secondary => {
            let mut arr = arr;
            let mut r: Vec<u8> = Vec::new();
            r.push(123);
            r.push(34);
            r.push(102);
            r.push(105);
            r.push(110);
            r.push(103);
            r.push(101);
            r.push(114);
            r.push(112);
            r.push(114);
            r.push(105);
            r.push(110);
            r.push(116);
            r.push(115);
            r.push(34);
            r.push(58);
            proof {
                assert(r@ =~= secondary_prefix());
            }
            r.append(&mut arr);
            r.push(125);
            proof {
                assert(r@ =~= body_bytes(ServiceChoice::Secondary, batch.fingerprints@));
            }
            r
        },
    }
}

} // verus!


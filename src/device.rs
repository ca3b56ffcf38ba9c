//! The device id that the peripheral advertises as its local name: a tag
//! followed by characters derived from the MD5 digest of the hardware
//! address.
use vstd::prelude::*;

verus! {

/// How many digest bytes become characters of the id.
pub const MD5_LENGTH: usize = 8;

pub const DEVICE_ID_PREFIX: &'static str = "FF-X1-";

/// The characters that a digest byte maps to, by its remainder modulo 36.
pub const BASE36_DIGITS: &'static str = "0123456789ABCDEFGHIJKLMNOPQRSTUVWXYZ";

/// The MD5 digest of `data`.
pub uninterp spec fn md5_digest(data: Seq<u8>) -> Seq<u8>;

/// Relies on `md5::compute`: the 16-byte MD5 digest of `data`, which
/// depends on the bytes alone.
#[verifier::external_body]
fn md5_of(data: &[u8]) -> (r: [u8; 16])
    ensures
        r@ == md5_digest(data@),
{
    md5::compute(data).0
}

/// The id that a digest gives: the prefix, then one base-36 character for
/// each of the first `MD5_LENGTH` bytes.
pub open spec fn device_id_of(digest: Seq<u8>) -> Seq<char> {
    DEVICE_ID_PREFIX@ + Seq::new(
        MD5_LENGTH as nat,
        |i: int| BASE36_DIGITS@[(digest[i] % 36) as int],
    )
}

/// The id that `digest` gives.
pub fn device_id_from_digest(digest: &[u8; 16]) -> (r: String)
    ensures
        r@ == device_id_of(digest@),
{
    proof {
        reveal_strlit("0123456789ABCDEFGHIJKLMNOPQRSTUVWXYZ");
    }
    let mut id = String::from_str(DEVICE_ID_PREFIX);
    let mut i: usize = 0;
    while i < MD5_LENGTH
        invariant
            i <= MD5_LENGTH,
            BASE36_DIGITS@.len() == 36,
            id@ == DEVICE_ID_PREFIX@ + Seq::new(
                i as nat,
                |k: int| BASE36_DIGITS@[(digest@[k] % 36) as int],
            ),
        decreases MD5_LENGTH - i,
    {
        let v = (digest[i] % 36) as usize;
        let c = BASE36_DIGITS.substring_char(v, v + 1);
        let ghost before = id@;
        id.append(c);
        i = i + 1;
        assert(id@ =~= DEVICE_ID_PREFIX@ + Seq::new(
            i as nat,
            |k: int| BASE36_DIGITS@[(digest@[k] % 36) as int],
        ));
    }
    id
}

/// The id of a device with the hardware address `mac`; a device whose
/// address is unknown is treated as having the all-zero address.
pub fn get_device_id(mac: Option<[u8; 6]>) -> (r: String)
    ensures
        r@ == device_id_of(
            md5_digest(
                match mac {
                    Some(m) => m@,
                    None => seq![0u8, 0u8, 0u8, 0u8, 0u8, 0u8],
                },
            ),
        ),
{
    let bytes: [u8; 6] = match mac {
        Some(m) => m,
        None => [0u8; 6],
    };
    proof {
        if mac is None {
            assert(bytes@ =~= seq![0u8, 0u8, 0u8, 0u8, 0u8, 0u8]);
        }
    }
    let digest = md5_of(&bytes);
    device_id_from_digest(&digest)
}

} // verus!

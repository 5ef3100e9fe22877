//! Remote-sync decisions: whether the local binary needs replacing, which
//! copy failures the bulk directory sync tolerates, and when the initial
//! sync must run at all.

use md5::{Digest, Md5};
use vstd::prelude::*;

verus! {

/// The lowercase hexadecimal digest of a byte sequence under the fixed
/// content hash.
pub uninterp spec fn md5_hex_of(bytes: Seq<u8>) -> Seq<char>;

/// Relies on `md5::Md5::digest`: the digest depends on the input bytes
/// alone, and is formatted as lowercase hexadecimal.
#[verifier::external_body]
fn md5_hex(bytes: &Vec<u8>) -> (r: String)
    ensures
        r@ == md5_hex_of(bytes@),
{
    format!("{:x}", Md5::digest(bytes.as_slice()))
}

/// Whether the local binary must be replaced by the remote one: always
/// when there is no local binary, otherwise exactly when the two content
/// hashes differ.
pub fn binary_update_needed(local: Option<&Vec<u8>>, remote: &Vec<u8>) -> (r: bool)
    ensures
        r == match local {
            None => true,
            Some(l) => md5_hex_of(l@) != md5_hex_of(remote@),
        },
{
    match local {
        None => true,
        Some(l) => {
            let lh = md5_hex(l);
            let rh = md5_hex(remote);
            !(lh == rh)
        },
    }
}

/// The one copy failure the bulk sync tolerates: the destination file is
/// held open by the running bypass process.
pub fn copy_error_tolerable(raw_os_error: Option<i32>) -> (r: bool)
    ensures
        r == (raw_os_error == Some(32i32)),
{
    match raw_os_error {
        Some(code) => code == 32,
        None => false,
    }
}

/// The initial file sync from the build storage runs only while the
/// binary is not in place yet.
pub fn sync_required(bin_exists: bool) -> (r: bool)
    ensures
        r == !bin_exists,
{
    !bin_exists
}

} // verus!

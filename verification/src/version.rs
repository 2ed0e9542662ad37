//! The version identification string this implementation announces in its
//! banner line.

use vstd::prelude::*;

verus! {

/// The bytes of the bare version number, `"0.0.0a"`.
pub open spec fn spec_version_bytes() -> Seq<u8> {
    seq![0x30u8, 0x2e, 0x30, 0x2e, 0x30, 0x61]
}

/// The bytes of the full identification string, `"SSH-2.0-bssh_0.0.0a"`.
pub open spec fn spec_version_byte_string() -> Seq<u8> {
    seq![0x53u8, 0x53, 0x48, 0x2d, 0x32, 0x2e, 0x30, 0x2d, 0x62, 0x73, 0x73, 0x68, 0x5f]
        + spec_version_bytes()
}

/// The bare version number of this implementation, as bytes.
pub fn version() -> (r: Vec<u8>)
    ensures
        r@ == spec_version_bytes(),
{
    let r: Vec<u8> = vec![0x30u8, 0x2e, 0x30, 0x2e, 0x30, 0x61];
    proof {
        assert(r@ =~= spec_version_bytes());
    }
    r
}

/// The identification string announced in the banner line, as bytes.
pub fn get_version_byte_string() -> (r: Vec<u8>)
    ensures
        r@ == spec_version_byte_string(),
{
    let mut r: Vec<u8> = vec![
        0x53u8, 0x53, 0x48, 0x2d, 0x32, 0x2e, 0x30, 0x2d, 0x62, 0x73, 0x73, 0x68, 0x5f,
    ];
    let mut v = version();
    r.append(&mut v);
    proof {
        assert(r@ =~= spec_version_byte_string());
    }
    r
}

} // verus!

use vstd::prelude::*;

verus! {

/// Calls nothing but reads `libc::ARPHRD_ETHER`, the ARP hardware type of
/// Ethernet. Claimed: its value is 1, as libc's Linux definitions give it.
#[verifier::external_body]
pub(crate) fn arphrd_ether() -> (v: u16)
    ensures
        v == 1,
{
    libc::ARPHRD_ETHER
}

/// Reads `libc::ARPOP_REQUEST`, the ARP operation code of a request.
/// Claimed: its value is 1, as libc's Unix definitions give it.
#[verifier::external_body]
pub(crate) fn arpop_request() -> (v: u16)
    ensures
        v == 1,
{
    libc::ARPOP_REQUEST
}

} // verus!

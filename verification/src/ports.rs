//! Port allocation by linear probing. The probe that tells whether a port
//! is bound is handed in as a closure, so the search itself is verified for
//! every probe the caller supplies.

use vstd::prelude::*;

verus! {

/// Finds a usable port by linear probing: starting at `starting_port`, asks
/// `port_in_use` about each port in turn and returns the first one reported
/// free. Every port below the result was probed and reported occupied. If
/// every representable port is reported occupied the largest one is
/// returned, occupied or not.
pub fn find_open_port<F: Fn(usize) -> bool>(starting_port: usize, port_in_use: &F) -> (port:
    usize)
    requires
        forall|p: usize| starting_port <= p ==> #[trigger] call_requires(*port_in_use, (p,)),
    ensures
        starting_port <= port,
        port < usize::MAX ==> call_ensures(*port_in_use, (port,), false),
        forall|q: usize|
            starting_port <= q < port ==> #[trigger] call_ensures(*port_in_use, (q,), true),
{
    let mut port = starting_port;
    loop
        invariant
            starting_port <= port,
            forall|p: usize| starting_port <= p ==> #[trigger] call_requires(*port_in_use, (p,)),
            forall|q: usize|
                starting_port <= q < port ==> #[trigger] call_ensures(*port_in_use, (q,), true),
        decreases usize::MAX - port,
    {
        let in_use = (*port_in_use)(port);
        if !in_use {
            return port;
        }
        if port == usize::MAX {
            return port;
        }
        port += 1;
    }
}

} // verus!

use vstd::prelude::*;

verus! {

/// What the address choice reads of one network interface of the host.
#[derive(Debug, Clone, Copy)]
pub struct NetInterface {
    pub is_loopback: bool,
    pub is_link_local: bool,
    /// The interface's IPv4 address, when it has one.
    pub ipv4: Option<[u8; 4]>,
}

/// An interface that other hosts of the LAN can reach over IPv4.
pub open spec fn usable(i: NetInterface) -> bool {
    !i.is_loopback && !i.is_link_local && i.ipv4 is Some
}

/// The IPv4 address of the first usable interface, in the order given.
pub open spec fn first_usable(s: Seq<NetInterface>) -> Option<[u8; 4]>
    decreases s.len(),
{
    if s.len() == 0 {
        None
    } else if usable(s[0]) {
        s[0].ipv4
    } else {
        first_usable(s.drop_first())
    }
}

/// The host's address for the LAN: the IPv4 address of the first interface
/// that is neither loopback nor link-local and has one; `None` when no
/// interface qualifies.
pub fn choose_local_ipv4(interfaces: &Vec<NetInterface>) -> (r: Option<[u8; 4]>)
    ensures
        r == first_usable(interfaces@),
{
    let mut i: usize = 0;
    assert(interfaces@.skip(0) =~= interfaces@);
    while i < interfaces.len()
        invariant
            i <= interfaces@.len(),
            first_usable(interfaces@) == first_usable(interfaces@.skip(i as int)),
        decreases interfaces@.len() - i,
    {
        let it = interfaces[i];
        proof {
            assert(interfaces@.skip(i as int).drop_first() =~= interfaces@.skip(i + 1));
        }
        if !it.is_loopback && !it.is_link_local {
            match it.ipv4 {
                Some(a) => return Some(a),
                None => {},
            }
        }
        i = i + 1;
    }
    None
}

} // verus!

//! How pods of different nodes reach each other.
use vstd::prelude::*;
use crate::network::backend::interface::ExternalInterface;
use crate::network::lease::Lease;
use crate::protocol::value::Value;

pub mod hostgw;
pub mod interface;

verus! {

/// Simple network implementation providing basic functionality
#[derive(Debug)]
pub struct SimpleNetwork {
    pub ext_iface: ExternalInterface,
    pub lease: Option<Lease>,
}

impl SimpleNetwork {
    /// The lease of the network.
    pub fn get_lease(&self) -> (r: Result<Lease, String>)
        ensures
            match self.lease {
                Some(l) => r matches Ok(c) && c.deep_view() == l.deep_view(),
                None => r matches Err(m) && m@ == "No lease available"@,
            },
    {
        match &self.lease {
            Some(l) => Ok(l.copy()),
            None => Err("No lease available".to_owned()),
        }
    }

    /// Gives the network a lease.
    pub fn set_lease(&mut self, lease: Lease)
        ensures
            *final(self) == (SimpleNetwork { lease: Some(lease), ..*old(self) }),
    {
        self.lease = Some(lease);
    }

    /// The MTU of its interface.
    pub fn mtu(&self) -> (r: Option<u32>)
        ensures
            r == self.ext_iface.iface.mtu,
    {
        self.ext_iface.iface.mtu
    }

    /// Its kind.
    pub fn backend_type(&self) -> (r: String)
        ensures
            r@ == "simple"@,
    {
        "simple".to_owned()
    }
}

} // verus!

//! Addresses within the hierarchy. A raw address is the id of an actor in
//! its own subnet; an `IPCAddress` pairs a raw address with the subnet it
//! lives in, so a message can name actors anywhere in the tree.
use vstd::prelude::*;

use crate::error::Error;
use crate::subnet_id::SubnetID;

verus! {

/// The distinguished actor id to which burnt funds are sent.
pub const BURNT_FUNDS_ACTOR: u64 = 99;

/// A raw actor address qualified by the subnet it belongs to.
#[derive(Debug)]
pub struct IPCAddress {
    subnet_id: SubnetID,
    raw_address: u64,
}

/// The mathematical content of an `IPCAddress`.
#[verifier::ext_equal]
pub ghost struct AddrView {
    pub subnet: Seq<u64>,
    pub raw: u64,
}

impl View for IPCAddress {
    type V = AddrView;

    closed spec fn view(&self) -> AddrView {
        AddrView { subnet: self.subnet_id@, raw: self.raw_address }
    }
}

impl IPCAddress {
    /// Pair a subnet id with a raw address.
    pub fn new(sn: &SubnetID, addr: u64) -> (r: Result<Self, Error>)
        ensures
            r matches Ok(a) && a@ == (AddrView { subnet: sn@, raw: addr }),
    {
        Ok(IPCAddress { subnet_id: sn.clone(), raw_address: addr })
    }

    /// A borrow of the subnet this address lives in.
    pub fn subnet_ref(&self) -> (r: &SubnetID)
        ensures
            r@ == self@.subnet,
    {
        &self.subnet_id
    }

    /// The raw address as a plain id.
    pub fn raw(&self) -> (r: u64)
        ensures
            r == self@.raw,
    {
        self.raw_address
    }

    /// The subnet this address lives in.
    pub fn subnet(&self) -> (r: Result<SubnetID, Error>)
        ensures
            r matches Ok(s) && s@ == self@.subnet,
    {
        Ok(self.subnet_id.clone())
    }

    /// The raw address without its subnet context.
    pub fn raw_addr(&self) -> (r: Result<u64, Error>)
        ensures
            r matches Ok(a) && a == self@.raw,
    {
        Ok(self.raw_address)
    }
}

impl Clone for IPCAddress {
    fn clone(&self) -> (r: Self)
        ensures
            r@ == self@,
    {
        IPCAddress { subnet_id: self.subnet_id.clone(), raw_address: self.raw_address }
    }
}

impl PartialEq for IPCAddress {
    fn eq(&self, other: &IPCAddress) -> (r: bool)
    {
        self.subnet_id == other.subnet_id && self.raw_address == other.raw_address
    }
}

impl vstd::std_specs::cmp::PartialEqSpecImpl for IPCAddress {
    open spec fn obeys_eq_spec() -> bool {
        true
    }

    open spec fn eq_spec(&self, other: &IPCAddress) -> bool {
        self@ == other@
    }
}

} // verus!

//! Cross-messages: the payloads routed between subnets, and the rules that
//! classify a message as bottom-up or top-down at a given subnet.
use vstd::prelude::*;

use crate::METHOD_SEND;
use crate::address::{AddrView, BURNT_FUNDS_ACTOR, IPCAddress};
use crate::error::Error;
use crate::subnet_id::{SubnetID, common_prefix_len, is_prefix};

verus! {

/// Everything needed to execute a message in another subnet.
#[derive(Debug)]
pub struct StorableMsg {
    pub from: IPCAddress,
    pub to: IPCAddress,
    pub method: u64,
    pub params: Vec<u8>,
    pub value: u128,
    pub nonce: u64,
}

/// The mathematical content of a `StorableMsg`.
#[verifier::ext_equal]
pub ghost struct MsgView {
    pub from: AddrView,
    pub to: AddrView,
    pub method: u64,
    pub params: Seq<u8>,
    pub value: u128,
    pub nonce: u64,
}

impl View for StorableMsg {
    type V = MsgView;

    open spec fn view(&self) -> MsgView {
        MsgView {
            from: self.from@,
            to: self.to@,
            method: self.method,
            params: self.params@,
            value: self.value,
            nonce: self.nonce,
        }
    }
}

/// The direction of a message in the hierarchy.
#[derive(PartialEq, Eq, Structural, Clone, Copy, Debug)]
pub enum HCMsgType {
    Unknown,
    BottomUp,
    TopDown,
}

/// A message travels bottom-up from `from` exactly when `from` does not stand
/// on the path from the root down to `to`: it must first climb toward their
/// common ancestor.
pub open spec fn spec_is_bottomup(from: Seq<u64>, to: Seq<u64>) -> bool {
    common_prefix_len(from, to) > 0 && from.len() > common_prefix_len(from, to)
}

/// Whether a message from subnet `from` to subnet `to` starts bottom-up.
pub fn is_bottomup(from: &SubnetID, to: &SubnetID) -> (r: bool)
    ensures
        r == spec_is_bottomup(from@, to@),
{
    match from.common_parent(to) {
        None => false,
        Some((ind, _)) => from.len() > ind,
    }
}

/// The raw direction of a message: bottom-up when its source subnet is not an
/// ancestor of its destination.
pub open spec fn spec_hc_type(m: MsgView) -> HCMsgType {
    if spec_is_bottomup(m.from.subnet, m.to.subnet) {
        HCMsgType::BottomUp
    } else {
        HCMsgType::TopDown
    }
}

/// The direction a message takes at the subnet `curr`: still bottom-up when
/// `curr` sees the same common ancestor with the destination as the source
/// does, and the raw direction was bottom-up; top-down from there on.
pub open spec fn spec_apply_type(m: MsgView, curr: Seq<u64>) -> HCMsgType {
    if common_prefix_len(curr, m.to.subnet) == common_prefix_len(m.from.subnet, m.to.subnet)
        && spec_hc_type(m) == HCMsgType::BottomUp {
        HCMsgType::BottomUp
    } else {
        HCMsgType::TopDown
    }
}

impl StorableMsg {
    /// A bottom-up message releasing funds from `sub_id` to `sig_addr` in its
    /// parent. Fails when `sub_id` has no parent.
    pub fn new_release_msg(sub_id: &SubnetID, sig_addr: u64, value: u128, nonce: u64) -> (r:
        Result<Self, Error>)
        ensures
            sub_id@.len() <= 1 ==> (r matches Err(e) && e is IllegalArgument),
            sub_id@.len() > 1 ==> (r matches Ok(m) && m@ == (MsgView {
                from: AddrView { subnet: sub_id@, raw: BURNT_FUNDS_ACTOR },
                to: AddrView { subnet: sub_id@.drop_last(), raw: sig_addr },
                method: METHOD_SEND,
                params: Seq::<u8>::empty(),
                value: value,
                nonce: nonce,
            })),
    {
        let parent = match sub_id.parent() {
            Some(p) => p,
            None => {
                return Err(Error::IllegalArgument("error getting parent for subnet addr"));
            },
        };
        let to = match IPCAddress::new(&parent, sig_addr) {
            Ok(a) => a,
            Err(e) => {
                return Err(e);
            },
        };
        let from = match IPCAddress::new(sub_id, BURNT_FUNDS_ACTOR) {
            Ok(a) => a,
            Err(e) => {
                return Err(e);
            },
        };
        let params: Vec<u8> = Vec::new();
        proof {
            assert(params@ =~= Seq::<u8>::empty());
        }
        Ok(StorableMsg { from, to, method: METHOD_SEND, params, value, nonce })
    }

    /// A top-down message funding `sig_addr`'s account inside `sub_id` from
    /// its account in the parent. Fails when `sub_id` has no parent. The
    /// nonce is set when the message is committed.
    pub fn new_fund_msg(sub_id: &SubnetID, sig_addr: u64, value: u128) -> (r: Result<Self, Error>)
        ensures
            sub_id@.len() <= 1 ==> (r matches Err(e) && e is IllegalArgument),
            sub_id@.len() > 1 ==> (r matches Ok(m) && m@ == (MsgView {
                from: AddrView { subnet: sub_id@.drop_last(), raw: sig_addr },
                to: AddrView { subnet: sub_id@, raw: sig_addr },
                method: METHOD_SEND,
                params: Seq::<u8>::empty(),
                value: value,
                nonce: 0,
            })),
    {
        let parent = match sub_id.parent() {
            Some(p) => p,
            None => {
                return Err(Error::IllegalArgument("error getting parent for subnet addr"));
            },
        };
        let from = match IPCAddress::new(&parent, sig_addr) {
            Ok(a) => a,
            Err(e) => {
                return Err(e);
            },
        };
        let to = match IPCAddress::new(sub_id, sig_addr) {
            Ok(a) => a,
            Err(e) => {
                return Err(e);
            },
        };
        let params: Vec<u8> = Vec::new();
        proof {
            assert(params@ =~= Seq::<u8>::empty());
        }
        Ok(StorableMsg { from, to, method: METHOD_SEND, params, value, nonce: 0 })
    }

    /// The raw direction of this message, from its endpoints alone.
    pub fn hc_type(&self) -> (r: Result<HCMsgType, Error>)
        ensures
            r matches Ok(t) && t == spec_hc_type(self@),
    {
        let sto = match self.to.subnet() {
            Ok(s) => s,
            Err(e) => {
                return Err(e);
            },
        };
        let sfrom = match self.from.subnet() {
            Ok(s) => s,
            Err(e) => {
                return Err(e);
            },
        };
        if is_bottomup(&sfrom, &sto) {
            Ok(HCMsgType::BottomUp)
        } else {
            Ok(HCMsgType::TopDown)
        }
    }

    /// The direction this message takes at the subnet `curr`.
    pub fn apply_type(&self, curr: &SubnetID) -> (r: Result<HCMsgType, Error>)
        ensures
            r matches Ok(t) && t == spec_apply_type(self@, curr@),
    {
        let sto = match self.to.subnet() {
            Ok(s) => s,
            Err(e) => {
                return Err(e);
            },
        };
        let sfrom = match self.from.subnet() {
            Ok(s) => s,
            Err(e) => {
                return Err(e);
            },
        };
        let cp_curr = curr.common_parent(&sto);
        let cp_from = sfrom.common_parent(&sto);
        let same = match (cp_curr, cp_from) {
            (None, None) => true,
            (Some((i, _)), Some((j, _))) => i == j,
            _ => false,
        };
        let ty = match self.hc_type() {
            Ok(t) => t,
            Err(e) => {
                return Err(e);
            },
        };
        if same && matches!(ty, HCMsgType::BottomUp) {
            Ok(HCMsgType::BottomUp)
        } else {
            Ok(HCMsgType::TopDown)
        }
    }
}

impl Clone for StorableMsg {
    fn clone(&self) -> (r: Self)
        ensures
            r@ == self@,
    {
        let params = self.params.clone();
        proof {
            assert(params@ =~= self.params@);
        }
        StorableMsg {
            from: self.from.clone(),
            to: self.to.clone(),
            method: self.method,
            params,
            value: self.value,
            nonce: self.nonce,
        }
    }
}

impl PartialEq for StorableMsg {
    fn eq(&self, other: &StorableMsg) -> (r: bool)
    {
        let params_eq = self.params == other.params;
        proof {
            if params_eq {
                assert(self.params@ =~= other.params@);
            } else {
                assert(self.params@ != other.params@);
            }
        }
        self.from == other.from && self.to == other.to && self.method == other.method
            && params_eq && self.value == other.value && self.nonce == other.nonce
    }
}

impl vstd::std_specs::cmp::PartialEqSpecImpl for StorableMsg {
    open spec fn obeys_eq_spec() -> bool {
        true
    }

    open spec fn eq_spec(&self, other: &StorableMsg) -> bool {
        self@ == other@
    }
}

/// A cross-message together with the flag saying whether its params wrap a
/// whole inner message.
#[derive(Debug)]
pub struct CrossMsg {
    pub msg: StorableMsg,
    pub wrapped: bool,
}

/// The mathematical content of a `CrossMsg`.
#[verifier::ext_equal]
pub ghost struct CrossMsgView {
    pub msg: MsgView,
    pub wrapped: bool,
}

impl View for CrossMsg {
    type V = CrossMsgView;

    open spec fn view(&self) -> CrossMsgView {
        CrossMsgView { msg: self.msg@, wrapped: self.wrapped }
    }
}

impl Clone for CrossMsg {
    fn clone(&self) -> (r: Self)
        ensures
            r@ == self@,
    {
        CrossMsg { msg: self.msg.clone(), wrapped: self.wrapped }
    }
}

impl PartialEq for CrossMsg {
    fn eq(&self, other: &CrossMsg) -> (r: bool)
    {
        self.msg == other.msg && self.wrapped == other.wrapped
    }
}

impl vstd::std_specs::cmp::PartialEqSpecImpl for CrossMsg {
    open spec fn obeys_eq_spec() -> bool {
        true
    }

    open spec fn eq_spec(&self, other: &CrossMsg) -> bool {
        self@ == other@
    }
}

} // verus!

//! A registered child subnet: its collateral, status, circulating supply and
//! its queue of top-down messages, dense in the nonce.
use vstd::prelude::*;

use crate::checkpoint::{Checkpoint, CheckpointView};
use crate::cross::{CrossMsg, CrossMsgView, StorableMsg};
use crate::error::Error;
use crate::subnet_id::SubnetID;

verus! {

/// The lifecycle of a subnet. Collateral at or above the minimum keeps it
/// Active; falling below makes it Inactive; a killed subnet is removed.
#[derive(PartialEq, Eq, Structural, Clone, Copy, Debug)]
pub enum Status {
    Active,
    Inactive,
    Killed,
}

/// A child subnet as its parent sees it.
#[derive(Debug)]
pub struct Subnet {
    pub id: SubnetID,
    pub stake: u128,
    pub top_down_msgs: Vec<CrossMsg>,
    pub circ_supply: u128,
    pub status: Status,
    pub topdown_nonce: u64,
    pub prev_checkpoint: Option<Checkpoint>,
}

/// The mathematical content of a `Subnet`.
#[verifier::ext_equal]
pub ghost struct SubnetView {
    pub id: Seq<u64>,
    pub stake: u128,
    pub top_down_msgs: Seq<CrossMsgView>,
    pub circ_supply: u128,
    pub status: Status,
    pub topdown_nonce: u64,
    pub prev_checkpoint: Option<CheckpointView>,
}

impl View for Subnet {
    type V = SubnetView;

    open spec fn view(&self) -> SubnetView {
        SubnetView {
            id: self.id@,
            stake: self.stake,
            top_down_msgs: self.top_down_msgs@.map_values(|m: CrossMsg| m@),
            circ_supply: self.circ_supply,
            status: self.status,
            topdown_nonce: self.topdown_nonce,
            prev_checkpoint: match self.prev_checkpoint {
                Some(c) => Some(c@),
                None => None,
            },
        }
    }
}

impl SubnetView {
    /// The top-down queue is dense: it holds one message per nonce from zero
    /// up to the next nonce, in order.
    pub open spec fn wf(&self) -> bool {
        &&& self.top_down_msgs.len() == self.topdown_nonce
        &&& forall|i: int|
            0 <= i < self.top_down_msgs.len() ==> #[trigger] self.top_down_msgs[i].msg.nonce == i
    }
}

/// The status a subnet has with `stake` collateral against `min_stake`.
pub open spec fn status_for_stake(stake: u128, min_stake: u128) -> Status {
    if stake < min_stake {
        Status::Inactive
    } else {
        Status::Active
    }
}

impl Subnet {
    /// Add collateral and refresh the status.
    pub fn add_stake(&mut self, value: u128, min_stake: u128)
        requires
            old(self)@.stake + value <= u128::MAX,
        ensures
            final(self)@ == (SubnetView {
                stake: (old(self)@.stake + value) as u128,
                status: status_for_stake((old(self)@.stake + value) as u128, min_stake),
                ..old(self)@
            }),
    {
        self.stake = self.stake + value;
        self.status = if self.stake < min_stake {
            Status::Inactive
        } else {
            Status::Active
        };
    }

    /// Return collateral and refresh the status.
    pub fn release_stake(&mut self, value: u128, min_stake: u128)
        requires
            value <= old(self)@.stake,
        ensures
            final(self)@ == (SubnetView {
                stake: (old(self)@.stake - value) as u128,
                status: status_for_stake((old(self)@.stake - value) as u128, min_stake),
                ..old(self)@
            }),
    {
        self.stake = self.stake - value;
        self.status = if self.stake < min_stake {
            Status::Inactive
        } else {
            Status::Active
        };
    }

    /// Append a top-down message carrying the next nonce to the queue.
    pub fn store_topdown_msg(&mut self, m: CrossMsg)
        requires
            old(self)@.wf(),
            m@.msg.nonce == old(self)@.topdown_nonce,
            old(self)@.topdown_nonce < u64::MAX,
        ensures
            final(self)@ == (SubnetView {
                top_down_msgs: old(self)@.top_down_msgs.push(m@),
                topdown_nonce: (old(self)@.topdown_nonce + 1) as u64,
                ..old(self)@
            }),
            final(self)@.wf(),
    {
        self.top_down_msgs.push(m);
        self.topdown_nonce = self.topdown_nonce + 1;
        proof {
            assert(self@.top_down_msgs =~= old(self)@.top_down_msgs.push(m@));
        }
    }

    /// Release part of the circulating supply. Fails when the subnet does not
    /// hold that much.
    pub fn release_supply(&mut self, value: u128) -> (r: Result<(), Error>)
        ensures
            value > old(self)@.circ_supply ==> (r matches Err(e) && e is IllegalState
                && final(self)@ == old(self)@),
            value <= old(self)@.circ_supply ==> r is Ok && final(self)@ == (SubnetView {
                circ_supply: (old(self)@.circ_supply - value) as u128,
                ..old(self)@
            }),
    {
        if value > self.circ_supply {
            return Err(Error::IllegalState("error releasing circulating supply"));
        }
        self.circ_supply = self.circ_supply - value;
        Ok(())
    }
}

impl Clone for Subnet {
    fn clone(&self) -> (r: Self)
        ensures
            r@ == self@,
    {
        let top_down_msgs = self.top_down_msgs.clone();
        proof {
            assert(top_down_msgs@.map_values(|m: CrossMsg| m@) =~= self.top_down_msgs@.map_values(
                |m: CrossMsg| m@,
            ));
        }
        Subnet {
            id: self.id.clone(),
            stake: self.stake,
            top_down_msgs,
            circ_supply: self.circ_supply,
            status: self.status,
            topdown_nonce: self.topdown_nonce,
            prev_checkpoint: match &self.prev_checkpoint {
                Some(c) => Some(c.clone()),
                None => None,
            },
        }
    }
}

/// The top-down message stored under `nonce`, when the queue holds one.
pub fn get_topdown_msg(crossmsgs: &Vec<CrossMsg>, nonce: u64) -> (r: Option<&StorableMsg>)
    ensures
        nonce < crossmsgs@.len() ==> (r matches Some(m) && m@ == crossmsgs@[nonce as int]@.msg),
        nonce >= crossmsgs@.len() ==> r is None,
{
    if nonce < crossmsgs.len() as u64 {
        let i = nonce as usize;
        Some(&crossmsgs[i].msg)
    } else {
        None
    }
}

} // verus!

//! The gateway's operations. Each one is a pure step: it takes the state,
//! the caller and the host-provided values, mutates the state or leaves it
//! untouched on error, and hands back the value transfers the host must
//! perform. Callers are assumed authenticated by the host.
use vstd::prelude::*;

use crate::{CROSS_MSG_FEE, MIN_COLLATERAL_AMOUNT, METHOD_SEND, SUBNET_ACTOR_REWARD_METHOD};
use crate::address::{BURNT_FUNDS_ACTOR, IPCAddress};
use crate::checkpoint::{Checkpoint, CheckpointView};
use crate::cron::{CronCheckpoint, ValidatorSet, VoteExecutionStatus, weight_of};
use crate::cross::{CrossMsg, CrossMsgView, HCMsgType, MsgView, StorableMsg, spec_apply_type};
use crate::error::Error;
use crate::state::{ConstructorParams, State, StateView, subnet_of};
use crate::subnet::{Status, SubnetView, status_for_stake};
use crate::subnet_id::SubnetID;

verus! {

/// One outbound value transfer the host must perform after the operation.
#[derive(Debug)]
pub struct Transfer {
    pub to: u64,
    pub method: u64,
    pub params: Vec<u8>,
    pub value: u128,
}

/// The mathematical content of a `Transfer`.
#[verifier::ext_equal]
pub ghost struct TransferView {
    pub to: u64,
    pub method: u64,
    pub params: Seq<u8>,
    pub value: u128,
}

impl View for Transfer {
    type V = TransferView;

    open spec fn view(&self) -> TransferView {
        TransferView {
            to: self.to,
            method: self.method,
            params: self.params@,
            value: self.value,
        }
    }
}

/// A bare value transfer.
pub open spec fn plain_send(to: u64, value: u128) -> TransferView {
    TransferView { to: to, method: METHOD_SEND, params: Seq::empty(), value: value }
}

/// The reward transfer that hands a collected fee to a subnet actor.
pub open spec fn fee_reward(to: u64, fee: u128) -> TransferView {
    TransferView { to: to, method: SUBNET_ACTOR_REWARD_METHOD, params: Seq::empty(), value: fee }
}

/// The operations the gateway dispatches on.
pub enum Method {
    Constructor,
    Register,
    AddStake,
    ReleaseStake,
    Kill,
    CommitChildCheckpoint,
    Fund,
    Release,
    SendCross,
    ApplyMessage,
    Propagate,
    WhiteListPropagator,
    SubmitCron,
    SetMembership,
}

/// The gateway actor: a namespace for its operations.
pub struct Actor;

impl Actor {
    /// Build the initial state from the constructor parameters. A zero cron
    /// period can never vote and is refused.
    pub fn constructor(params: ConstructorParams) -> (r: Result<State, Error>)
        ensures
            params.cron_period == 0 ==> (r matches Err(e) && e is IllegalArgument),
            params.cron_period > 0 ==> (r matches Ok(st) && st@.wf()
                && st@.network_name == params.network_name@
                && st@.genesis_epoch == params.genesis_epoch
                && st@.cron_period == params.cron_period
                && st@.last_cron_executed_epoch == params.genesis_epoch),
    {
        if params.cron_period == 0 {
            return Err(Error::IllegalArgument("cron period must be positive"));
        }
        Ok(State::new(params))
    }

    /// Register the caller's subnet with the value sent as collateral.
    pub fn register(st: &mut State, caller: u64, value: u128) -> (r: Result<SubnetID, Error>)
        requires
            old(st)@.wf(),
        ensures
            ({
                let shid = old(st)@.network_name.push(caller);
                &&& (subnet_of(old(st)@.subnets, shid) is Some ==> (r matches Err(e) && e
                    is IllegalArgument && final(st)@ == old(st)@))
                &&& (subnet_of(old(st)@.subnets, shid) is None && value < MIN_COLLATERAL_AMOUNT
                    ==> (r matches Err(e) && e is IllegalArgument && final(st)@ == old(st)@))
                &&& (subnet_of(old(st)@.subnets, shid) is None && value >= MIN_COLLATERAL_AMOUNT
                    ==> (r matches Ok(id) && id@ == shid && final(st)@ == (StateView {
                    subnets: old(st)@.subnets.push(
                        SubnetView {
                            id: shid,
                            stake: value,
                            top_down_msgs: Seq::<CrossMsgView>::empty(),
                            circ_supply: 0u128,
                            status: Status::Active,
                            topdown_nonce: 0u64,
                            prev_checkpoint: None::<CheckpointView>,
                        },
                    ),
                    total_subnets: (old(st)@.total_subnets + 1) as u64,
                    ..old(st)@
                })))
            }),
            final(st)@.wf(),
    {
        let shid = SubnetID::new_from_parent(&st.network_name, caller);
        match st.get_subnet(&shid) {
            Ok(Some(_)) => {
                return Err(Error::IllegalArgument("subnet with id already registered"));
            },
            Ok(None) => (),
            Err(e) => {
                return Err(e);
            },
        }
        match st.register_subnet(value, &shid) {
            Ok(_) => (),
            Err(e) => {
                return Err(e);
            },
        }
        Ok(shid)
    }

    /// Add the value sent to the caller's subnet collateral.
    pub fn add_stake(st: &mut State, caller: u64, value: u128) -> (r: Result<(), Error>)
        requires
            old(st)@.wf(),
        ensures
            ({
                let shid = old(st)@.network_name.push(caller);
                &&& (value == 0 ==> (r matches Err(e) && e is IllegalArgument && final(st)@
                    == old(st)@))
                &&& (value > 0 && subnet_of(old(st)@.subnets, shid) is None ==> (r matches Err(e)
                    && e is IllegalArgument && final(st)@ == old(st)@))
                &&& (match subnet_of(old(st)@.subnets, shid) {
                    Some(sub) => value > 0 ==> {
                        &&& (sub.stake + value > u128::MAX ==> (r matches Err(e) && e
                            is IllegalState && final(st)@ == old(st)@))
                        &&& (sub.stake + value <= u128::MAX ==> r is Ok && exists|k: int|
                            {
                                &&& 0 <= k < old(st)@.subnets.len()
                                &&& old(st)@.subnets[k] == sub
                                &&& final(st)@ == (StateView {
                                    subnets: old(st)@.subnets.update(
                                        k,
                                        SubnetView {
                                            stake: (sub.stake + value) as u128,
                                            status: status_for_stake(
                                                (sub.stake + value) as u128,
                                                old(st)@.min_stake,
                                            ),
                                            ..sub
                                        },
                                    ),
                                    ..old(st)@
                                })
                            })
                    },
                    None => true,
                })
            }),
            final(st)@.wf(),
    {
        if value == 0 {
            return Err(Error::IllegalArgument("no stake to add"));
        }
        let shid = SubnetID::new_from_parent(&st.network_name, caller);
        let ghost views0 = st@.subnets;
        let k = match crate::state::find_subnet(&st.subnets, &shid) {
            Some(k) => k,
            None => {
                proof {
                    crate::state::lemma_subnet_of_first(views0, shid@, views0.len() as int);
                }
                return Err(Error::IllegalArgument("subnet with id not registered"));
            },
        };
        proof {
            crate::state::lemma_subnet_of_first(views0, shid@, k as int);
        }
        if st.subnets[k].stake > u128::MAX - value {
            return Err(Error::IllegalState("stake overflows"));
        }
        let mut sub = st.subnets.remove(k);
        sub.add_stake(value, st.min_stake);
        st.subnets.insert(k, sub);
        proof {
            assert(st@.subnets =~= views0.update(k as int, st@.subnets[k as int]));
            assert(st@ =~= (StateView { subnets: st@.subnets, ..old(st)@ }));
            assert forall|i: int| 0 <= i < st@.subnets.len() implies (
            #[trigger] st@.subnets[i]).wf() by {
                if i != k {
                    assert(st@.subnets[i] == views0[i]);
                }
            }
        }
        Ok(())
    }

    /// Return part of the caller's collateral; the host pays it out with the
    /// returned transfer. Refused when the subnet has too little staked or
    /// the gateway's own balance could not cover it.
    pub fn release_stake(st: &mut State, caller: u64, value: u128, current_balance: u128) -> (r:
        Result<Transfer, Error>)
        requires
            old(st)@.wf(),
        ensures
            ({
                let shid = old(st)@.network_name.push(caller);
                &&& (value == 0 ==> (r matches Err(e) && e is IllegalArgument && final(st)@
                    == old(st)@))
                &&& (value > 0 && subnet_of(old(st)@.subnets, shid) is None ==> (r matches Err(e)
                    && e is IllegalArgument && final(st)@ == old(st)@))
                &&& (match subnet_of(old(st)@.subnets, shid) {
                    Some(sub) => value > 0 ==> {
                        &&& (sub.stake < value ==> (r matches Err(e) && e is IllegalState
                            && final(st)@ == old(st)@))
                        &&& (sub.stake >= value && current_balance < value ==> (r matches Err(e)
                            && e is IllegalState && final(st)@ == old(st)@))
                        &&& (sub.stake >= value && current_balance >= value ==> (r matches Ok(t)
                            && t@ == plain_send(caller, value) && exists|k: int|
                            {
                                &&& 0 <= k < old(st)@.subnets.len()
                                &&& old(st)@.subnets[k] == sub
                                &&& final(st)@ == (StateView {
                                    subnets: old(st)@.subnets.update(
                                        k,
                                        SubnetView {
                                            stake: (sub.stake - value) as u128,
                                            status: status_for_stake(
                                                (sub.stake - value) as u128,
                                                old(st)@.min_stake,
                                            ),
                                            ..sub
                                        },
                                    ),
                                    ..old(st)@
                                })
                            }))
                    },
                    None => true,
                })
            }),
            final(st)@.wf(),
    {
        if value == 0 {
            return Err(Error::IllegalArgument("no funds to release in params"));
        }
        let shid = SubnetID::new_from_parent(&st.network_name, caller);
        let ghost views0 = st@.subnets;
        let k = match crate::state::find_subnet(&st.subnets, &shid) {
            Some(k) => k,
            None => {
                proof {
                    crate::state::lemma_subnet_of_first(views0, shid@, views0.len() as int);
                }
                return Err(Error::IllegalArgument("subnet with id not registered"));
            },
        };
        proof {
            crate::state::lemma_subnet_of_first(views0, shid@, k as int);
        }
        if st.subnets[k].stake < value {
            return Err(Error::IllegalState("subnet actor not allowed to release so many funds"));
        }
        if current_balance < value {
            return Err(Error::IllegalState("the actor doesn't have enough balance to release"));
        }
        let mut sub = st.subnets.remove(k);
        sub.release_stake(value, st.min_stake);
        st.subnets.insert(k, sub);
        proof {
            assert(st@.subnets =~= views0.update(k as int, st@.subnets[k as int]));
            assert(st@ =~= (StateView { subnets: st@.subnets, ..old(st)@ }));
            assert forall|i: int| 0 <= i < st@.subnets.len() implies (
            #[trigger] st@.subnets[i]).wf() by {
                if i != k {
                    assert(st@.subnets[i] == views0[i]);
                }
            }
        }
        let params: Vec<u8> = Vec::new();
        proof {
            assert(params@ =~= Seq::<u8>::empty());
        }
        Ok(Transfer { to: caller, method: METHOD_SEND, params, value })
    }

    /// Unregister the caller's subnet and return its remaining collateral.
    /// A subnet still holding user funds in its circulating supply stays.
    pub fn kill(st: &mut State, caller: u64, current_balance: u128) -> (r: Result<Transfer, Error>)
        requires
            old(st)@.wf(),
        ensures
            ({
                let shid = old(st)@.network_name.push(caller);
                &&& (subnet_of(old(st)@.subnets, shid) is None ==> (r matches Err(e) && e
                    is IllegalArgument && final(st)@ == old(st)@))
                &&& (match subnet_of(old(st)@.subnets, shid) {
                    Some(sub) => {
                        &&& (current_balance < sub.stake ==> (r matches Err(e) && e
                            is IllegalState && final(st)@ == old(st)@))
                        &&& (current_balance >= sub.stake && sub.circ_supply > 0 ==> (r
                            matches Err(e) && e is IllegalState && final(st)@ == old(st)@))
                        &&& (current_balance >= sub.stake && sub.circ_supply == 0 ==> (r
                            matches Ok(t) && t@ == plain_send(caller, sub.stake) && exists|k: int|
                            {
                                &&& 0 <= k < old(st)@.subnets.len()
                                &&& old(st)@.subnets[k] == sub
                                &&& final(st)@ == (StateView {
                                    subnets: old(st)@.subnets.remove(k),
                                    total_subnets: (old(st)@.total_subnets - 1) as u64,
                                    ..old(st)@
                                })
                            }))
                    },
                    None => true,
                })
            }),
            final(st)@.wf(),
    {
        let shid = SubnetID::new_from_parent(&st.network_name, caller);
        let ghost views0 = st@.subnets;
        let k = match crate::state::find_subnet(&st.subnets, &shid) {
            Some(k) => k,
            None => {
                proof {
                    crate::state::lemma_subnet_of_first(views0, shid@, views0.len() as int);
                }
                return Err(Error::IllegalArgument("subnet with id not registered"));
            },
        };
        proof {
            crate::state::lemma_subnet_of_first(views0, shid@, k as int);
        }
        if current_balance < st.subnets[k].stake {
            return Err(Error::IllegalState("the actor doesn't have enough balance to release"));
        }
        if st.subnets[k].circ_supply > 0 {
            return Err(Error::IllegalState(
                "cannot kill a subnet that still holds user funds in its circ. supply",
            ));
        }
        let value = st.subnets[k].stake;
        let _ = st.subnets.remove(k);
        st.total_subnets = st.total_subnets - 1;
        proof {
            assert(st@.subnets =~= views0.remove(k as int));
            assert(st@ =~= (StateView {
                subnets: views0.remove(k as int),
                total_subnets: st.total_subnets,
                ..old(st)@
            }));
            assert forall|a: int, b: int|
                0 <= a < b < st@.subnets.len() implies st@.subnets[a].id != st@.subnets[b].id by {
                let ra = if a < k { a } else { a + 1 };
                let rb = if b < k { b } else { b + 1 };
                assert(st@.subnets[a] == views0[ra]);
                assert(st@.subnets[b] == views0[rb]);
            }
            assert forall|i: int| 0 <= i < st@.subnets.len() implies (
            #[trigger] st@.subnets[i]).wf() by {
                let ri = if i < k { i } else { i + 1 };
                assert(st@.subnets[i] == views0[ri]);
            }
        }
        let params: Vec<u8> = Vec::new();
        proof {
            assert(params@ =~= Seq::<u8>::empty());
        }
        Ok(Transfer { to: caller, method: METHOD_SEND, params, value })
    }
}

impl Actor {
    /// Inject funds into a child subnet: the fee is taken from the value
    /// sent, a fund message carrying the remainder is committed top-down, and
    /// the fee is rewarded to the destination's subnet actor.
    pub fn fund(st: &mut State, sig_addr: u64, destination: &SubnetID, value_received: u128) -> (r:
        Result<Transfer, Error>)
        requires
            old(st)@.wf(),
        ensures
            ({
                let fund_msg = CrossMsgView {
                    msg: MsgView {
                        from: crate::address::AddrView {
                            subnet: destination@.drop_last(),
                            raw: sig_addr,
                        },
                        to: crate::address::AddrView { subnet: destination@, raw: sig_addr },
                        method: METHOD_SEND,
                        params: Seq::<u8>::empty(),
                        value: (value_received - CROSS_MSG_FEE) as u128,
                        nonce: 0u64,
                    },
                    wrapped: false,
                };
                &&& (value_received == 0 ==> (r matches Err(e) && e is IllegalArgument))
                &&& (value_received > 0 && value_received < CROSS_MSG_FEE ==> (r matches Err(e)
                    && e is IllegalState))
                &&& (value_received >= CROSS_MSG_FEE && destination@.len() <= 1 ==> (r
                    matches Err(e) && e is IllegalArgument))
                &&& (value_received > 0 && value_received >= CROSS_MSG_FEE && destination@.len()
                    > 1 ==> {
                    &&& (r is Ok <==> crate::state::can_commit_topdown(old(st)@, fund_msg))
                    &&& (r matches Ok(t) ==> {
                        &&& crate::state::committed_topdown(old(st)@, final(st)@, fund_msg)
                        &&& t@ == fee_reward(destination@.last(), CROSS_MSG_FEE)
                    })
                })
                &&& (r is Err ==> final(st)@ == old(st)@)
            }),
            final(st)@.wf(),
    {
        if value_received == 0 {
            return Err(Error::IllegalArgument("no funds included in fund message"));
        }
        let mut value = value_received;
        match st.collect_cross_fee(&mut value, CROSS_MSG_FEE) {
            Ok(_) => (),
            Err(e) => {
                return Err(e);
            },
        }
        let msg = match StorableMsg::new_fund_msg(destination, sig_addr, value) {
            Ok(m) => m,
            Err(e) => {
                return Err(e);
            },
        };
        let f_msg = CrossMsg { msg, wrapped: false };
        match st.commit_topdown_msg(f_msg) {
            Ok(_) => (),
            Err(e) => {
                return Err(e);
            },
        }
        let params: Vec<u8> = Vec::new();
        proof {
            assert(params@ =~= Seq::<u8>::empty());
        }
        Ok(Transfer {
            to: destination.subnet_actor(),
            method: SUBNET_ACTOR_REWARD_METHOD,
            params,
            value: CROSS_MSG_FEE,
        })
    }

    /// Release funds to the caller's account in the parent: the fee is taken
    /// from the value sent, a release message carrying the remainder joins
    /// the current window checkpoint, and the remainder is burnt here.
    pub fn release(st: &mut State, sig_addr: u64, value_received: u128, curr_epoch: u64) -> (r:
        Result<Transfer, Error>)
        requires
            old(st)@.wf(),
        ensures
            ({
                let release_msg = CrossMsgView {
                    msg: MsgView {
                        from: crate::address::AddrView {
                            subnet: old(st)@.network_name,
                            raw: BURNT_FUNDS_ACTOR,
                        },
                        to: crate::address::AddrView {
                            subnet: old(st)@.network_name.drop_last(),
                            raw: sig_addr,
                        },
                        method: METHOD_SEND,
                        params: Seq::<u8>::empty(),
                        value: (value_received - CROSS_MSG_FEE) as u128,
                        nonce: old(st)@.nonce,
                    },
                    wrapped: false,
                };
                &&& (value_received == 0 ==> (r matches Err(e) && e is IllegalArgument))
                &&& (value_received > 0 && value_received < CROSS_MSG_FEE ==> (r matches Err(e)
                    && e is IllegalState))
                &&& (value_received >= CROSS_MSG_FEE && old(st)@.network_name.len() <= 1 ==> (r
                    matches Err(e) && e is IllegalArgument))
                &&& (value_received > 0 && value_received >= CROSS_MSG_FEE
                    && old(st)@.network_name.len() > 1 ==> {
                    &&& (r is Ok <==> crate::state::can_commit_bottomup(
                        old(st)@,
                        release_msg,
                        CROSS_MSG_FEE,
                        curr_epoch,
                    ))
                    &&& (r matches Ok(t) ==> {
                        &&& crate::state::committed_bottomup(
                            old(st)@,
                            final(st)@,
                            release_msg,
                            CROSS_MSG_FEE,
                            curr_epoch,
                        )
                        &&& t@ == plain_send(
                            BURNT_FUNDS_ACTOR,
                            (value_received - CROSS_MSG_FEE) as u128,
                        )
                    })
                })
                &&& (r is Err ==> final(st)@ == old(st)@)
            }),
            final(st)@.wf(),
    {
        if value_received == 0 {
            return Err(Error::IllegalArgument("no funds included in message"));
        }
        let mut value = value_received;
        match st.collect_cross_fee(&mut value, CROSS_MSG_FEE) {
            Ok(_) => (),
            Err(e) => {
                return Err(e);
            },
        }
        let msg = match StorableMsg::new_release_msg(&st.network_name, sig_addr, value, st.nonce) {
            Ok(m) => m,
            Err(e) => {
                return Err(e);
            },
        };
        let r_msg = CrossMsg { msg, wrapped: false };
        match st.commit_bottomup_msg(&r_msg, CROSS_MSG_FEE, curr_epoch) {
            Ok(_) => (),
            Err(e) => {
                return Err(e);
            },
        }
        let params: Vec<u8> = Vec::new();
        proof {
            assert(params@ =~= Seq::<u8>::empty());
        }
        Ok(Transfer { to: BURNT_FUNDS_ACTOR, method: METHOD_SEND, params, value })
    }

    /// Replace the validator membership as a whole.
    pub fn set_membership(st: &mut State, validator_set: ValidatorSet) -> (r: Result<(), Error>)
        requires
            old(st)@.wf(),
        ensures
            r is Ok,
            final(st)@ == (StateView { validators: final(st)@.validators, ..old(st)@ }),
            final(st)@.validators.validators == validator_set@,
            final(st)@.wf(),
    {
        st.set_membership(validator_set);
        Ok(())
    }
}

/// The transfer that executes a cross-message locally: the inner params for a
/// plain message, the whole encoded cross-message for a wrapped one.
pub open spec fn spec_dispatch(c: CrossMsgView, to: u64) -> TransferView {
    TransferView {
        to: to,
        method: c.msg.method,
        params: if c.wrapped {
            crate::codec::enc_cross_msg(c)
        } else {
            c.msg.params
        },
        value: c.msg.value,
    }
}

/// Build the transfer that executes `c` at the raw address `to`.
pub fn cross_msg_transfer(c: &CrossMsg, to: u64) -> (r: Transfer)
    ensures
        r@ == spec_dispatch(c@, to),
{
    let params: Vec<u8> = if c.wrapped {
        let mut buf: Vec<u8> = Vec::new();
        crate::codec::write_cross_msg(&mut buf, c);
        proof {
            assert(buf@ =~= crate::codec::enc_cross_msg(c@));
        }
        buf
    } else {
        let p = c.msg.params.clone();
        proof {
            assert(p@ =~= c.msg.params@);
        }
        p
    };
    Transfer { to, method: c.msg.method, params, value: c.msg.value }
}

/// The next applied bottom-up nonce once a message carrying `nonce` arrives:
/// the sentinel steps to zero, the successor advances, anything else stays.
pub open spec fn bu_next(applied: u64, nonce: u64) -> u64 {
    if applied == crate::MAX_NONCE && nonce == 0 {
        0u64
    } else if applied < crate::MAX_NONCE && nonce == applied + 1 {
        nonce
    } else {
        applied
    }
}

/// Whether a bottom-up message carrying `nonce` is acceptable now.
pub open spec fn bu_accepts(applied: u64, nonce: u64) -> bool {
    bu_next(applied, nonce) == nonce
}


/// What applying one validated cross-message does, as a function of the
/// state: None when the message must be refused; otherwise the next state
/// and the transfers dispatched here (one for a local execution, none for a
/// message staged in the postbox).
pub open spec fn spec_apply_step(pre: StateView, m: CrossMsgView, balance: u128) -> Option<
    (StateView, Seq<TransferView>),
> {
    let net = pre.network_name;
    let item = crate::state::PostBoxItemView {
        cross_msg: m,
        owners: Some(seq![m.msg.from.raw]),
    };
    let queued = StateView {
        postbox: crate::state::postbox_set(pre.postbox, item.spec_key(), item),
        ..pre
    };
    match spec_apply_type(m.msg, net) {
        HCMsgType::BottomUp => {
            if m.msg.to.subnet == net {
                if bu_accepts(pre.applied_bottomup_nonce, m.msg.nonce) {
                    Some(
                        (
                            StateView {
                                applied_bottomup_nonce: bu_next(
                                    pre.applied_bottomup_nonce,
                                    m.msg.nonce,
                                ),
                                ..pre
                            },
                            seq![spec_dispatch(m, m.msg.to.raw)],
                        ),
                    )
                } else {
                    None
                }
            } else {
                Some((queued, Seq::empty()))
            }
        },
        _ => {
            if balance < m.msg.value {
                None
            } else if m.msg.to.subnet == net {
                if pre.applied_topdown_nonce == m.msg.nonce && m.msg.nonce < u64::MAX {
                    Some(
                        (
                            StateView {
                                applied_topdown_nonce: (pre.applied_topdown_nonce + 1) as u64,
                                ..pre
                            },
                            seq![spec_dispatch(m, m.msg.to.raw)],
                        ),
                    )
                } else {
                    None
                }
            } else {
                Some((queued, Seq::empty()))
            }
        },
    }
}

/// What applying a list of validated cross-messages in order does: the final
/// state and the dispatched transfers in order, or None as soon as one
/// message must be refused.
pub open spec fn spec_apply_list(pre: StateView, msgs: Seq<CrossMsgView>, balance: u128) -> Option<
    (StateView, Seq<TransferView>),
>
    decreases msgs.len(),
{
    if msgs.len() == 0 {
        Some((pre, Seq::empty()))
    } else {
        match spec_apply_step(pre, msgs[0], balance) {
            None => None,
            Some((mid, ts)) => match spec_apply_list(mid, msgs.drop_first(), balance) {
                None => None,
                Some((post, rest)) => Some((post, ts + rest)),
            },
        }
    }
}


/// The cross-messages a validated message list stands for: each wrapped as a
/// plain, unwrapped cross-message.
pub open spec fn as_validated(l: Seq<MsgView>) -> Seq<CrossMsgView> {
    l.map_values(|m: MsgView| CrossMsgView { msg: m, wrapped: false })
}

/// One application step reads and writes only the network name, the postbox
/// and the two applied nonces; two states agreeing there step alike.
pub proof fn lemma_apply_step_frame(
    pre1: StateView,
    pre2: StateView,
    m: CrossMsgView,
    balance: u128,
)
    requires
        pre1.network_name == pre2.network_name,
        pre1.postbox == pre2.postbox,
        pre1.applied_bottomup_nonce == pre2.applied_bottomup_nonce,
        pre1.applied_topdown_nonce == pre2.applied_topdown_nonce,
    ensures
        spec_apply_step(pre1, m, balance) is Some <==> spec_apply_step(pre2, m, balance) is Some,
        spec_apply_step(pre1, m, balance) matches Some(p1) ==> ({
            let p2 = spec_apply_step(pre2, m, balance)->Some_0;
            &&& p1.1 == p2.1
            &&& p1.0.network_name == p2.0.network_name
            &&& p1.0.postbox == p2.0.postbox
            &&& p1.0.applied_bottomup_nonce == p2.0.applied_bottomup_nonce
            &&& p1.0.applied_topdown_nonce == p2.0.applied_topdown_nonce
        }),
{
}

/// Applying a whole list reads and writes only the network name, the postbox
/// and the two applied nonces; two states agreeing there apply alike.
pub proof fn lemma_apply_list_frame(
    pre1: StateView,
    pre2: StateView,
    msgs: Seq<CrossMsgView>,
    balance: u128,
)
    requires
        pre1.network_name == pre2.network_name,
        pre1.postbox == pre2.postbox,
        pre1.applied_bottomup_nonce == pre2.applied_bottomup_nonce,
        pre1.applied_topdown_nonce == pre2.applied_topdown_nonce,
    ensures
        spec_apply_list(pre1, msgs, balance) is Some <==> spec_apply_list(pre2, msgs, balance)
            is Some,
        spec_apply_list(pre1, msgs, balance) matches Some(p1) ==> ({
            let p2 = spec_apply_list(pre2, msgs, balance)->Some_0;
            &&& p1.1 == p2.1
            &&& p1.0.network_name == p2.0.network_name
            &&& p1.0.postbox == p2.0.postbox
            &&& p1.0.applied_bottomup_nonce == p2.0.applied_bottomup_nonce
            &&& p1.0.applied_topdown_nonce == p2.0.applied_topdown_nonce
        }),
    decreases msgs.len(),
{
    if msgs.len() == 0 {
    } else {
        lemma_apply_step_frame(pre1, pre2, msgs[0], balance);
        if spec_apply_step(pre1, msgs[0], balance) is Some {
            let m1 = spec_apply_step(pre1, msgs[0], balance)->Some_0.0;
            let m2 = spec_apply_step(pre2, msgs[0], balance)->Some_0.0;
            lemma_apply_list_frame(m1, m2, msgs.drop_first(), balance);
        }
    }
}

/// Has a bottom-up message climbed up to this network, the lowest common
/// ancestor of its endpoints, where it turns around and heads down?
pub open spec fn reached_lca(net: Seq<u64>, m: MsgView) -> bool {
    let sto = m.to.subnet;
    let sfrom = m.from.subnet;
    sto.subrange(0, crate::subnet_id::common_prefix_len(sto, sfrom) as int) == net
}


/// Whether a cross-message not destined here can be committed now.
pub open spec fn can_commit_cross(
    pre: StateView,
    m: CrossMsgView,
    fee: u128,
    curr_epoch: u64,
) -> bool {
    let net = pre.network_name;
    match spec_apply_type(m.msg, net) {
        HCMsgType::BottomUp => {
            if reached_lca(net, m.msg) {
                crate::state::can_commit_topdown(pre, m)
            } else {
                crate::state::can_commit_bottomup(pre, m, fee, curr_epoch)
            }
        },
        _ => pre.applied_topdown_nonce < u64::MAX && crate::state::can_commit_topdown(pre, m),
    }
}

/// What committing a cross-message not destined here does, together with the
/// burn flag and the top-down fee it reports.
pub open spec fn committed_cross(
    pre: StateView,
    post: StateView,
    m: CrossMsgView,
    fee: u128,
    curr_epoch: u64,
    do_burn: bool,
    top_down_fee: u128,
) -> bool {
    let net = pre.network_name;
    match spec_apply_type(m.msg, net) {
        HCMsgType::BottomUp => {
            if reached_lca(net, m.msg) {
                &&& crate::state::committed_topdown(pre, post, m)
                &&& do_burn == false
                &&& top_down_fee == fee
            } else {
                &&& crate::state::committed_bottomup(pre, post, m, fee, curr_epoch)
                &&& do_burn == (m.msg.value > 0)
                &&& top_down_fee == 0
            }
        },
        _ => {
            &&& crate::state::committed_topdown(
                StateView {
                    applied_topdown_nonce: (pre.applied_topdown_nonce + 1) as u64,
                    ..pre
                },
                post,
                m,
            )
            &&& do_burn == false
            &&& top_down_fee == fee
        },
    }
}

/// The transfers that follow a committed cross-message: burn the funds of a
/// bottom-up message still climbing, or reward the collected fee to the
/// next-hop child of a message heading down.
pub open spec fn side_effect_transfers(
    net: Seq<u64>,
    m: CrossMsgView,
    do_burn: bool,
    top_down_fee: u128,
) -> Seq<TransferView> {
    if do_burn {
        seq![plain_send(BURNT_FUNDS_ACTOR, m.msg.value)]
    } else if top_down_fee > 0 {
        seq![
            fee_reward(m.msg.to.subnet.subrange(0, net.len() as int + 1).last(), top_down_fee),
        ]
    } else {
        Seq::empty()
    }
}

impl Actor {
    /// Commit a cross-message to storage: a bottom-up message that reached
    /// the common ancestor turns top-down, any other bottom-up message joins
    /// the window checkpoint, and a top-down message moves on down. Returns
    /// whether funds must be burnt and the top-down fee to distribute.
    pub fn commit_cross_message(st: &mut State, cross_msg: CrossMsg, fee: u128, curr_epoch: u64)
        -> (r: Result<(bool, u128), Error>)
        requires
            old(st)@.wf(),
        ensures
            ({
                let net = old(st)@.network_name;
                let m = cross_msg@;
                &&& (r matches Err(e) ==> final(st)@ == old(st)@ && (e is IllegalArgument || e
                    is IllegalState))
                &&& (m.msg.to.subnet == net ==> (r matches Err(e) && e is IllegalState))
                &&& (m.msg.to.subnet != net ==> {
                    &&& (r is Ok <==> can_commit_cross(old(st)@, m, fee, curr_epoch))
                    &&& (r matches Ok(p) ==> committed_cross(
                        old(st)@,
                        final(st)@,
                        m,
                        fee,
                        curr_epoch,
                        p.0,
                        p.1,
                    ))
                })
            }),
            final(st)@.wf(),
    {
        let sto = match cross_msg.msg.to.subnet() {
            Ok(s) => s,
            Err(e) => {
                return Err(e);
            },
        };
        if &sto == &st.network_name {
            return Err(Error::IllegalState("should already be committed"));
        }
        let ty = match cross_msg.msg.apply_type(&st.network_name) {
            Ok(t) => t,
            Err(e) => {
                return Err(e);
            },
        };
        match ty {
            HCMsgType::BottomUp => {
                let sfrom = match cross_msg.msg.from.subnet() {
                    Ok(s) => s,
                    Err(e) => {
                        return Err(e);
                    },
                };
                let ncp = match sto.common_parent(&sfrom) {
                    Some((_, p)) => p,
                    None => {
                        proof {
                            crate::subnet_id::lemma_common_prefix_len_symmetric(sfrom@, sto@);
                            assert(false);
                        }
                        return Err(Error::IllegalArgument("no common parent"));
                    },
                };
                if &ncp == &st.network_name {
                    match st.commit_topdown_msg(cross_msg) {
                        Ok(_) => Ok((false, fee)),
                        Err(e) => Err(e),
                    }
                } else {
                    let do_burn = cross_msg.msg.value > 0;
                    match st.commit_bottomup_msg(&cross_msg, fee, curr_epoch) {
                        Ok(_) => Ok((do_burn, 0)),
                        Err(e) => Err(e),
                    }
                }
            },
            _ => {
                if st.applied_topdown_nonce == u64::MAX {
                    return Err(Error::IllegalState("applied top-down nonce exhausted"));
                }
                let ghost m = cross_msg@;
                match st.commit_topdown_msg(cross_msg) {
                    Ok(_) => (),
                    Err(e) => {
                        return Err(e);
                    },
                }
                let ghost mid = st@;
                st.applied_topdown_nonce = st.applied_topdown_nonce + 1;
                proof {
                    let net = old(st)@.network_name;
                    let sto = m.msg.to.subnet;
                    let child = sto.subrange(0, net.len() as int + 1);
                    let pre2 = StateView {
                        applied_topdown_nonce: (old(st)@.applied_topdown_nonce + 1) as u64,
                        ..old(st)@
                    };
                    let k = choose|k: int|
                        {
                            &&& 0 <= k < old(st)@.subnets.len()
                            &&& old(st)@.subnets[k].id == child
                            &&& mid == (StateView {
                                subnets: old(st)@.subnets.update(
                                    k,
                                    SubnetView {
                                        top_down_msgs: old(st)@.subnets[k].top_down_msgs.push(
                                            CrossMsgView {
                                                msg: MsgView {
                                                    nonce: old(st)@.subnets[k].topdown_nonce,
                                                    ..m.msg
                                                },
                                                wrapped: m.wrapped,
                                            },
                                        ),
                                        topdown_nonce: (old(st)@.subnets[k].topdown_nonce + 1)
                                            as u64,
                                        circ_supply: (old(st)@.subnets[k].circ_supply
                                            + m.msg.value) as u128,
                                        ..old(st)@.subnets[k]
                                    },
                                ),
                                ..old(st)@
                            })
                        };
                    let updated = SubnetView {
                        top_down_msgs: pre2.subnets[k].top_down_msgs.push(
                            CrossMsgView {
                                msg: MsgView { nonce: pre2.subnets[k].topdown_nonce, ..m.msg },
                                wrapped: m.wrapped,
                            },
                        ),
                        topdown_nonce: (pre2.subnets[k].topdown_nonce + 1) as u64,
                        circ_supply: (pre2.subnets[k].circ_supply + m.msg.value) as u128,
                        ..pre2.subnets[k]
                    };
                    assert(st@ =~= (StateView { subnets: pre2.subnets.update(k, updated), ..pre2 }));
                    assert(crate::state::committed_topdown(pre2, st@, m)) by {
                        assert(0 <= k < pre2.subnets.len() && pre2.subnets[k].id == child && st@
                            == (StateView { subnets: pre2.subnets.update(k, updated), ..pre2 }));
                    }
                }
                Ok((false, fee))
            },
        }
    }
}

/// What applying a validated cross-message yields: a transfer executing it
/// locally, or the postbox key it now waits under for further propagation.
pub enum ApplyOutcome {
    Dispatched(Transfer),
    Queued(Vec<u8>),
}

impl Actor {
    /// Apply a cross-message once consensus validated it: a message for this
    /// very subnet is executed in nonce order; a message for somewhere else
    /// is staged in the postbox, owned by the sender's raw address. Minting a
    /// top-down value needs that much balance in the gateway.
    pub fn apply_msg(st: &mut State, cross_msg: CrossMsg, current_balance: u128) -> (r: Result<
        ApplyOutcome,
        Error,
    >)
        requires
            old(st)@.wf(),
        ensures
            ({
                let net = old(st)@.network_name;
                let m = cross_msg@;
                let queued_item = crate::state::PostBoxItemView {
                    cross_msg: m,
                    owners: Some(seq![m.msg.from.raw]),
                };
                &&& (r matches Err(e) ==> final(st)@ == old(st)@ && e is IllegalState)
                &&& (match spec_apply_type(m.msg, net) {
                    HCMsgType::BottomUp => {
                        &&& (m.msg.to.subnet == net ==> {
                            &&& (bu_accepts(old(st)@.applied_bottomup_nonce, m.msg.nonce) <==> r
                                is Ok)
                            &&& (r matches Ok(o) ==> o matches ApplyOutcome::Dispatched(t) && t@
                                == spec_dispatch(m, m.msg.to.raw) && final(st)@ == (StateView {
                                applied_bottomup_nonce: bu_next(
                                    old(st)@.applied_bottomup_nonce,
                                    m.msg.nonce,
                                ),
                                ..old(st)@
                            }))
                        })
                        &&& (m.msg.to.subnet != net ==> (r matches Ok(o) && o
                            matches ApplyOutcome::Queued(key) && crate::state::inserted_postbox(
                            old(st)@,
                            final(st)@,
                            key@,
                            queued_item,
                        )))
                    },
                    _ => {
                        &&& (current_balance < m.msg.value ==> (r matches Err(e) && e
                            is IllegalState))
                        &&& (current_balance >= m.msg.value && m.msg.to.subnet == net ==> {
                            &&& (old(st)@.applied_topdown_nonce == m.msg.nonce && m.msg.nonce
                                < u64::MAX <==> r is Ok)
                            &&& (r matches Ok(o) ==> o matches ApplyOutcome::Dispatched(t) && t@
                                == spec_dispatch(m, m.msg.to.raw) && final(st)@ == (StateView {
                                applied_topdown_nonce: (old(st)@.applied_topdown_nonce + 1) as u64,
                                ..old(st)@
                            }))
                        })
                        &&& (current_balance >= m.msg.value && m.msg.to.subnet != net ==> (r
                            matches Ok(o) && o matches ApplyOutcome::Queued(key)
                            && crate::state::inserted_postbox(
                            old(st)@,
                            final(st)@,
                            key@,
                            queued_item,
                        )))
                    },
                })
            }),
            r is Ok <==> spec_apply_step(old(st)@, cross_msg@, current_balance) is Some,
            r matches Ok(o) ==> ({
                let step = spec_apply_step(old(st)@, cross_msg@, current_balance)->Some_0;
                &&& final(st)@ == step.0
                &&& (match o {
                    ApplyOutcome::Dispatched(t) => step.1 == seq![t@],
                    ApplyOutcome::Queued(_) => step.1 == Seq::<TransferView>::empty(),
                })
            }),
            final(st)@.wf(),
    {
        let rto = match cross_msg.msg.to.raw_addr() {
            Ok(a) => a,
            Err(e) => {
                return Err(Error::IllegalState("error getting raw address from msg"));
            },
        };
        let sto = match cross_msg.msg.to.subnet() {
            Ok(s) => s,
            Err(e) => {
                return Err(Error::IllegalState("error getting subnet from msg"));
            },
        };
        let ty = match cross_msg.msg.apply_type(&st.network_name) {
            Ok(t) => t,
            Err(e) => {
                return Err(Error::IllegalState("cross-message to apply doesn't have the right type"));
            },
        };
        match ty {
            HCMsgType::BottomUp => {
                if &sto == &st.network_name {
                    match st.bottomup_state_transition(&cross_msg.msg) {
                        Ok(_) => (),
                        Err(e) => {
                            return Err(e);
                        },
                    }
                    let t = cross_msg_transfer(&cross_msg, rto);
                    return Ok(ApplyOutcome::Dispatched(t));
                }
            },
            _ => {
                if current_balance < cross_msg.msg.value {
                    return Err(Error::IllegalState(
                        "not enough balance to mint new tokens as part of the cross-message",
                    ));
                }
                if &sto == &st.network_name {
                    if st.applied_topdown_nonce != cross_msg.msg.nonce {
                        return Err(Error::IllegalState(
                            "the top-down message being applied doesn't hold the subsequent nonce",
                        ));
                    }
                    if st.applied_topdown_nonce == u64::MAX {
                        return Err(Error::IllegalState("applied top-down nonce exhausted"));
                    }
                    st.applied_topdown_nonce = st.applied_topdown_nonce + 1;
                    proof {
                        assert(st@ =~= (StateView {
                            applied_topdown_nonce: st@.applied_topdown_nonce,
                            ..old(st)@
                        }));
                    }
                    let t = cross_msg_transfer(&cross_msg, rto);
                    return Ok(ApplyOutcome::Dispatched(t));
                }
            },
        }
        let owner = match cross_msg.msg.from.raw_addr() {
            Ok(a) => a,
            Err(e) => {
                return Err(Error::IllegalState("invalid address"));
            },
        };
        let mut owners: Vec<u64> = Vec::new();
        owners.push(owner);
        proof {
            assert(owners@ =~= seq![cross_msg@.msg.from.raw]);
        }
        let ghost m = cross_msg@;
        match st.insert_postbox(Some(owners), cross_msg) {
            Ok(key) => {
                proof {
                    let item = crate::state::PostBoxItemView {
                        cross_msg: m,
                        owners: Some(seq![m.msg.from.raw]),
                    };
                    assert(crate::state::inserted_postbox(old(st)@, st@, key@, item));
                    assert(key@ == item.spec_key());
                    crate::state::lemma_inserted_postbox_functional(old(st)@, st@, key@, item);
                }
                Ok(ApplyOutcome::Queued(key))
            },
            Err(e) => {
                proof {
                    assert(false);
                }
                Err(e)
            },
        }
    }
}

impl Actor {
    /// Build the side-effect transfers for a committed cross-message.
    fn side_effects(st: &State, m: &CrossMsg, do_burn: bool, top_down_fee: u128) -> (r: Vec<
        Transfer,
    >)
        requires
            !do_burn && top_down_fee > 0 ==> st@.network_name.len() < m@.msg.to.subnet.len(),
        ensures
            r@.map_values(|t: Transfer| t@) == side_effect_transfers(
                st@.network_name,
                m@,
                do_burn,
                top_down_fee,
            ),
    {
        let mut ts: Vec<Transfer> = Vec::new();
        if do_burn {
            let params: Vec<u8> = Vec::new();
            proof {
                assert(params@ =~= Seq::<u8>::empty());
            }
            ts.push(Transfer {
                to: BURNT_FUNDS_ACTOR,
                method: METHOD_SEND,
                params,
                value: m.msg.value,
            });
            proof {
                assert(ts@.map_values(|t: Transfer| t@) =~= side_effect_transfers(
                    st@.network_name,
                    m@,
                    do_burn,
                    top_down_fee,
                ));
            }
        } else if top_down_fee > 0 {
            let sto = m.msg.to.subnet_ref();
            let route = sto.route();
            let child_actor = route[st.network_name.len()];
            let params: Vec<u8> = Vec::new();
            proof {
                assert(params@ =~= Seq::<u8>::empty());
                assert(child_actor == m@.msg.to.subnet.subrange(
                    0,
                    st@.network_name.len() as int + 1,
                ).last());
            }
            ts.push(Transfer {
                to: child_actor,
                method: SUBNET_ACTOR_REWARD_METHOD,
                params,
                value: top_down_fee,
            });
            proof {
                assert(ts@.map_values(|t: Transfer| t@) =~= side_effect_transfers(
                    st@.network_name,
                    m@,
                    do_burn,
                    top_down_fee,
                ));
            }
        } else {
            proof {
                assert(ts@.map_values(|t: Transfer| t@) =~= side_effect_transfers(
                    st@.network_name,
                    m@,
                    do_burn,
                    top_down_fee,
                ));
            }
        }
        ts
    }

    /// Send an arbitrary cross-message to another subnet. The sender is fixed
    /// to the caller's address here; the value sent must equal the message's
    /// value, the fee comes out of it, and the message is committed in the
    /// direction its endpoints demand.
    pub fn send_cross(
        st: &mut State,
        caller: u64,
        cross_msg: CrossMsg,
        destination: &SubnetID,
        value_received: u128,
        curr_epoch: u64,
    ) -> (r: Result<Vec<Transfer>, Error>)
        requires
            old(st)@.wf(),
        ensures
            ({
                let net = old(st)@.network_name;
                let m2 = CrossMsgView {
                    msg: MsgView {
                        from: crate::address::AddrView { subnet: net, raw: caller },
                        to: crate::address::AddrView {
                            subnet: destination@,
                            raw: cross_msg@.msg.to.raw,
                        },
                        value: (cross_msg@.msg.value - CROSS_MSG_FEE) as u128,
                        ..cross_msg@.msg
                    },
                    wrapped: cross_msg@.wrapped,
                };
                &&& (r matches Err(e) ==> final(st)@ == old(st)@ && (e is IllegalArgument || e
                    is IllegalState))
                &&& (destination@.len() == 0 ==> (r matches Err(e) && e is IllegalArgument))
                &&& (destination@.len() > 0 && destination@ == net ==> (r matches Err(e) && e
                    is IllegalArgument))
                &&& (destination@.len() > 0 && destination@ != net && value_received
                    != cross_msg@.msg.value ==> (r matches Err(e) && e is IllegalArgument))
                &&& (destination@.len() > 0 && destination@ != net && value_received
                    == cross_msg@.msg.value && value_received < CROSS_MSG_FEE ==> (r matches Err(
                    e,
                ) && e is IllegalState))
                &&& (destination@.len() > 0 && destination@ != net && value_received
                    == cross_msg@.msg.value && value_received >= CROSS_MSG_FEE ==> {
                    &&& (r is Ok <==> can_commit_cross(old(st)@, m2, CROSS_MSG_FEE, curr_epoch))
                    &&& (r matches Ok(ts) ==> exists|do_burn: bool, tdf: u128|
                        {
                            &&& committed_cross(
                                old(st)@,
                                final(st)@,
                                m2,
                                CROSS_MSG_FEE,
                                curr_epoch,
                                do_burn,
                                tdf,
                            )
                            &&& ts@.map_values(|t: Transfer| t@) == side_effect_transfers(
                                net,
                                m2,
                                do_burn,
                                tdf,
                            )
                        })
                })
            }),
            final(st)@.wf(),
    {
        if destination.len() == 0 {
            return Err(Error::IllegalArgument("no destination for cross-message explicitly set"));
        }
        if destination == &st.network_name {
            return Err(Error::IllegalArgument(
                "destination is the current network, no cross-message is needed",
            ));
        }
        let mut cross_msg = cross_msg;
        let to_raw = match cross_msg.msg.to.raw_addr() {
            Ok(a) => a,
            Err(_) => {
                return Err(Error::IllegalArgument("invalid to addr"));
            },
        };
        let to = match IPCAddress::new(destination, to_raw) {
            Ok(a) => a,
            Err(_) => {
                return Err(Error::IllegalArgument(
                    "error setting IPC address in cross-msg to param",
                ));
            },
        };
        let from = match IPCAddress::new(&st.network_name, caller) {
            Ok(a) => a,
            Err(_) => {
                return Err(Error::IllegalArgument(
                    "error setting IPC address in cross-msg from param",
                ));
            },
        };
        cross_msg.msg.to = to;
        cross_msg.msg.from = from;
        if value_received != cross_msg.msg.value {
            return Err(Error::IllegalArgument(
                "the funds in cross-msg params are not equal to the ones sent in the message",
            ));
        }
        let mut value = cross_msg.msg.value;
        match st.collect_cross_fee(&mut value, CROSS_MSG_FEE) {
            Ok(_) => (),
            Err(e) => {
                return Err(e);
            },
        }
        cross_msg.msg.value = value;
        let ghost m2 = cross_msg@;
        let msg_copy = cross_msg.clone();
        let (do_burn, top_down_fee) = match Self::commit_cross_message(
            st,
            cross_msg,
            CROSS_MSG_FEE,
            curr_epoch,
        ) {
            Ok(p) => p,
            Err(e) => {
                return Err(e);
            },
        };
        proof {
            lemma_committed_cross_shape(old(st)@, st@, m2, CROSS_MSG_FEE, curr_epoch, do_burn,
                top_down_fee);
            if !do_burn && top_down_fee > 0 {
                assert(can_commit_cross(old(st)@, m2, CROSS_MSG_FEE, curr_epoch));
                if spec_apply_type(m2.msg, old(st)@.network_name) is BottomUp {
                    assert(reached_lca(old(st)@.network_name, m2.msg));
                    assert(crate::state::can_commit_topdown(old(st)@, m2));
                } else {
                    assert(crate::state::can_commit_topdown(old(st)@, m2));
                }
            }
        }
        let ts = Self::side_effects(st, &msg_copy, do_burn, top_down_fee);
        Ok(ts)
    }
}

/// A commitment never renames the network.
proof fn lemma_committed_cross_shape(
    pre: StateView,
    post: StateView,
    m: CrossMsgView,
    fee: u128,
    curr_epoch: u64,
    do_burn: bool,
    tdf: u128,
)
    requires
        committed_cross(pre, post, m, fee, curr_epoch, do_burn, tdf),
    ensures
        post.network_name == pre.network_name,
{
    let net = pre.network_name;
    match spec_apply_type(m.msg, net) {
        HCMsgType::BottomUp => {
            if reached_lca(net, m.msg) {
                lemma_committed_topdown_shape(pre, post, m);
            }
        },
        _ => {
            let pre2 = StateView {
                applied_topdown_nonce: (pre.applied_topdown_nonce + 1) as u64,
                ..pre
            };
            lemma_committed_topdown_shape(pre2, post, m);
        },
    }
}

/// Committing a top-down message leaves every field but the subnets alone.
proof fn lemma_committed_topdown_shape(pre: StateView, post: StateView, m: CrossMsgView)
    requires
        crate::state::committed_topdown(pre, post, m),
    ensures
        post.network_name == pre.network_name,
{
    let net = pre.network_name;
    let sto = m.msg.to.subnet;
    let child = sto.subrange(0, net.len() as int + 1);
    let k = choose|k: int|
        {
            &&& 0 <= k < pre.subnets.len()
            &&& pre.subnets[k].id == child
            &&& post == (StateView {
                subnets: pre.subnets.update(
                    k,
                    crate::subnet::SubnetView {
                        top_down_msgs: pre.subnets[k].top_down_msgs.push(
                            CrossMsgView {
                                msg: MsgView { nonce: pre.subnets[k].topdown_nonce, ..m.msg },
                                wrapped: m.wrapped,
                            },
                        ),
                        topdown_nonce: (pre.subnets[k].topdown_nonce + 1) as u64,
                        circ_supply: (pre.subnets[k].circ_supply + m.msg.value) as u128,
                        ..pre.subnets[k]
                    },
                ),
                ..pre
            })
        };
}

impl Actor {
    /// Propagate a staged cross-message: the caller must be an owner (or the
    /// item public), pays the fee from the value sent, the message is
    /// committed onward, the slot is freed, and any remaining value returns
    /// to the caller.
    pub fn propagate(
        st: &mut State,
        caller: u64,
        postbox_cid: &Vec<u8>,
        value_received: u128,
        curr_epoch: u64,
    ) -> (r: Result<Vec<Transfer>, Error>)
        requires
            old(st)@.wf(),
        ensures
            ({
                let net = old(st)@.network_name;
                &&& (r matches Err(e) ==> final(st)@ == old(st)@ && (e is IllegalArgument || e
                    is IllegalState || e is NotFound))
                &&& (match crate::state::postbox_of(old(st)@.postbox, postbox_cid@) {
                    None => r matches Err(e) && e is NotFound,
                    Some(item) => {
                        let m = item.cross_msg;
                        let allowed = match item.owners {
                            Some(os) => os.contains(caller),
                            None => true,
                        };
                        &&& (!allowed ==> (r matches Err(e) && e is IllegalState))
                        &&& (allowed && value_received < CROSS_MSG_FEE ==> (r matches Err(e) && e
                            is IllegalState))
                        &&& (allowed && value_received >= CROSS_MSG_FEE ==> {
                            &&& (m.msg.to.subnet == net ==> (r matches Err(e) && e
                                is IllegalState))
                            &&& (m.msg.to.subnet != net ==> {
                                &&& (r is Ok <==> can_commit_cross(
                                    old(st)@,
                                    m,
                                    CROSS_MSG_FEE,
                                    curr_epoch,
                                ))
                                &&& (r matches Ok(ts) ==> exists|mid: StateView, do_burn: bool, tdf: u128|
                                    {
                                        &&& committed_cross(
                                            old(st)@,
                                            mid,
                                            m,
                                            CROSS_MSG_FEE,
                                            curr_epoch,
                                            do_burn,
                                            tdf,
                                        )
                                        &&& (crate::state::postbox_of(mid.postbox, postbox_cid@)
                                            is None ==> final(st)@ == mid)
                                        &&& (crate::state::postbox_of(mid.postbox, postbox_cid@)
                                            is Some ==> exists|k: int|
                                            {
                                                &&& 0 <= k < mid.postbox.len()
                                                &&& mid.postbox[k].key == postbox_cid@
                                                &&& final(st)@ == (StateView {
                                                    postbox: mid.postbox.remove(k),
                                                    ..mid
                                                })
                                            })
                                        &&& ts@.map_values(|t: Transfer| t@)
                                            == side_effect_transfers(net, m, do_burn, tdf)
                                            + (if value_received - CROSS_MSG_FEE > 0 {
                                            seq![
                                                plain_send(
                                                    caller,
                                                    (value_received - CROSS_MSG_FEE) as u128,
                                                ),
                                            ]
                                        } else {
                                            Seq::<TransferView>::empty()
                                        })
                                    })
                            })
                        })
                    },
                })
            }),
            final(st)@.wf(),
    {
        let item = match st.load_from_postbox(postbox_cid) {
            Ok(it) => it,
            Err(e) => {
                return Err(e);
            },
        };
        match &item.owners {
            Some(os) => {
                let mut found = false;
                let mut i: usize = 0;
                while i < os.len()
                    invariant
                        i <= os.len(),
                        found <==> exists|j: int| 0 <= j < i && os@[j] == caller,
                    decreases os.len() - i,
                {
                    if os[i] == caller {
                        found = true;
                    }
                    i = i + 1;
                }
                proof {
                    if found {
                        assert(os@.contains(caller));
                    } else {
                        if os@.contains(caller) {
                            let j = choose|j: int| 0 <= j < os@.len() && os@[j] == caller;
                            assert(false);
                        }
                    }
                }
                if !found {
                    return Err(Error::IllegalState("owner not match"));
                }
            },
            None => (),
        }
        let mut value = value_received;
        match st.collect_cross_fee(&mut value, CROSS_MSG_FEE) {
            Ok(_) => (),
            Err(e) => {
                return Err(e);
            },
        }
        let msg_copy = item.cross_msg.clone();
        let ghost m = item.cross_msg@;
        let (do_burn, top_down_fee) = match Self::commit_cross_message(
            st,
            item.cross_msg,
            CROSS_MSG_FEE,
            curr_epoch,
        ) {
            Ok(p) => p,
            Err(e) => {
                return Err(e);
            },
        };
        let ghost mid = st@;
        match st.remove_from_postbox(postbox_cid) {
            Ok(_) => (),
            Err(_) => {
                proof {
                    assert(false);
                }
            },
        }
        proof {
            lemma_committed_cross_shape(old(st)@, mid, m, CROSS_MSG_FEE, curr_epoch, do_burn,
                top_down_fee);
            if !do_burn && top_down_fee > 0 {
                if spec_apply_type(m.msg, old(st)@.network_name) is BottomUp {
                    assert(crate::state::can_commit_topdown(old(st)@, m));
                } else {
                    assert(crate::state::can_commit_topdown(old(st)@, m));
                }
            }
        }
        let mut ts = Self::side_effects(st, &msg_copy, do_burn, top_down_fee);
        let ghost base = ts@.map_values(|t: Transfer| t@);
        if value > 0 {
            let params: Vec<u8> = Vec::new();
            proof {
                assert(params@ =~= Seq::<u8>::empty());
            }
            ts.push(Transfer { to: caller, method: METHOD_SEND, params, value });
            proof {
                assert(ts@.map_values(|t: Transfer| t@) =~= base + seq![
                    plain_send(caller, value),
                ]);
            }
        } else {
            proof {
                assert(ts@.map_values(|t: Transfer| t@) =~= base + Seq::<TransferView>::empty());
            }
        }
        Ok(ts)
    }

    /// Extend the owner list of a staged cross-message. Only an existing
    /// owner may do so, and an item without owners takes none.
    pub fn whitelist_propagator(
        st: &mut State,
        caller: u64,
        postbox_cid: &Vec<u8>,
        to_add: Vec<u64>,
    ) -> (r: Result<(), Error>)
        requires
            old(st)@.wf(),
        ensures
            ({
                &&& (r matches Err(e) ==> final(st)@ == old(st)@ && (e is IllegalState || e
                    is NotFound))
                &&& (match crate::state::postbox_of(old(st)@.postbox, postbox_cid@) {
                    None => r matches Err(e) && e is NotFound,
                    Some(item) => {
                        match item.owners {
                            None => r matches Err(e) && e is IllegalState,
                            Some(os) => {
                                &&& (!os.contains(caller) ==> (r matches Err(e) && e
                                    is IllegalState))
                                &&& (os.contains(caller) ==> r is Ok && ({
                                    let item2 = crate::state::PostBoxItemView {
                                        cross_msg: item.cross_msg,
                                        owners: Some(os + to_add@),
                                    };
                                    &&& crate::state::postbox_of(
                                        final(st)@.postbox,
                                        item2.spec_key(),
                                    ) == Some(item2)
                                    &&& final(st)@ == (StateView {
                                        postbox: final(st)@.postbox,
                                        ..old(st)@
                                    })
                                }))
                            },
                        }
                    },
                })
            }),
            final(st)@.wf(),
    {
        let mut item = match st.load_from_postbox(postbox_cid) {
            Ok(it) => it,
            Err(e) => {
                return Err(e);
            },
        };
        let ghost item0 = item@;
        let ghost added_input = to_add@;
        match &mut item.owners {
            None => {
                return Err(Error::IllegalState("postbox item cannot add owner for now"));
            },
            Some(os) => {
                let mut found = false;
                let mut i: usize = 0;
                while i < os.len()
                    invariant
                        i <= os.len(),
                        os@ == item0.owners->Some_0,
                        found <==> exists|j: int| 0 <= j < i && os@[j] == caller,
                    decreases os.len() - i,
                {
                    if os[i] == caller {
                        found = true;
                    }
                    i = i + 1;
                }
                proof {
                    if found {
                        assert(item0.owners->Some_0.contains(caller));
                    } else {
                        if item0.owners->Some_0.contains(caller) {
                            let j = choose|j: int|
                                0 <= j < os@.len() && os@[j] == caller;
                            assert(false);
                        }
                    }
                }
                if !found {
                    return Err(Error::IllegalState("not owner"));
                }
                let mut to_add = to_add;
                let ghost added = to_add@;
                os.append(&mut to_add);
                proof {
                    assert(os@ =~= item0.owners->Some_0 + added);
                }
            },
        }
        proof {
            assert(item@ == (crate::state::PostBoxItemView {
                cross_msg: item0.cross_msg,
                owners: Some(item0.owners->Some_0 + added_input),
            }));
        }
        match st.swap_postbox_item(postbox_cid, item) {
            Ok(_) => Ok(()),
            Err(_) => {
                proof {
                    assert(false);
                }
                Err(Error::NotFound("cid not found in postbox"))
            },
        }
    }
}


/// What one recorded cron vote does to the state. The stored tally for the
/// checkpoint's epoch reflects the vote; when the vote brings consensus for
/// the next epoch in order the watermark advances and the tally is deleted;
/// a consensus that must wait is queued; an aborted round is reset with its
/// stored checkpoints kept. Only the postbox and the applied nonces may move
/// besides, through the application of the winning messages.
pub open spec fn cron_vote_state_effect(
    pre: StateView,
    post: StateView,
    submitter: u64,
    weight: u64,
    c: crate::cron::CronCheckpointView,
) -> bool {
    let epoch = c.epoch;
    let s0 = match crate::state::cron_submission_of(pre.cron_submissions, epoch) {
        Some(sv) => sv,
        None => crate::cron::empty_tally(),
    };
    let d = crate::cron::cron_digest(c);
    let status = crate::cron::spec_execution_status(
        pre.validators.total_weight as int,
        s0.total + weight,
        crate::cron::next_leader_weight(s0, d, weight),
    );
    let in_order = pre.last_cron_executed_epoch <= u64::MAX - pre.cron_period
        && pre.last_cron_executed_epoch + pre.cron_period == epoch && (pre.queue_or_empty().len()
        == 0 || pre.queue_or_empty()[0] >= epoch);
    &&& (status != VoteExecutionStatus::ConsensusReached ==> post == (StateView {
        cron_submissions: post.cron_submissions,
        ..pre
    }) && (match crate::state::cron_submission_of(post.cron_submissions, epoch) {
        Some(sv) => if status is RoundAbort {
            sv == (crate::cron::CronSubmissionView {
                total: 0u128,
                most_voted: None::<Seq<u8>>,
                submitters: Seq::<u64>::empty(),
                counts: Seq::<crate::cron::CountView>::empty(),
                submissions: crate::cron::next_submissions(s0, d, c),
            })
        } else {
            crate::cron::vote_recorded(s0, sv, submitter, weight, c)
        },
        None => false,
    }))
    &&& (status == VoteExecutionStatus::ConsensusReached && !in_order ==> post == (StateView {
        cron_submissions: post.cron_submissions,
        executable_epoch_queue: post.executable_epoch_queue,
        ..pre
    }) && (match crate::state::cron_submission_of(post.cron_submissions, epoch) {
        Some(sv) => crate::cron::vote_recorded(s0, sv, submitter, weight, c),
        None => false,
    }) && post.queue_or_empty().contains(epoch))
    &&& (status == VoteExecutionStatus::ConsensusReached && in_order ==> {
        &&& post.last_cron_executed_epoch == epoch
        &&& crate::state::cron_submission_of(post.cron_submissions, epoch) is None
        &&& !post.queue_or_empty().contains(epoch)
        &&& post == (StateView {
            last_cron_executed_epoch: epoch,
            executable_epoch_queue: post.executable_epoch_queue,
            cron_submissions: post.cron_submissions,
            postbox: post.postbox,
            applied_bottomup_nonce: post.applied_bottomup_nonce,
            applied_topdown_nonce: post.applied_topdown_nonce,
            ..pre
        })
    })
}

impl Actor {
    /// The voting weight of `submitter` for `epoch`: the epoch must lie on
    /// the cron grid after the genesis, must not be executed yet, and the
    /// submitter must be a validator.
    pub fn validate_submitter(st: &State, epoch: u64, submitter: u64) -> (r: Result<u64, Error>)
        requires
            st@.wf(),
        ensures
            epoch < st@.genesis_epoch || (epoch - st@.genesis_epoch) as int % (
            st@.cron_period as int) != 0 ==> (r matches Err(e) && e is IllegalArgument),
            epoch >= st@.genesis_epoch && (epoch - st@.genesis_epoch) as int % (
            st@.cron_period as int) == 0 ==> {
                &&& (st@.last_cron_executed_epoch >= epoch ==> (r matches Err(e) && e
                    is IllegalArgument))
                &&& (st@.last_cron_executed_epoch < epoch ==> (match weight_of(
                    st@.validators.validators.validators,
                    submitter,
                ) {
                    Some(w) => r matches Ok(rw) && rw == w,
                    None => r matches Err(e) && e is IllegalArgument,
                }))
            },
    {
        if epoch < st.genesis_epoch {
            return Err(Error::IllegalArgument("epoch not allowed"));
        }
        if (epoch - st.genesis_epoch) % st.cron_period != 0 {
            return Err(Error::IllegalArgument("epoch not allowed"));
        }
        if st.last_cron_executed_epoch >= epoch {
            return Err(Error::IllegalArgument("epoch already executed"));
        }
        match st.validators.get_validator_weight(submitter) {
            Some(w) => Ok(w),
            None => Err(Error::IllegalArgument("caller not validator")),
        }
    }

    /// Record one cron vote and act on the tally: persist the vote, and when
    /// the vote brings consensus for the epoch right after the last executed
    /// one, advance the watermark and hand back the voted messages; a
    /// consensus that must wait is queued instead.
    #[verifier::rlimit(100)]
    #[verifier::spinoff_prover]
    fn handle_cron_submission(
        st: &mut State,
        checkpoint: &CronCheckpoint,
        submitter: u64,
        submitter_weight: u64,
    ) -> (r: Result<Option<Vec<StorableMsg>>, Error>)
        requires
            old(st)@.wf(),
            old(st)@.last_cron_executed_epoch < checkpoint@.epoch,
        ensures
            ({
                let epoch = checkpoint@.epoch;
                let s0 = match crate::state::cron_submission_of(
                    old(st)@.cron_submissions,
                    epoch,
                ) {
                    Some(s) => s,
                    None => crate::cron::empty_tally(),
                };
                let already = s0.submitters.contains(submitter);
                let sorted = crate::cron::nonces_ascending(checkpoint@.top_down_msgs);
                &&& (r is Err <==> already || !sorted)
                &&& (r matches Err(e) ==> e is IllegalArgument && final(st)@ == old(st)@)
                &&& (r matches Ok(o) ==> ({
                    let d = crate::cron::cron_digest(checkpoint@);
                    let status = crate::cron::spec_execution_status(
                        old(st)@.validators.total_weight as int,
                        s0.total + submitter_weight,
                        crate::cron::next_leader_weight(s0, d, submitter_weight),
                    );
                    let in_order = old(st)@.last_cron_executed_epoch
                        <= u64::MAX - old(st)@.cron_period
                        && old(st)@.last_cron_executed_epoch + old(st)@.cron_period == epoch
                        && (old(st)@.queue_or_empty().len() == 0
                        || old(st)@.queue_or_empty()[0] >= epoch);
                    &&& (status != VoteExecutionStatus::ConsensusReached ==> o is None
                        && final(st)@ == (StateView {
                        cron_submissions: final(st)@.cron_submissions,
                        ..old(st)@
                    }) && (match crate::state::cron_submission_of(
                        final(st)@.cron_submissions,
                        epoch,
                    ) {
                        Some(sv) => if status is RoundAbort {
                            sv == (crate::cron::CronSubmissionView {
                                total: 0u128,
                                most_voted: None::<Seq<u8>>,
                                submitters: Seq::<u64>::empty(),
                                counts: Seq::<crate::cron::CountView>::empty(),
                                submissions: crate::cron::next_submissions(s0, d, checkpoint@),
                            })
                        } else {
                            crate::cron::vote_recorded(
                                s0,
                                sv,
                                submitter,
                                submitter_weight,
                                checkpoint@,
                            )
                        },
                        None => false,
                    }))
                    &&& (status == VoteExecutionStatus::ConsensusReached && !in_order ==> o
                        is None && final(st)@ == (StateView {
                        cron_submissions: final(st)@.cron_submissions,
                        executable_epoch_queue: final(st)@.executable_epoch_queue,
                        ..old(st)@
                    }) && (match crate::state::cron_submission_of(
                        final(st)@.cron_submissions,
                        epoch,
                    ) {
                        Some(sv) => crate::cron::vote_recorded(
                            s0,
                            sv,
                            submitter,
                            submitter_weight,
                            checkpoint@,
                        ),
                        None => false,
                    }) && final(st)@.queue_or_empty().contains(epoch))
                    &&& (status == VoteExecutionStatus::ConsensusReached && in_order ==> (o
                        matches Some(msgs) && {
                        &&& msgs@.map_values(|m: StorableMsg| m@) == crate::cron::submission_of(
                            crate::cron::next_submissions(s0, d, checkpoint@),
                            crate::cron::next_leader(s0, d, submitter_weight),
                        )->Some_0.top_down_msgs
                        &&& final(st)@.last_cron_executed_epoch == epoch
                        &&& crate::state::cron_submission_of(
                            final(st)@.cron_submissions,
                            epoch,
                        ) is None
                        &&& !final(st)@.queue_or_empty().contains(epoch)
                        &&& final(st)@ == (StateView {
                            last_cron_executed_epoch: epoch,
                            executable_epoch_queue: final(st)@.executable_epoch_queue,
                            cron_submissions: final(st)@.cron_submissions,
                            ..old(st)@
                        })
                    }))
                }))
            }),
            final(st)@.wf(),
    {
        let epoch = checkpoint.epoch;
        match checkpoint.hash() {
            Ok(_) => (),
            Err(e) => {
                return Err(e);
            },
        }
        let ghost subs0 = st@.cron_submissions;
        let idx = crate::state::find_cron_submission(&st.cron_submissions, epoch);
        proof {
            match idx {
                Some(k) => crate::state::lemma_cron_submission_of_first(
                    subs0,
                    epoch,
                    k as int,
                ),
                None => crate::state::lemma_cron_submission_of_first(
                    subs0,
                    epoch,
                    subs0.len() as int,
                ),
            }
        }
        let ghost s0 = match crate::state::cron_submission_of(subs0, epoch) {
            Some(sv) => sv,
            None => crate::cron::empty_tally(),
        };
        if let Some(k) = idx {
            if st.cron_submissions[k].submission.has_submitted(submitter) {
                proof {
                    assert(s0.submitters.contains(submitter));
                }
                return Err(Error::IllegalArgument("already submitted"));
            }
        }
        proof {
            assert(!s0.submitters.contains(submitter)) by {
                if idx is None {
                    if s0.submitters.contains(submitter) {
                        let w = choose|w: int|
                            0 <= w < s0.submitters.len() && s0.submitters[w] == submitter;
                        assert(false);
                    }
                }
            }
        }
        let mut submission = match idx {
            Some(k) => {
                let entry = st.cron_submissions.remove(k);
                entry.submission
            },
            None => crate::cron::CronSubmission::new(),
        };
        proof {
            assert(submission@ =~~= s0);
        }
        let ghost mid_subs = st@.cron_submissions;
        let most = match submission.submit(submitter, submitter_weight, checkpoint) {
            Ok(c) => c,
            Err(_) => {
                proof {
                    assert(false);
                }
                return Err(Error::IllegalArgument("already submitted"));
            },
        };
        let ghost s1 = submission@;
        proof {
            assert(crate::cron::vote_recorded(s0, s1, submitter, submitter_weight, checkpoint@));
            assert(most == crate::cron::leader_weight(s1));
        }
        let total_weight = st.validators.total_weight;
        let status = submission.derive_execution_status(total_weight, most);
        let ghost spec_status = crate::cron::spec_execution_status(
            old(st)@.validators.total_weight as int,
            s1.total as int,
            crate::cron::leader_weight(s1) as int,
        );
        let ghost d = crate::cron::cron_digest(checkpoint@);
        proof {
            assert(status == spec_status);
            let nc = (crate::cron::count_of_or_zero(s0.counts, d) + submitter_weight) as u128;
            match s0.most_voted {
                None => {
                    assert(s1.most_voted == Some(d));
                    assert(most == nc);
                },
                Some(m) => {
                    if m == d {
                        assert(s1.most_voted == Some(d));
                        assert(most == nc);
                    } else {
                        let mc = crate::cron::count_of_or_zero(s0.counts, m);
                        if nc > mc {
                            assert(s1.most_voted == Some(d));
                            assert(most == nc);
                        } else {
                            assert(s1.most_voted == Some(m));
                            assert(most == mc);
                        }
                    }
                },
            }
            assert(s1.most_voted == Some(crate::cron::next_leader(s0, d, submitter_weight)));
            assert(most == crate::cron::next_leader_weight(s0, d, submitter_weight));
            assert(crate::cron::leader_weight(s1) == crate::cron::next_leader_weight(
                s0,
                d,
                submitter_weight,
            ));
            assert(s1.submissions =~= crate::cron::next_submissions(s0, d, checkpoint@));
            assert(spec_status == crate::cron::spec_execution_status(
                old(st)@.validators.total_weight as int,
                s0.total + submitter_weight,
                crate::cron::next_leader_weight(s0, d, submitter_weight),
            ));
        }
        let queue_ready: bool = match &st.executable_epoch_queue {
            None => true,
            Some(q) => q.len() > 0 && q[0] >= epoch,
        };
        let executes: bool = match status {
            VoteExecutionStatus::ConsensusReached => {
                st.last_cron_executed_epoch <= u64::MAX - st.cron_period
                    && st.last_cron_executed_epoch + st.cron_period == epoch && queue_ready
            },
            _ => false,
        };
        let ghost in_order = old(st)@.last_cron_executed_epoch <= u64::MAX - old(st)@.cron_period
            && old(st)@.last_cron_executed_epoch + old(st)@.cron_period == epoch && (old(st)@.queue_or_empty().len() == 0 || old(st)@.queue_or_empty()[0] >= epoch);
        proof {
            assert(executes == (spec_status == VoteExecutionStatus::ConsensusReached
                && in_order));
        }
        if matches!(status, VoteExecutionStatus::RoundAbort) {
            submission.abort();
            proof {
                assert(submission@ =~~= crate::cron::aborted(s1));
            }
        }
        let ghost stored = submission@;
        if !executes {
            let put_back = crate::state::EpochSubmission { epoch, submission };
            match idx {
                Some(k) => {
                    st.cron_submissions.insert(k, put_back);
                    proof {
                        assert(st@.cron_submissions =~= subs0.update(k as int, st@.cron_submissions[k as int]));
                    }
                },
                None => {
                    st.cron_submissions.push(put_back);
                    proof {
                        assert(st@.cron_submissions =~= subs0.push(st@.cron_submissions.last()));
                    }
                },
            }
            proof {
                assert(st@ =~= (StateView {
                    cron_submissions: st@.cron_submissions,
                    ..old(st)@
                }));
                assert(st@.wf()) by {
                    if idx is Some {
                        let k = idx->Some_0 as int;
                        assert(st@.cron_submissions =~= subs0.update(
                            k,
                            st@.cron_submissions[k],
                        ));
                    }
                    assert forall|a: int, b: int|
                        0 <= a < b < st@.cron_submissions.len() implies st@.cron_submissions[
                    a].epoch != st@.cron_submissions[b].epoch by {
                        if idx is Some {
                            let k = idx->Some_0 as int;
                            if a != k && b != k {
                                assert(st@.cron_submissions[a] == subs0[a]);
                                assert(st@.cron_submissions[b] == subs0[b]);
                            } else if a == k {
                                assert(st@.cron_submissions[b] == subs0[b]);
                                crate::state::lemma_cron_submission_of_first(subs0, epoch, k);
                            } else {
                                assert(st@.cron_submissions[a] == subs0[a]);
                            }
                        } else {
                            if b == st@.cron_submissions.len() - 1 {
                                assert(st@.cron_submissions[a] == subs0[a]);
                            }
                        }
                    }
                    assert forall|i: int|
                        0 <= i < st@.cron_submissions.len() implies (
                    #[trigger] st@.cron_submissions[i]).submission.wf() by {
                        if idx is Some {
                            let k = idx->Some_0 as int;
                            if i != k {
                                assert(st@.cron_submissions[i] == subs0[i]);
                            }
                        } else {
                            if i < st@.cron_submissions.len() - 1 {
                                assert(st@.cron_submissions[i] == subs0[i]);
                            }
                        }
                    }
                }
            }
            proof {
                let subs1 = st@.cron_submissions;
                assert(crate::state::cron_submission_of(subs1, epoch) == Some(stored)) by {
                    match idx {
                        Some(k) => {
                            assert(forall|j: int|
                                0 <= j < k ==> subs1[j] == subs0[j]);
                            crate::state::lemma_cron_submission_of_first(
                                subs1,
                                epoch,
                                k as int,
                            );
                        },
                        None => {
                            assert(forall|j: int|
                                0 <= j < subs0.len() ==> subs1[j] == subs0[j]);
                            crate::state::lemma_cron_submission_of_first(
                                subs1,
                                epoch,
                                subs0.len() as int,
                            );
                        },
                    }
                }
            }
            if matches!(status, VoteExecutionStatus::ConsensusReached) {
                st.insert_executable_epoch(epoch);
                proof {
                    assert(st@ =~= (StateView {
                        cron_submissions: st@.cron_submissions,
                        executable_epoch_queue: st@.executable_epoch_queue,
                        ..old(st)@
                    }));
                }
            }
            proof {
                let s0e = match crate::state::cron_submission_of(
                    old(st)@.cron_submissions,
                    checkpoint@.epoch,
                ) {
                    Some(sv) => sv,
                    None => crate::cron::empty_tally(),
                };
                assert(s0e == s0);
                assert(crate::cron::vote_recorded(s0e, s1, submitter, submitter_weight,
                    checkpoint@));
                if spec_status != VoteExecutionStatus::ConsensusReached {
                    assert(st@ == (StateView {
                        cron_submissions: st@.cron_submissions,
                        ..old(st)@
                    }));
                    assert(crate::state::cron_submission_of(st@.cron_submissions, epoch)
                        == Some(
                        if spec_status is RoundAbort {
                            crate::cron::aborted(s1)
                        } else {
                            s1
                        },
                    ));
                } else {
                    assert(!in_order);
                    assert(st@ == (StateView {
                        cron_submissions: st@.cron_submissions,
                        executable_epoch_queue: st@.executable_epoch_queue,
                        ..old(st)@
                    }));
                    assert(crate::state::cron_submission_of(st@.cron_submissions, epoch)
                        == Some(s1));
                    assert(st@.queue_or_empty().contains(epoch));
                }
            }
            return Ok(None);
        }
        // Consensus for the next epoch in order: execute now.
        proof {
            assert(st@.wf()) by {
                if idx is Some {
                    let k = idx->Some_0 as int;
                    assert(st@ =~= (StateView {
                        cron_submissions: subs0.remove(k),
                        ..old(st)@
                    }));
                    assert forall|a: int, b: int|
                        0 <= a < b < st@.cron_submissions.len() implies st@.cron_submissions[
                        a].epoch != st@.cron_submissions[b].epoch by {
                        let ra = if a < k { a } else { a + 1 };
                        let rb = if b < k { b } else { b + 1 };
                        assert(st@.cron_submissions[a] == subs0[ra]);
                        assert(st@.cron_submissions[b] == subs0[rb]);
                    }
                    assert forall|i: int|
                        0 <= i < st@.cron_submissions.len() implies (
                    #[trigger] st@.cron_submissions[i]).submission.wf() by {
                        let ri = if i < k { i } else { i + 1 };
                        assert(st@.cron_submissions[i] == subs0[ri]);
                    }
                }
            }
        }
        let ghost qpre = st@.queue_or_empty();
        st.remove_executable_epoch(epoch);
        let ghost qmid = st@.queue_or_empty();
        st.last_cron_executed_epoch = epoch;
        proof {
            assert(st@ =~= (StateView {
                last_cron_executed_epoch: epoch,
                executable_epoch_queue: st@.executable_epoch_queue,
                cron_submissions: st@.cron_submissions,
                ..old(st)@
            }));
            assert forall|j: int|
                0 <= j < st@.queue_or_empty().len() implies #[trigger] st@.queue_or_empty()[j]
                > epoch by {
                assert(qmid[j] != epoch);
                assert(qmid.contains(qmid[j]));
                assert(qpre.contains(qmid[j]));
                let w = choose|w: int| 0 <= w < qpre.len() && qpre[w] == qmid[j];
                if w > 0 {
                    assert(qpre[0] < qpre[w]);
                }
            }
            assert(st@.wf());
        }
        let msgs = match submission.load_most_submitted_checkpoint() {
            Ok(Some(c)) => {
                proof {
                    assert(c@.top_down_msgs == c.top_down_msgs@.map_values(
                        |m: StorableMsg| m@,
                    ));
                }
                c.top_down_msgs
            },
            Ok(None) => {
                proof {
                    let sv = submission@;
                    assert(sv.most_voted is Some);
                    crate::cron::lemma_count_of_some_index(sv.counts, sv.most_voted->Some_0);
                    assert(false);
                }
                return Err(Error::IllegalArgument("no checkpoint"));
            },
            Err(_) => {
                proof {
                    assert(false);
                }
                return Err(Error::IllegalArgument("no checkpoint"));
            },
        };
        proof {
            assert(msgs@.map_values(|m: StorableMsg| m@) == crate::cron::submission_of(
                s1.submissions,
                s1.most_voted->Some_0,
            )->Some_0.top_down_msgs);
            assert(crate::state::cron_submission_of(st@.cron_submissions, epoch) is None) by {
                assert forall|j: int| 0 <= j < mid_subs.len() implies mid_subs[j].epoch
                    != epoch by {
                    let rj = if idx is Some && j >= idx->Some_0 {
                        j + 1
                    } else {
                        j
                    };
                    if idx is Some {
                        assert(mid_subs[j] == subs0[rj]);
                        crate::state::lemma_cron_submission_of_first(subs0, epoch,
                            idx->Some_0 as int);
                    } else {
                        crate::state::lemma_cron_submission_of_first(subs0, epoch,
                            subs0.len() as int);
                    }
                }
                crate::state::lemma_cron_submission_of_first(st@.cron_submissions, epoch,
                    st@.cron_submissions.len() as int);
            }
            assert(st@.wf()) by {
                assert forall|a: int, b: int|
                    0 <= a < b < st@.cron_submissions.len() implies st@.cron_submissions[a].epoch
                    != st@.cron_submissions[b].epoch by {
                    if idx is Some {
                        let k = idx->Some_0 as int;
                        let ra = if a < k { a } else { a + 1 };
                        let rb = if b < k { b } else { b + 1 };
                        assert(st@.cron_submissions[a] == subs0[ra]);
                        assert(st@.cron_submissions[b] == subs0[rb]);
                    }
                }
                assert forall|i: int|
                    0 <= i < st@.cron_submissions.len() implies (
                #[trigger] st@.cron_submissions[i]).submission.wf() by {
                    if idx is Some {
                        let k = idx->Some_0 as int;
                        let ri = if i < k { i } else { i + 1 };
                        assert(st@.cron_submissions[i] == subs0[ri]);
                    }
                }
            }
        }
        proof {
            let s0e = match crate::state::cron_submission_of(
                old(st)@.cron_submissions,
                checkpoint@.epoch,
            ) {
                Some(sv) => sv,
                None => crate::cron::empty_tally(),
            };
            assert(s0e == s0);
            assert(crate::cron::vote_recorded(s0e, s1, submitter, submitter_weight, checkpoint@));
        }
        Ok(Some(msgs))
    }
}

impl Actor {
    /// Drain one entry of the executable queue: when its earliest epoch is
    /// not past the next one in order, pop it, advance the watermark and hand
    /// back its voted messages. This unsticks epochs whose consensus arrived
    /// before an earlier epoch had executed.
    fn execute_next_cron_epoch(st: &mut State) -> (r: Result<Option<Vec<StorableMsg>>, Error>)
        requires
            old(st)@.wf(),
        ensures
            ({
                let q = old(st)@.queue_or_empty();
                let last = old(st)@.last_cron_executed_epoch;
                let ready = q.len() > 0 && last <= u64::MAX - old(st)@.cron_period && q[0] <= last
                    + old(st)@.cron_period;
                &&& (r matches Err(e) ==> final(st)@ == old(st)@ && e is IllegalState)
                &&& ((r matches Ok(o) && o is None) ==> final(st)@ == old(st)@)
                &&& (!ready ==> (r matches Ok(o) && o is None))
                &&& (ready ==> match crate::state::cron_submission_of(
                    old(st)@.cron_submissions,
                    q[0],
                ) {
                    None => r is Err,
                    Some(sub) => match sub.most_voted {
                        None => r is Err,
                        Some(h) => match crate::cron::submission_of(sub.submissions, h) {
                            None => r is Err,
                            Some(c) => r matches Ok(o) && o matches Some(msgs) && {
                                &&& msgs@.map_values(|m: StorableMsg| m@) == c.top_down_msgs
                                &&& final(st)@.last_cron_executed_epoch == q[0]
                                &&& crate::state::cron_submission_of(
                                    final(st)@.cron_submissions,
                                    q[0],
                                ) is None
                                &&& !final(st)@.queue_or_empty().contains(q[0])
                                &&& (exists|k: int|
                                    0 <= k < old(st)@.cron_submissions.len()
                                        && final(st)@.cron_submissions == old(st)@.cron_submissions.remove(k))
                                &&& final(st)@ == (StateView {
                                    last_cron_executed_epoch: q[0],
                                    executable_epoch_queue: final(st)@.executable_epoch_queue,
                                    cron_submissions: final(st)@.cron_submissions,
                                    ..old(st)@
                                })
                            },
                        },
                    },
                })
            }),
            final(st)@.wf(),
    {
        let epoch: u64;
        match &st.executable_epoch_queue {
            None => {
                return Ok(None);
            },
            Some(q) => {
                let first = q[0];
                if st.last_cron_executed_epoch > u64::MAX - st.cron_period
                    || first > st.last_cron_executed_epoch + st.cron_period {
                    return Ok(None);
                }
                epoch = first;
            },
        }
        let idx = match crate::state::find_cron_submission(&st.cron_submissions, epoch) {
            Some(k) => k,
            None => {
                proof {
                    crate::state::lemma_cron_submission_of_first(
                        st@.cron_submissions,
                        epoch,
                        st@.cron_submissions.len() as int,
                    );
                }
                return Err(Error::IllegalState("queued epoch has no stored submission"));
            },
        };
        let ghost subs0 = st@.cron_submissions;
        proof {
            crate::state::lemma_cron_submission_of_first(subs0, epoch, idx as int);
        }
        let ghost subv = st@.cron_submissions[idx as int].submission;
        let msgs = match st.cron_submissions[idx].submission.load_most_submitted_checkpoint() {
            Ok(Some(c)) => {
                proof {
                    assert(c@.top_down_msgs == c.top_down_msgs@.map_values(
                        |m: StorableMsg| m@,
                    ));
                }
                c.top_down_msgs
            },
            Ok(None) => {
                return Err(Error::IllegalState("queued epoch has no consensus checkpoint"));
            },
            Err(_) => {
                return Err(Error::IllegalState("queued epoch has no consensus checkpoint"));
            },
        };
        st.remove_executable_epoch(epoch);
        let ghost qmid = st@.queue_or_empty();
        let _ = st.cron_submissions.remove(idx);
        st.last_cron_executed_epoch = epoch;
        proof {
            let ghost qpre = old(st)@.queue_or_empty();
            assert(st@ =~= (StateView {
                last_cron_executed_epoch: epoch,
                executable_epoch_queue: st@.executable_epoch_queue,
                cron_submissions: subs0.remove(idx as int),
                ..old(st)@
            }));
            assert forall|j: int|
                0 <= j < st@.queue_or_empty().len() implies #[trigger] st@.queue_or_empty()[j]
                > epoch by {
                assert(qmid[j] != epoch);
                assert(qmid.contains(qmid[j]));
                assert(qpre.contains(qmid[j]));
                let w = choose|w: int| 0 <= w < qpre.len() && qpre[w] == qmid[j];
                if w > 0 {
                    assert(qpre[0] < qpre[w]);
                }
            }
            assert forall|a: int, b: int|
                0 <= a < b < st@.cron_submissions.len() implies st@.cron_submissions[a].epoch
                != st@.cron_submissions[b].epoch by {
                let ra = if a < idx { a } else { a + 1 };
                let rb = if b < idx { b } else { b + 1 };
                assert(st@.cron_submissions[a] == subs0[ra]);
                assert(st@.cron_submissions[b] == subs0[rb]);
            }
            assert forall|i: int|
                0 <= i < st@.cron_submissions.len() implies (
            #[trigger] st@.cron_submissions[i]).submission.wf() by {
                let ri = if i < idx { i } else { i + 1 };
                assert(st@.cron_submissions[i] == subs0[ri]);
            }
            assert(st@.wf());
            assert(epoch > old(st)@.last_cron_executed_epoch) by {
                assert(old(st)@.queue_or_empty().contains(epoch)) by {
                    assert(old(st)@.queue_or_empty()[0] == epoch);
                }
            }
            let subs1 = st@.cron_submissions;
            assert(crate::state::cron_submission_of(subs1, epoch) is None) by {
                assert forall|j: int| 0 <= j < subs1.len() implies subs1[j].epoch != epoch by {
                    let rj = if j < idx {
                        j
                    } else {
                        j + 1
                    };
                    assert(subs1[j] == subs0[rj]);
                }
                crate::state::lemma_cron_submission_of_first(subs1, epoch, subs1.len() as int);
            }
            assert(exists|k: int|
                0 <= k < subs0.len() && subs1 == subs0.remove(k)) by {
                assert(0 <= idx < subs0.len() && subs1 == subs0.remove(idx as int));
            }
        }
        Ok(Some(msgs))
    }

    /// Apply a list of validated top-down messages in order, collecting the
    /// transfers of the ones executed here. Fails, mid-list, exactly when the
    /// application of one message must be refused.
    fn apply_validated_msgs(st: &mut State, msgs: Vec<StorableMsg>, current_balance: u128) -> (r:
        Result<Vec<Transfer>, Error>)
        requires
            old(st)@.wf(),
        ensures
            r matches Err(e) ==> e is IllegalState,
            r is Ok <==> spec_apply_list(
                old(st)@,
                as_validated(msgs@.map_values(|m: StorableMsg| m@)),
                current_balance,
            ) is Some,
            r matches Ok(ts) ==> ({
                let p = spec_apply_list(
                    old(st)@,
                    as_validated(msgs@.map_values(|m: StorableMsg| m@)),
                    current_balance,
                )->Some_0;
                &&& final(st)@ == p.0
                &&& ts@.map_values(|t: Transfer| t@) == p.1
            }),
            final(st)@ == (StateView {
                postbox: final(st)@.postbox,
                applied_bottomup_nonce: final(st)@.applied_bottomup_nonce,
                applied_topdown_nonce: final(st)@.applied_topdown_nonce,
                ..old(st)@
            }),
            final(st)@.wf(),
    {
        let ghost all = as_validated(msgs@.map_values(|m: StorableMsg| m@));
        let mut ts: Vec<Transfer> = Vec::new();
        let mut i: usize = 0;
        proof {
            assert(all.skip(0) =~= all);
            assert(ts@.map_values(|t: Transfer| t@) =~= Seq::<TransferView>::empty());
            match spec_apply_list(st@, all, current_balance) {
                None => {
                },
                Some((post, rest)) => {
                    assert(Seq::<TransferView>::empty() + rest =~= rest);
                },
            }
        }
        while i < msgs.len()
            invariant
                st@.wf(),
                i <= msgs.len(),
                all == as_validated(msgs@.map_values(|m: StorableMsg| m@)),
                st@ == (StateView {
                    postbox: st@.postbox,
                    applied_bottomup_nonce: st@.applied_bottomup_nonce,
                    applied_topdown_nonce: st@.applied_topdown_nonce,
                    ..old(st)@
                }),
                match spec_apply_list(st@, all.skip(i as int), current_balance) {
                    None => spec_apply_list(old(st)@, all, current_balance) is None,
                    Some((post, rest)) => spec_apply_list(old(st)@, all, current_balance)
                        == Some((post, ts@.map_values(|t: Transfer| t@) + rest)),
                },
            decreases msgs.len() - i,
        {
            let ghost tsv = ts@.map_values(|t: Transfer| t@);
            proof {
                assert(all.skip(i as int)[0] == all[i as int]);
                assert(all.skip(i as int).drop_first() =~= all.skip(i as int + 1));
            }
            let m = msgs[i].clone();
            let outcome = match Self::apply_msg(st, CrossMsg { msg: m, wrapped: false },
                current_balance) {
                Ok(o) => o,
                Err(e) => {
                    return Err(e);
                },
            };
            let ghost s1: Seq<TransferView>;
            match outcome {
                ApplyOutcome::Dispatched(t) => {
                    let ghost tv = t@;
                    proof {
                        s1 = seq![tv];
                    }
                    ts.push(t);
                    proof {
                        assert(ts@.map_values(|t2: Transfer| t2@) =~= tsv + s1);
                    }
                },
                ApplyOutcome::Queued(_) => {
                    proof {
                        s1 = Seq::<TransferView>::empty();
                        assert(ts@.map_values(|t2: Transfer| t2@) =~= tsv + s1);
                    }
                },
            }
            i = i + 1;
            proof {
                match spec_apply_list(st@, all.skip(i as int), current_balance) {
                    None => {
                    },
                    Some((post, rest)) => {
                        assert(tsv + (s1 + rest) =~= (tsv + s1) + rest);
                    },
                }
            }
        }
        proof {
            assert(all.skip(msgs@.len() as int) =~= Seq::<CrossMsgView>::empty());
            assert(ts@.map_values(|t: Transfer| t@) + Seq::<TransferView>::empty() =~= ts@
                .map_values(|t: Transfer| t@));
        }
        Ok(ts)
    }

    /// Apply a list of cross-messages in order, collecting the transfers of
    /// the ones executed here. Fails, mid-list, exactly when the application
    /// of one message must be refused.
    fn apply_cross_msgs(st: &mut State, msgs: &Vec<CrossMsg>, current_balance: u128) -> (r: Result<
        Vec<Transfer>,
        Error,
    >)
        requires
            old(st)@.wf(),
        ensures
            r matches Err(e) ==> e is IllegalState,
            r is Ok <==> spec_apply_list(
                old(st)@,
                msgs@.map_values(|c: CrossMsg| c@),
                current_balance,
            ) is Some,
            r matches Ok(ts) ==> ({
                let p = spec_apply_list(
                    old(st)@,
                    msgs@.map_values(|c: CrossMsg| c@),
                    current_balance,
                )->Some_0;
                &&& final(st)@ == p.0
                &&& ts@.map_values(|t: Transfer| t@) == p.1
            }),
            final(st)@ == (StateView {
                postbox: final(st)@.postbox,
                applied_bottomup_nonce: final(st)@.applied_bottomup_nonce,
                applied_topdown_nonce: final(st)@.applied_topdown_nonce,
                ..old(st)@
            }),
            final(st)@.wf(),
    {
        let ghost all = msgs@.map_values(|c: CrossMsg| c@);
        let mut ts: Vec<Transfer> = Vec::new();
        let mut i: usize = 0;
        proof {
            assert(all.skip(0) =~= all);
            assert(ts@.map_values(|t: Transfer| t@) =~= Seq::<TransferView>::empty());
            match spec_apply_list(st@, all, current_balance) {
                None => {
                },
                Some((post, rest)) => {
                    assert(Seq::<TransferView>::empty() + rest =~= rest);
                },
            }
        }
        while i < msgs.len()
            invariant
                st@.wf(),
                i <= msgs.len(),
                all == msgs@.map_values(|c: CrossMsg| c@),
                st@ == (StateView {
                    postbox: st@.postbox,
                    applied_bottomup_nonce: st@.applied_bottomup_nonce,
                    applied_topdown_nonce: st@.applied_topdown_nonce,
                    ..old(st)@
                }),
                match spec_apply_list(st@, all.skip(i as int), current_balance) {
                    None => spec_apply_list(old(st)@, all, current_balance) is None,
                    Some((post, rest)) => spec_apply_list(old(st)@, all, current_balance)
                        == Some((post, ts@.map_values(|t: Transfer| t@) + rest)),
                },
            decreases msgs.len() - i,
        {
            let ghost tsv = ts@.map_values(|t: Transfer| t@);
            proof {
                assert(all.skip(i as int)[0] == all[i as int]);
                assert(all.skip(i as int).drop_first() =~= all.skip(i as int + 1));
            }
            let outcome = match Self::apply_msg(st, msgs[i].clone(), current_balance) {
                Ok(o) => o,
                Err(e) => {
                    return Err(e);
                },
            };
            let ghost s1: Seq<TransferView>;
            match outcome {
                ApplyOutcome::Dispatched(t) => {
                    let ghost tv = t@;
                    proof {
                        s1 = seq![tv];
                    }
                    ts.push(t);
                    proof {
                        assert(ts@.map_values(|t2: Transfer| t2@) =~= tsv + s1);
                    }
                },
                ApplyOutcome::Queued(_) => {
                    proof {
                        s1 = Seq::<TransferView>::empty();
                        assert(ts@.map_values(|t2: Transfer| t2@) =~= tsv + s1);
                    }
                },
            }
            i = i + 1;
            proof {
                match spec_apply_list(st@, all.skip(i as int), current_balance) {
                    None => {
                    },
                    Some((post, rest)) => {
                        assert(tsv + (s1 + rest) =~= (tsv + s1) + rest);
                    },
                }
            }
        }
        proof {
            assert(all.skip(msgs@.len() as int) =~= Seq::<CrossMsgView>::empty());
            assert(ts@.map_values(|t: Transfer| t@) + Seq::<TransferView>::empty() =~= ts@
                .map_values(|t: Transfer| t@));
        }
        Ok(ts)
    }

    /// Submit a cron checkpoint vote, atomically: on any refusal or failure
    /// the state is exactly what it was before the call. The doc comment of
    /// the staged step below describes the operation itself.
    pub fn submit_cron(
        st: &mut State,
        submitter: u64,
        checkpoint: &CronCheckpoint,
        current_balance: u128,
    ) -> (r: Result<Vec<Transfer>, Error>)
        requires
            old(st)@.wf(),
        ensures
            r matches Err(e) ==> (e is IllegalArgument || e is IllegalState),
            ({
                let epoch = checkpoint@.epoch;
                let q = old(st)@.queue_or_empty();
                let no_drain = q.len() == 0 || old(st)@.last_cron_executed_epoch
                    > u64::MAX - old(st)@.cron_period || q[0] > old(st)@.last_cron_executed_epoch
                    + old(st)@.cron_period;
                let invalid = epoch < old(st)@.genesis_epoch || (epoch - old(st)@.genesis_epoch) as int % (old(st)@.cron_period as int) != 0 || old(st)@.last_cron_executed_epoch >= epoch || weight_of(
                    old(st)@.validators.validators.validators,
                    submitter,
                ) is None;
                let s0 = match crate::state::cron_submission_of(
                    old(st)@.cron_submissions,
                    epoch,
                ) {
                    Some(sv) => sv,
                    None => crate::cron::empty_tally(),
                };
                &&& (no_drain ==> {
                    &&& (invalid ==> (r matches Err(e) && e is IllegalArgument && final(st)@
                        == old(st)@))
                    &&& (!invalid ==> {
                        let already = s0.submitters.contains(submitter);
                        let sorted = crate::cron::nonces_ascending(checkpoint@.top_down_msgs);
                        &&& ((already || !sorted) ==> (r matches Err(e) && e is IllegalArgument
                            && final(st)@ == old(st)@))
                        &&& (!already && sorted ==> (match weight_of(
                            old(st)@.validators.validators.validators,
                            submitter,
                        ) {
                            Some(w) => {
                                let d = crate::cron::cron_digest(checkpoint@);
                                let status = crate::cron::spec_execution_status(
                                    old(st)@.validators.total_weight as int,
                                    s0.total + w,
                                    crate::cron::next_leader_weight(s0, d, w),
                                );
                                let in_order = old(st)@.last_cron_executed_epoch
                                    <= u64::MAX - old(st)@.cron_period
                                    && old(st)@.last_cron_executed_epoch + old(st)@.cron_period
                                    == epoch && (old(st)@.queue_or_empty().len() == 0
                                    || old(st)@.queue_or_empty()[0] >= epoch);
                                &&& (!(status == VoteExecutionStatus::ConsensusReached
                                    && in_order) ==> r is Ok)
                                &&& (r matches Err(e) ==> e is IllegalState)
                                &&& (r is Ok ==> cron_vote_state_effect(
                                    old(st)@,
                                    final(st)@,
                                    submitter,
                                    w,
                                    checkpoint@,
                                ))
                                &&& (status == VoteExecutionStatus::ConsensusReached && in_order
                                    ==> ({
                                    let winning = as_validated(
                                        crate::cron::submission_of(
                                            crate::cron::next_submissions(s0, d, checkpoint@),
                                            crate::cron::next_leader(s0, d, w),
                                        )->Some_0.top_down_msgs,
                                    );
                                    &&& (r is Ok <==> spec_apply_list(
                                        old(st)@,
                                        winning,
                                        current_balance,
                                    ) is Some)
                                    &&& (r matches Ok(ts) ==> ({
                                        let p = spec_apply_list(
                                            old(st)@,
                                            winning,
                                            current_balance,
                                        )->Some_0;
                                        &&& ts@.map_values(|t: Transfer| t@) == p.1
                                        &&& final(st)@.postbox == p.0.postbox
                                        &&& final(st)@.applied_bottomup_nonce
                                            == p.0.applied_bottomup_nonce
                                        &&& final(st)@.applied_topdown_nonce
                                            == p.0.applied_topdown_nonce
                                    }))
                                }))
                            },
                            None => false,
                        }))
                    })
                })
                &&& (!no_drain ==> (match crate::state::cron_submission_of(
                    old(st)@.cron_submissions,
                    q[0],
                ) {
                    None => r is Err,
                    Some(sub0) => match sub0.most_voted {
                        None => r is Err,
                        Some(h) => match crate::cron::submission_of(sub0.submissions, h) {
                            None => r is Err,
                            Some(c0) => ({
                                let drained = as_validated(c0.top_down_msgs);
                                &&& (spec_apply_list(old(st)@, drained, current_balance) is None
                                    ==> r is Err)
                                &&& (r matches Ok(ts) ==> ({
                                    let p = spec_apply_list(
                                        old(st)@,
                                        drained,
                                        current_balance,
                                    )->Some_0;
                                    &&& final(st)@.last_cron_executed_epoch >= q[0]
                                    &&& ts@.len() >= p.1.len()
                                    &&& ts@.map_values(|t: Transfer| t@).subrange(
                                        0,
                                        p.1.len() as int,
                                    ) == p.1
                                }))
                            }),
                        },
                    },
                }))
            }),
            r matches Err(e) ==> final(st)@ == old(st)@,
            final(st)@.wf(),
    {
        let backup = st.clone();
        match Self::submit_cron_inner(st, submitter, checkpoint, current_balance) {
            Ok(ts) => Ok(ts),
            Err(e) => {
                *st = backup;
                Err(e)
            },
        }
    }

    #[verifier::rlimit(50)]
    fn submit_cron_inner(
        st: &mut State,
        submitter: u64,
        checkpoint: &CronCheckpoint,
        current_balance: u128,
    ) -> (r: Result<Vec<Transfer>, Error>)
        requires
            old(st)@.wf(),
        ensures
            r matches Err(e) ==> (e is IllegalArgument || e is IllegalState),
            ({
                let epoch = checkpoint@.epoch;
                let q = old(st)@.queue_or_empty();
                let no_drain = q.len() == 0 || old(st)@.last_cron_executed_epoch
                    > u64::MAX - old(st)@.cron_period || q[0] > old(st)@.last_cron_executed_epoch
                    + old(st)@.cron_period;
                let invalid = epoch < old(st)@.genesis_epoch || (epoch - old(st)@.genesis_epoch) as int % (old(st)@.cron_period as int) != 0 || old(st)@.last_cron_executed_epoch >= epoch || weight_of(
                    old(st)@.validators.validators.validators,
                    submitter,
                ) is None;
                let s0 = match crate::state::cron_submission_of(
                    old(st)@.cron_submissions,
                    epoch,
                ) {
                    Some(sv) => sv,
                    None => crate::cron::empty_tally(),
                };
                &&& (no_drain ==> {
                    &&& (invalid ==> (r matches Err(e) && e is IllegalArgument && final(st)@
                        == old(st)@))
                    &&& (!invalid ==> {
                        let already = s0.submitters.contains(submitter);
                        let sorted = crate::cron::nonces_ascending(checkpoint@.top_down_msgs);
                        &&& ((already || !sorted) ==> (r matches Err(e) && e is IllegalArgument
                            && final(st)@ == old(st)@))
                        &&& (!already && sorted ==> (match weight_of(
                            old(st)@.validators.validators.validators,
                            submitter,
                        ) {
                            Some(w) => {
                                let d = crate::cron::cron_digest(checkpoint@);
                                let status = crate::cron::spec_execution_status(
                                    old(st)@.validators.total_weight as int,
                                    s0.total + w,
                                    crate::cron::next_leader_weight(s0, d, w),
                                );
                                let in_order = old(st)@.last_cron_executed_epoch
                                    <= u64::MAX - old(st)@.cron_period
                                    && old(st)@.last_cron_executed_epoch + old(st)@.cron_period
                                    == epoch && (old(st)@.queue_or_empty().len() == 0
                                    || old(st)@.queue_or_empty()[0] >= epoch);
                                &&& (!(status == VoteExecutionStatus::ConsensusReached
                                    && in_order) ==> r is Ok)
                                &&& (r matches Err(e) ==> e is IllegalState)
                                &&& (r is Ok ==> cron_vote_state_effect(
                                    old(st)@,
                                    final(st)@,
                                    submitter,
                                    w,
                                    checkpoint@,
                                ))
                                &&& (status == VoteExecutionStatus::ConsensusReached && in_order
                                    ==> ({
                                    let winning = as_validated(
                                        crate::cron::submission_of(
                                            crate::cron::next_submissions(s0, d, checkpoint@),
                                            crate::cron::next_leader(s0, d, w),
                                        )->Some_0.top_down_msgs,
                                    );
                                    &&& (r is Ok <==> spec_apply_list(
                                        old(st)@,
                                        winning,
                                        current_balance,
                                    ) is Some)
                                    &&& (r matches Ok(ts) ==> ({
                                        let p = spec_apply_list(
                                            old(st)@,
                                            winning,
                                            current_balance,
                                        )->Some_0;
                                        &&& ts@.map_values(|t: Transfer| t@) == p.1
                                        &&& final(st)@.postbox == p.0.postbox
                                        &&& final(st)@.applied_bottomup_nonce
                                            == p.0.applied_bottomup_nonce
                                        &&& final(st)@.applied_topdown_nonce
                                            == p.0.applied_topdown_nonce
                                    }))
                                }))
                            },
                            None => false,
                        }))
                    })
                })
                &&& (!no_drain ==> (match crate::state::cron_submission_of(
                    old(st)@.cron_submissions,
                    q[0],
                ) {
                    None => r is Err,
                    Some(sub0) => match sub0.most_voted {
                        None => r is Err,
                        Some(h) => match crate::cron::submission_of(sub0.submissions, h) {
                            None => r is Err,
                            Some(c0) => ({
                                let drained = as_validated(c0.top_down_msgs);
                                &&& (spec_apply_list(old(st)@, drained, current_balance) is None
                                    ==> r is Err)
                                &&& (r matches Ok(ts) ==> ({
                                    let p = spec_apply_list(
                                        old(st)@,
                                        drained,
                                        current_balance,
                                    )->Some_0;
                                    &&& final(st)@.last_cron_executed_epoch >= q[0]
                                    &&& ts@.len() >= p.1.len()
                                    &&& ts@.map_values(|t: Transfer| t@).subrange(
                                        0,
                                        p.1.len() as int,
                                    ) == p.1
                                }))
                            }),
                        },
                    },
                }))
            }),
            final(st)@.wf(),
    {
        let mut ts: Vec<Transfer> = Vec::new();
        let ghost mut drain_ts: Seq<TransferView> = Seq::empty();
        match Self::execute_next_cron_epoch(st) {
            Ok(Some(msgs)) => {
                let ghost mid = st@;
                let ghost wviews = as_validated(msgs@.map_values(|m: StorableMsg| m@));
                proof {
                    if mid.network_name == old(st)@.network_name && mid.postbox == old(
                        st,
                    )@.postbox && mid.applied_bottomup_nonce == old(
                        st,
                    )@.applied_bottomup_nonce && mid.applied_topdown_nonce == old(
                        st,
                    )@.applied_topdown_nonce {
                        lemma_apply_list_frame(mid, old(st)@, wviews, current_balance);
                    }
                }
                let mut t1 = match Self::apply_validated_msgs(st, msgs, current_balance) {
                    Ok(t) => t,
                    Err(e) => {
                        return Err(e);
                    },
                };
                proof {
                    drain_ts = t1@.map_values(|t: Transfer| t@);
                }
                ts.append(&mut t1);
                proof {
                    assert(ts@.map_values(|t: Transfer| t@) =~= drain_ts);
                }
            },
            Ok(None) => (),
            Err(e) => {
                return Err(e);
            },
        }
        let ghost after_drain = ts@.map_values(|t: Transfer| t@);
        let weight = match Self::validate_submitter(st, checkpoint.epoch, submitter) {
            Ok(w) => w,
            Err(e) => {
                return Err(e);
            },
        };
        proof {
            assert(st@.last_cron_executed_epoch < checkpoint@.epoch);
        }
        match Self::handle_cron_submission(st, checkpoint, submitter, weight) {
            Ok(Some(msgs)) => {
                let ghost mid = st@;
                let ghost wviews = as_validated(msgs@.map_values(|m: StorableMsg| m@));
                proof {
                    if mid.network_name == old(st)@.network_name && mid.postbox == old(
                        st,
                    )@.postbox && mid.applied_bottomup_nonce == old(
                        st,
                    )@.applied_bottomup_nonce && mid.applied_topdown_nonce == old(
                        st,
                    )@.applied_topdown_nonce {
                        lemma_apply_list_frame(mid, old(st)@, wviews, current_balance);
                    }
                }
                let ghost ts_before = ts@.map_values(|t: Transfer| t@);
                let mut t2 = match Self::apply_validated_msgs(st, msgs, current_balance) {
                    Ok(t) => t,
                    Err(e) => {
                        return Err(e);
                    },
                };
                let ghost t2v = t2@.map_values(|t: Transfer| t@);
                ts.append(&mut t2);
                proof {
                    assert(ts@.map_values(|t: Transfer| t@) =~= ts_before + t2v);
                    if ts_before.len() == 0 {
                        assert(ts@.map_values(|t: Transfer| t@) =~= t2v);
                    }
                    assert(ts@.map_values(|t: Transfer| t@).subrange(
                        0,
                        after_drain.len() as int,
                    ) =~= after_drain);
                }
            },
            Ok(None) => (),
            Err(e) => {
                return Err(e);
            },
        }
        proof {
            assert(ts@.map_values(|t: Transfer| t@).subrange(0, after_drain.len() as int)
                =~= after_drain);
        }
        Ok(ts)
    }
}

impl Actor {
    /// Commit a child subnet's checkpoint: the caller must be the subnet
    /// actor of its source, the child must be Active, and the commitment
    /// must chain onto the child's previous checkpoint. The declared batch of
    /// bottom-up messages is registered, released from the child's supply and
    /// applied; the commitment's content id joins the current window
    /// checkpoint, once only; the declared fee is rewarded to the caller.
    /// Commit a child subnet's checkpoint, atomically: on any refusal or
    /// failure the state is exactly what it was before the call. The doc
    /// comment of the staged step below describes the operation itself.
    pub fn commit_child_check(
        st: &mut State,
        caller: u64,
        commit: &Checkpoint,
        curr_epoch: u64,
        current_balance: u128,
    ) -> (r: Result<Vec<Transfer>, Error>)
        requires
            old(st)@.wf(),
        ensures
            ({
                let shid = old(st)@.network_name.push(caller);
                let wep = crate::state::spec_window_epoch(curr_epoch, old(st)@.check_period);
                let w0 = crate::state::spec_window(old(st)@, wep);
                let c = commit.spec_cid();
                &&& (r matches Err(e) ==> (e is IllegalArgument || e is IllegalState))
                &&& (commit@.data.source.len() == 0 ==> (r matches Err(e) && e
                    is IllegalArgument && final(st)@ == old(st)@))
                &&& (commit@.data.source.len() > 0 && commit@.data.source.last() != caller ==> (r
                    matches Err(e) && e is IllegalArgument && final(st)@ == old(st)@))
                &&& (commit@.data.source.len() > 0 && commit@.data.source.last() == caller
                    && subnet_of(old(st)@.subnets, shid) is None ==> (r matches Err(e) && e
                    is IllegalArgument && final(st)@ == old(st)@))
                &&& (match subnet_of(old(st)@.subnets, shid) {
                    Some(sub) => (commit@.data.source.len() > 0 && commit@.data.source.last()
                        == caller) ==> ({
                        let msgs = commit@.data.cross_msgs.msgs_or_empty();
                        let has_msgs = msgs.len() > 0;
                        let total = crate::checkpoint::sum_of_values(msgs);
                        let chain_bad_epoch = match sub.prev_checkpoint {
                            Some(p) => commit@.data.epoch <= p.data.epoch,
                            None => false,
                        };
                        let chain_bad_link = match sub.prev_checkpoint {
                            Some(p) => commit@.data.epoch > p.data.epoch
                                && commit@.data.prev_check != crate::hash::cid_of(
                                crate::codec::enc_check_data(p.data),
                            ),
                            None => false,
                        };
                        let checks_ok = sub.status == Status::Active && curr_epoch + old(st)@.check_period <= u64::MAX && !chain_bad_epoch && !chain_bad_link
                            && !crate::checkpoint::has_child_cid(
                            w0.data.children,
                            commit@.data.source,
                            c,
                        );
                        &&& (sub.status != Status::Active ==> (r matches Err(e) && e
                            is IllegalState && final(st)@ == old(st)@))
                        &&& (sub.status == Status::Active && curr_epoch + old(st)@.check_period
                            > u64::MAX ==> (r matches Err(e) && e is IllegalArgument
                            && final(st)@ == old(st)@))
                        &&& (sub.status == Status::Active && curr_epoch + old(st)@.check_period
                            <= u64::MAX && chain_bad_epoch ==> (r matches Err(e) && e
                            is IllegalArgument && final(st)@ == old(st)@))
                        &&& (sub.status == Status::Active && curr_epoch + old(st)@.check_period
                            <= u64::MAX && chain_bad_link ==> (r matches Err(e) && e
                            is IllegalArgument && final(st)@ == old(st)@))
                        &&& (sub.status == Status::Active && curr_epoch + old(st)@.check_period
                            <= u64::MAX && !chain_bad_epoch && !chain_bad_link
                            && crate::checkpoint::has_child_cid(
                            w0.data.children,
                            commit@.data.source,
                            c,
                        ) ==> (r matches Err(e) && e is IllegalArgument
                            && final(st)@ == old(st)@))
                        &&& (checks_ok ==> (r matches Err(e) ==> e is IllegalState))
                        &&& (checks_ok && (has_msgs ==> total <= sub.circ_supply
                            && old(st)@.bottomup_nonce < u64::MAX && total <= u128::MAX
                            && spec_apply_list(old(st)@, msgs, current_balance) is Some)
                            ==> r is Ok)
                        &&& (r matches Ok(ts) ==> {
                            &&& checks_ok
                            &&& total <= sub.circ_supply
                            &&& (exists|kk: int|
                                {
                                    &&& 0 <= kk < old(st)@.subnets.len()
                                    &&& old(st)@.subnets[kk] == sub
                                    &&& #[trigger] old(st)@.subnets[kk].id == shid
                                    &&& final(st)@ == (StateView {
                                        subnets: old(st)@.subnets.update(
                                            kk,
                                            SubnetView {
                                                circ_supply: (sub.circ_supply - total) as u128,
                                                prev_checkpoint: Some(commit@),
                                                ..sub
                                            },
                                        ),
                                        checkpoints: final(st)@.checkpoints,
                                        bottomup_msg_meta: final(st)@.bottomup_msg_meta,
                                        bottomup_nonce: final(st)@.bottomup_nonce,
                                        postbox: final(st)@.postbox,
                                        applied_bottomup_nonce: final(st)@.applied_bottomup_nonce,
                                        applied_topdown_nonce: final(st)@.applied_topdown_nonce,
                                        ..old(st)@
                                    })
                                })
                            &&& (!has_msgs ==> final(st)@.bottomup_msg_meta == old(st)@.bottomup_msg_meta && final(st)@.bottomup_nonce == old(st)@.bottomup_nonce && final(st)@.postbox == old(st)@.postbox
                                && final(st)@.applied_bottomup_nonce == old(st)@.applied_bottomup_nonce && final(st)@.applied_topdown_nonce == old(st)@.applied_topdown_nonce)
                            &&& (has_msgs ==> final(st)@.bottomup_nonce == old(st)@.bottomup_nonce + 1 && final(st)@.bottomup_msg_meta == old(st)@.bottomup_msg_meta.push(
                                crate::checkpoint::CrossMsgMetaView {
                                    from: old(st)@.network_name,
                                    to: if old(st)@.network_name.len() > 1 {
                                        old(st)@.network_name.drop_last()
                                    } else {
                                        old(st)@.network_name
                                    },
                                    msgs_cid: crate::hash::cid_of(
                                        crate::codec::enc_cross_msg_list(msgs),
                                    ),
                                    nonce: old(st)@.bottomup_nonce,
                                    value: total as u128,
                                },
                            ))
                            &&& (match crate::state::checkpoint_of(final(st)@.checkpoints, wep) {
                                Some(w) => crate::checkpoint::has_child_cid(
                                    w.data.children,
                                    commit@.data.source,
                                    c,
                                ),
                                None => false,
                            })
                            &&& (match subnet_of(final(st)@.subnets, shid) {
                                Some(s2) => s2.prev_checkpoint == Some(commit@),
                                None => false,
                            })
                            &&& (commit@.data.cross_msgs.fee > 0 ==> ts@.len() > 0
                                && ts@.last()@ == fee_reward(
                                caller,
                                commit@.data.cross_msgs.fee,
                            ))
                            &&& (match spec_apply_list(old(st)@, msgs, current_balance) {
                                Some(p) => {
                                    &&& final(st)@.postbox == p.0.postbox
                                    &&& final(st)@.applied_bottomup_nonce
                                        == p.0.applied_bottomup_nonce
                                    &&& final(st)@.applied_topdown_nonce
                                        == p.0.applied_topdown_nonce
                                    &&& ts@.map_values(|t: Transfer| t@) == p.1 + (
                                    if commit@.data.cross_msgs.fee > 0 {
                                        seq![
                                            fee_reward(caller, commit@.data.cross_msgs.fee),
                                        ]
                                    } else {
                                        Seq::<TransferView>::empty()
                                    })
                                },
                                None => false,
                            })
                        })
                    }),
                    None => true,
                })
            }),
            r matches Err(e) ==> final(st)@ == old(st)@,
            final(st)@.wf(),
    {
        let backup = st.clone();
        match Self::commit_child_check_inner(st, caller, commit, curr_epoch, current_balance) {
            Ok(ts) => Ok(ts),
            Err(e) => {
                *st = backup;
                Err(e)
            },
        }
    }

    #[verifier::rlimit(100)]
    #[verifier::spinoff_prover]
    fn commit_child_check_inner(
        st: &mut State,
        caller: u64,
        commit: &Checkpoint,
        curr_epoch: u64,
        current_balance: u128,
    ) -> (r: Result<Vec<Transfer>, Error>)
        requires
            old(st)@.wf(),
        ensures
            ({
                let shid = old(st)@.network_name.push(caller);
                let wep = crate::state::spec_window_epoch(curr_epoch, old(st)@.check_period);
                let w0 = crate::state::spec_window(old(st)@, wep);
                let c = commit.spec_cid();
                &&& (r matches Err(e) ==> (e is IllegalArgument || e is IllegalState))
                &&& (commit@.data.source.len() == 0 ==> (r matches Err(e) && e
                    is IllegalArgument && final(st)@ == old(st)@))
                &&& (commit@.data.source.len() > 0 && commit@.data.source.last() != caller ==> (r
                    matches Err(e) && e is IllegalArgument && final(st)@ == old(st)@))
                &&& (commit@.data.source.len() > 0 && commit@.data.source.last() == caller
                    && subnet_of(old(st)@.subnets, shid) is None ==> (r matches Err(e) && e
                    is IllegalArgument && final(st)@ == old(st)@))
                &&& (match subnet_of(old(st)@.subnets, shid) {
                    Some(sub) => (commit@.data.source.len() > 0 && commit@.data.source.last()
                        == caller) ==> ({
                        let msgs = commit@.data.cross_msgs.msgs_or_empty();
                        let has_msgs = msgs.len() > 0;
                        let total = crate::checkpoint::sum_of_values(msgs);
                        let chain_bad_epoch = match sub.prev_checkpoint {
                            Some(p) => commit@.data.epoch <= p.data.epoch,
                            None => false,
                        };
                        let chain_bad_link = match sub.prev_checkpoint {
                            Some(p) => commit@.data.epoch > p.data.epoch
                                && commit@.data.prev_check != crate::hash::cid_of(
                                crate::codec::enc_check_data(p.data),
                            ),
                            None => false,
                        };
                        let checks_ok = sub.status == Status::Active && curr_epoch + old(st)@.check_period <= u64::MAX && !chain_bad_epoch && !chain_bad_link
                            && !crate::checkpoint::has_child_cid(
                            w0.data.children,
                            commit@.data.source,
                            c,
                        );
                        &&& (sub.status != Status::Active ==> (r matches Err(e) && e
                            is IllegalState && final(st)@ == old(st)@))
                        &&& (sub.status == Status::Active && curr_epoch + old(st)@.check_period
                            > u64::MAX ==> (r matches Err(e) && e is IllegalArgument
                            && final(st)@ == old(st)@))
                        &&& (sub.status == Status::Active && curr_epoch + old(st)@.check_period
                            <= u64::MAX && chain_bad_epoch ==> (r matches Err(e) && e
                            is IllegalArgument && final(st)@ == old(st)@))
                        &&& (sub.status == Status::Active && curr_epoch + old(st)@.check_period
                            <= u64::MAX && chain_bad_link ==> (r matches Err(e) && e
                            is IllegalArgument && final(st)@ == old(st)@))
                        &&& (sub.status == Status::Active && curr_epoch + old(st)@.check_period
                            <= u64::MAX && !chain_bad_epoch && !chain_bad_link
                            && crate::checkpoint::has_child_cid(
                            w0.data.children,
                            commit@.data.source,
                            c,
                        ) ==> (r matches Err(e) && e is IllegalArgument
                            && final(st)@ == old(st)@))
                        &&& (checks_ok ==> (r matches Err(e) ==> e is IllegalState))
                        &&& (checks_ok && (has_msgs ==> total <= sub.circ_supply
                            && old(st)@.bottomup_nonce < u64::MAX && total <= u128::MAX
                            && spec_apply_list(old(st)@, msgs, current_balance) is Some)
                            ==> r is Ok)
                        &&& (r matches Ok(ts) ==> {
                            &&& checks_ok
                            &&& total <= sub.circ_supply
                            &&& (exists|kk: int|
                                {
                                    &&& 0 <= kk < old(st)@.subnets.len()
                                    &&& old(st)@.subnets[kk] == sub
                                    &&& #[trigger] old(st)@.subnets[kk].id == shid
                                    &&& final(st)@ == (StateView {
                                        subnets: old(st)@.subnets.update(
                                            kk,
                                            SubnetView {
                                                circ_supply: (sub.circ_supply - total) as u128,
                                                prev_checkpoint: Some(commit@),
                                                ..sub
                                            },
                                        ),
                                        checkpoints: final(st)@.checkpoints,
                                        bottomup_msg_meta: final(st)@.bottomup_msg_meta,
                                        bottomup_nonce: final(st)@.bottomup_nonce,
                                        postbox: final(st)@.postbox,
                                        applied_bottomup_nonce: final(st)@.applied_bottomup_nonce,
                                        applied_topdown_nonce: final(st)@.applied_topdown_nonce,
                                        ..old(st)@
                                    })
                                })
                            &&& (!has_msgs ==> final(st)@.bottomup_msg_meta == old(st)@.bottomup_msg_meta && final(st)@.bottomup_nonce == old(st)@.bottomup_nonce && final(st)@.postbox == old(st)@.postbox
                                && final(st)@.applied_bottomup_nonce == old(st)@.applied_bottomup_nonce && final(st)@.applied_topdown_nonce == old(st)@.applied_topdown_nonce)
                            &&& (has_msgs ==> final(st)@.bottomup_nonce == old(st)@.bottomup_nonce + 1 && final(st)@.bottomup_msg_meta == old(st)@.bottomup_msg_meta.push(
                                crate::checkpoint::CrossMsgMetaView {
                                    from: old(st)@.network_name,
                                    to: if old(st)@.network_name.len() > 1 {
                                        old(st)@.network_name.drop_last()
                                    } else {
                                        old(st)@.network_name
                                    },
                                    msgs_cid: crate::hash::cid_of(
                                        crate::codec::enc_cross_msg_list(msgs),
                                    ),
                                    nonce: old(st)@.bottomup_nonce,
                                    value: total as u128,
                                },
                            ))
                            &&& (match crate::state::checkpoint_of(final(st)@.checkpoints, wep) {
                                Some(w) => crate::checkpoint::has_child_cid(
                                    w.data.children,
                                    commit@.data.source,
                                    c,
                                ),
                                None => false,
                            })
                            &&& (match subnet_of(final(st)@.subnets, shid) {
                                Some(s2) => s2.prev_checkpoint == Some(commit@),
                                None => false,
                            })
                            &&& (commit@.data.cross_msgs.fee > 0 ==> ts@.len() > 0
                                && ts@.last()@ == fee_reward(
                                caller,
                                commit@.data.cross_msgs.fee,
                            ))
                            &&& (match spec_apply_list(old(st)@, msgs, current_balance) {
                                Some(p) => {
                                    &&& final(st)@.postbox == p.0.postbox
                                    &&& final(st)@.applied_bottomup_nonce
                                        == p.0.applied_bottomup_nonce
                                    &&& final(st)@.applied_topdown_nonce
                                        == p.0.applied_topdown_nonce
                                    &&& ts@.map_values(|t: Transfer| t@) == p.1 + (
                                    if commit@.data.cross_msgs.fee > 0 {
                                        seq![
                                            fee_reward(caller, commit@.data.cross_msgs.fee),
                                        ]
                                    } else {
                                        Seq::<TransferView>::empty()
                                    })
                                },
                                None => false,
                            })
                        })
                    }),
                    None => true,
                })
            }),
            final(st)@.wf(),
    {
        if commit.source().len() == 0 {
            return Err(Error::IllegalArgument("checkpoint source is undefined"));
        }
        if commit.source().subnet_actor() != caller {
            return Err(Error::IllegalArgument("source in checkpoint doesn't belong to subnet"));
        }
        let shid = SubnetID::new_from_parent(&st.network_name, caller);
        let ghost views0 = st@.subnets;
        let k = match crate::state::find_subnet(&st.subnets, &shid) {
            Some(k) => k,
            None => {
                proof {
                    crate::state::lemma_subnet_of_first(views0, shid@, views0.len() as int);
                }
                return Err(Error::IllegalArgument("subnet with id not registered"));
            },
        };
        proof {
            crate::state::lemma_subnet_of_first(views0, shid@, k as int);
        }
        if !matches!(st.subnets[k].status, Status::Active) {
            return Err(Error::IllegalState("can't commit checkpoint for an inactive subnet"));
        }
        let mut ch = match st.get_window_checkpoint(curr_epoch) {
            Ok(c) => c,
            Err(e) => {
                return Err(e);
            },
        };
        let ghost wep = crate::state::spec_window_epoch(curr_epoch, old(st)@.check_period);
        proof {
            if crate::state::checkpoint_of(old(st)@.checkpoints, wep) is Some {
                crate::state::lemma_checkpoint_of_epoch(old(st)@.checkpoints, wep);
            }
            assert(ch@.data.epoch == wep);
        }
        // Chain checks against the child's previous commitment: the epoch must
        // grow strictly and the link must name the predecessor's content id.
        match &st.subnets[k].prev_checkpoint {
            Some(prev) => {
                if prev.epoch() >= commit.epoch() {
                    return Err(Error::IllegalArgument(
                        "checkpoint being committed belongs to the past",
                    ));
                }
                let prev_cid = prev.cid();
                if commit.prev_check() != &prev_cid {
                    proof {
                        assert(commit@.data.prev_check != crate::hash::cid_of(
                            crate::codec::enc_check_data(prev@.data),
                        )) by {
                            if commit@.data.prev_check == prev_cid@ {
                                assert(commit@.data.prev_check =~= prev_cid@);
                            }
                        }
                    }
                    return Err(Error::IllegalArgument(
                        "previous checkpoint not consistent with previous one",
                    ));
                }
                proof {
                    assert(commit@.data.prev_check =~= prev_cid@);
                    assert(views0[k as int].prev_checkpoint == Some(prev@));
                    assert(commit@.data.epoch > prev@.data.epoch);
                    assert(commit@.data.prev_check == crate::hash::cid_of(
                        crate::codec::enc_check_data(prev@.data),
                    ));
                }
            },
            None => {
                proof {
                    assert(views0[k as int].prev_checkpoint is None);
                }
            },
        }
        proof {
            let subg = views0[k as int];
            assert(!(match subg.prev_checkpoint {
                Some(p) => commit@.data.epoch <= p.data.epoch,
                None => false,
            }));
            assert(!(match subg.prev_checkpoint {
                Some(p) => commit@.data.epoch > p.data.epoch && commit@.data.prev_check
                    != crate::hash::cid_of(crate::codec::enc_check_data(p.data)),
                None => false,
            }));
        }
        // Record the commitment in the window checkpoint; a repeated content
        // id is refused before anything has moved.
        match ch.add_child_check(commit) {
            Ok(_) => (),
            Err(e) => {
                return Err(e);
            },
        }
        // The batch of bottom-up messages the child declares.
        let ghost g0 = old(st)@;
        let ghost mviews = commit@.data.cross_msgs.msgs_or_empty();
        let mut total_value: u128 = 0;
        let has_msgs: bool = match &commit.cross_msgs().cross_msgs {
            Some(l) => l.len() > 0,
            None => false,
        };
        if has_msgs {
            match st.store_bottomup_msg(commit.cross_msgs()) {
                Ok(_) => (),
                Err(e) => {
                    return Err(e);
                },
            }
            let msgs: &Vec<CrossMsg> = match &commit.cross_msgs().cross_msgs {
                Some(l) => l,
                None => {
                    proof {
                        assert(false);
                    }
                    return Err(Error::IllegalState("missing batch"));
                },
            };
            proof {
                assert(msgs@.map_values(|c: CrossMsg| c@) =~= mviews);
            }
            let mut i: usize = 0;
            while i < msgs.len()
                invariant
                    i <= msgs.len(),
                    st@.wf(),
                    mviews == msgs@.map_values(|c: CrossMsg| c@),
                    crate::checkpoint::sum_of_values(mviews) <= u128::MAX,
                    total_value == crate::checkpoint::sum_of_values(
                        mviews.subrange(0, i as int),
                    ),
                decreases msgs.len() - i,
            {
                if total_value > u128::MAX - msgs[i].msg.value {
                    proof {
                        let cur = mviews.subrange(0, i as int + 1);
                        assert(cur.drop_last() =~= mviews.subrange(0, i as int));
                        assert(cur.last() == mviews[i as int]);
                        crate::checkpoint::lemma_sum_values_prefix(mviews, i as int + 1);
                        assert(false);
                    }
                    return Err(Error::IllegalState("batch value overflows"));
                }
                total_value = total_value + msgs[i].msg.value;
                i = i + 1;
                proof {
                    let pre = mviews.subrange(0, i as int - 1);
                    let cur = mviews.subrange(0, i as int);
                    assert(cur.drop_last() =~= pre);
                    assert(cur.last() == mviews[i as int - 1]);
                }
            }
            proof {
                assert(mviews.subrange(0, mviews.len() as int) =~= mviews);
            }
        } else {
            proof {
                assert(mviews.len() == 0);
                assert(total_value == crate::checkpoint::sum_of_values(mviews));
            }
        }
        let ghost mid1 = st@;
        proof {
            assert(total_value == crate::checkpoint::sum_of_values(mviews));
            if !has_msgs {
                assert(mid1 == g0);
            }
        }
        // Release the batch value from the child's circulating supply and
        // chain the commitment.
        let ghost views1 = st@.subnets;
        proof {
            assert(views1 == views0);
        }
        let mut sub = st.subnets.remove(k);
        match sub.release_supply(total_value) {
            Ok(_) => (),
            Err(e) => {
                st.subnets.insert(k, sub);
                proof {
                    assert(st@.subnets =~= views1);
                    assert(st@ =~= mid1);
                }
                return Err(e);
            },
        }
        sub.prev_checkpoint = Some(commit.clone());
        st.subnets.insert(k, sub);
        proof {
            let subg = views0[k as int];
            assert(st@.subnets[k as int] =~~= (SubnetView {
                circ_supply: (subg.circ_supply - total_value) as u128,
                prev_checkpoint: Some(commit@),
                ..subg
            }));
            assert(st@.subnets =~= views0.update(
                k as int,
                SubnetView {
                    circ_supply: (subg.circ_supply - total_value) as u128,
                    prev_checkpoint: Some(commit@),
                    ..subg
                },
            ));
            assert(st@ =~= (StateView { subnets: st@.subnets, ..mid1 }));
            assert(st@.subnets[k as int].prev_checkpoint == Some(commit@));
            assert(st@.subnets[k as int].id == shid@);
            assert forall|i: int| 0 <= i < st@.subnets.len() implies (
            #[trigger] st@.subnets[i]).wf() by {
                if i != k {
                    assert(st@.subnets[i] == views1[i]);
                }
            }
        }
        let ghost mid2 = st@;
        proof {
            assert(mid2.network_name == old(st)@.network_name);
            assert(mid2.postbox == old(st)@.postbox);
            assert(mid2.applied_bottomup_nonce == old(st)@.applied_bottomup_nonce);
            assert(mid2.applied_topdown_nonce == old(st)@.applied_topdown_nonce);
        }
        // Apply the batch: local messages execute, others go to the postbox.
        let mut ts: Vec<Transfer> = Vec::new();
        if has_msgs {
            let msgs = match &commit.cross_msgs().cross_msgs {
                Some(l) => l.clone(),
                None => {
                    proof {
                        assert(false);
                    }
                    return Err(Error::IllegalState("missing batch"));
                },
            };
            proof {
                assert(msgs@.map_values(|c: CrossMsg| c@) =~= mviews);
                crate::gateway::lemma_apply_list_frame(mid2, old(st)@, mviews, current_balance);
            }
            let mut t1 = match Self::apply_cross_msgs(st, &msgs, current_balance) {
                Ok(t) => t,
                Err(e) => {
                    return Err(e);
                },
            };
            ts.append(&mut t1);
            proof {
                let p0 = spec_apply_list(old(st)@, mviews, current_balance)->Some_0;
                assert(ts@.map_values(|t: Transfer| t@) =~= p0.1);
                assert(st@.postbox == p0.0.postbox);
                assert(st@.applied_bottomup_nonce == p0.0.applied_bottomup_nonce);
                assert(st@.applied_topdown_nonce == p0.0.applied_topdown_nonce);
            }
        } else {
            proof {
                assert(spec_apply_list(old(st)@, mviews, current_balance) == Some(
                    (old(st)@, Seq::<TransferView>::empty()),
                ));
                assert(ts@.map_values(|t: Transfer| t@) =~= Seq::<TransferView>::empty());
            }
        }
        proof {
            assert(st@ =~= (StateView {
                postbox: st@.postbox,
                applied_bottomup_nonce: st@.applied_bottomup_nonce,
                applied_topdown_nonce: st@.applied_topdown_nonce,
                ..mid2
            }));
        }
        // Store the window checkpoint holding the new commitment.
        let ghost chv = ch@;
        st.flush_checkpoint(ch);
        proof {
            assert(crate::state::checkpoint_of(st@.checkpoints, wep) == Some(chv));
            assert(crate::checkpoint::has_child_cid(
                chv.data.children,
                commit@.data.source,
                commit.spec_cid(),
            )) by {
                let src = commit@.data.source;
                let c = commit.spec_cid();
                let ch0 = crate::state::spec_window(old(st)@, wep).data.children;
                if crate::checkpoint::has_source(ch0, src) {
                    let i = choose|i: int|
                        {
                            &&& 0 <= i < ch0.len()
                            &&& ch0[i].source == src
                            &&& (forall|j: int| 0 <= j < i ==> ch0[j].source != src)
                            &&& chv.data.children == ch0.update(
                                i,
                                crate::checkpoint::ChildCheckView {
                                    source: src,
                                    checks: ch0[i].checks.push(c),
                                },
                            )
                        };
                    assert(chv.data.children[i].checks.contains(c)) by {
                        assert(chv.data.children[i].checks.last() == c);
                    }
                } else {
                    let i = chv.data.children.len() - 1;
                    assert(chv.data.children[i].checks.contains(c)) by {
                        assert(chv.data.children[i].checks[0] == c);
                    }
                }
            }
            assert(subnet_of(st@.subnets, shid@) == Some(st@.subnets[k as int])) by {
                assert(forall|j: int| 0 <= j < k ==> st@.subnets[j].id != shid@);
                crate::state::lemma_subnet_of_first(st@.subnets, shid@, k as int);
            }
        }
        // Reward the declared fee to the committing subnet actor.
        let ghost tsv_pre = ts@.map_values(|t: Transfer| t@);
        if commit.cross_msgs().fee > 0 {
            let params: Vec<u8> = Vec::new();
            proof {
                assert(params@ =~= Seq::<u8>::empty());
            }
            ts.push(Transfer {
                to: caller,
                method: SUBNET_ACTOR_REWARD_METHOD,
                params,
                value: commit.cross_msgs().fee,
            });
            proof {
                assert(ts@.map_values(|t: Transfer| t@) =~= tsv_pre + seq![
                    fee_reward(caller, commit@.data.cross_msgs.fee),
                ]);
            }
        } else {
            proof {
                assert(ts@.map_values(|t: Transfer| t@) =~= tsv_pre
                    + Seq::<TransferView>::empty());
            }
        }
        Ok(ts)
    }
}

} // verus!

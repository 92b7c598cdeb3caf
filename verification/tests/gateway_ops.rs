use ipc_gateway::CROSS_MSG_FEE;
use ipc_gateway::DEFAULT_CHECKPOINT_PERIOD;
use ipc_gateway::METHOD_SEND;
use ipc_gateway::SUBNET_ACTOR_REWARD_METHOD;
use ipc_gateway::address::IPCAddress;
use ipc_gateway::checkpoint::{BatchCrossMsgs, Checkpoint, ChildCheck};
use ipc_gateway::cross::{CrossMsg, StorableMsg};
use ipc_gateway::error::Error;
use ipc_gateway::gateway::Actor;
use ipc_gateway::state::{ConstructorParams, PostBoxItem, State};
use ipc_gateway::subnet::Status;
use ipc_gateway::subnet_id::SubnetID;

const SUBNET_ONE: u64 = 101;
const SUBNET_TWO: u64 = 102;
const SUBNET_THR: u64 = 103;
const GENESIS: u64 = 0;
const CRON_PERIOD: u64 = 10;
const BIG_BALANCE: u128 = 1_000_000_000_000_000_000_000_000;

fn rootnet() -> SubnetID {
    SubnetID::rootnet()
}

fn path(ids: &[u64]) -> SubnetID {
    let mut s = SubnetID::rootnet();
    for id in ids {
        s = SubnetID::new_from_parent(&s, *id);
    }
    s
}

fn setup(net: SubnetID) -> State {
    Actor::constructor(ConstructorParams {
        network_name: net,
        checkpoint_period: 0,
        genesis_epoch: GENESIS,
        cron_period: CRON_PERIOD,
    })
    .unwrap()
}

fn setup_root() -> State {
    setup(rootnet())
}

fn get_subnet(st: &State, id: &SubnetID) -> Option<ipc_gateway::subnet::Subnet> {
    st.get_subnet(id).unwrap()
}

fn has_childcheck_source<'a>(children: &'a Vec<ChildCheck>, source: &SubnetID) -> Option<&'a ChildCheck> {
    children.iter().find(|c| &c.source == source)
}

fn has_cid(checks: &Vec<Vec<u8>>, cid: &Vec<u8>) -> bool {
    checks.iter().any(|c| c == cid)
}

fn storable(from: IPCAddress, to: IPCAddress, value: u128, nonce: u64) -> StorableMsg {
    StorableMsg { from, to, method: METHOD_SEND, params: Vec::new(), value, nonce }
}

#[test]
fn gateway_test_construct() {
    let st = setup_root();
    assert_eq!(st.total_subnets, 0);
    assert_eq!(st.check_period, DEFAULT_CHECKPOINT_PERIOD);
    assert_eq!(st.applied_bottomup_nonce, u64::MAX);
    assert_eq!(st.last_cron_executed_epoch, GENESIS);
}

#[test]
fn gateway_test_register_subnet() {
    let mut st = setup_root();

    // Register a subnet with 1FIL collateral
    let mut value: u128 = 10u128.pow(18);
    Actor::register(&mut st, SUBNET_ONE, value).unwrap();

    assert_eq!(st.total_subnets, 1);
    let shid = SubnetID::new_from_parent(&rootnet(), SUBNET_ONE);
    let subnet = get_subnet(&st, &shid).unwrap();
    assert_eq!(subnet.id, shid);
    assert_eq!(subnet.stake, value);
    assert_eq!(subnet.circ_supply, 0);
    assert!(matches!(subnet.status, Status::Active));

    // Registering an already existing subnet should fail
    let r = Actor::register(&mut st, SUBNET_ONE, value);
    assert!(matches!(r, Err(Error::IllegalArgument(_))));
    assert_eq!(st.total_subnets, 1);

    // Registering without enough collateral
    value = 10u128.pow(17);
    let r = Actor::register(&mut st, SUBNET_TWO, value);
    assert!(matches!(r, Err(Error::IllegalArgument(_))));
    assert_eq!(st.total_subnets, 1);

    // Register an additional subnet
    value = 12u128.pow(18);
    Actor::register(&mut st, SUBNET_TWO, value).unwrap();
    assert_eq!(st.total_subnets, 2);
    let shid = SubnetID::new_from_parent(&rootnet(), SUBNET_TWO);
    let subnet = get_subnet(&st, &shid).unwrap();
    assert_eq!(subnet.id, shid);
    assert_eq!(subnet.stake, value);
    assert_eq!(subnet.circ_supply, 0);
    assert!(matches!(subnet.status, Status::Active));
}

#[test]
fn gateway_test_add_stake() {
    let mut st = setup_root();

    let value: u128 = 10u128.pow(18);
    Actor::register(&mut st, SUBNET_ONE, value).unwrap();
    let shid = SubnetID::new_from_parent(&rootnet(), SUBNET_ONE);

    // Add some stake
    Actor::add_stake(&mut st, SUBNET_ONE, value).unwrap();
    let subnet = get_subnet(&st, &shid).unwrap();
    assert_eq!(subnet.stake, value * 2);

    // Add to unregistered subnet
    let r = Actor::add_stake(&mut st, SUBNET_TWO, value);
    assert!(matches!(r, Err(Error::IllegalArgument(_))));

    // Add with zero value
    let r = Actor::add_stake(&mut st, SUBNET_ONE, 0);
    assert!(matches!(r, Err(Error::IllegalArgument(_))));
}

#[test]
fn gateway_test_release_stake() {
    let mut st = setup_root();

    let value: u128 = 10u128.pow(18);
    Actor::register(&mut st, SUBNET_ONE, value).unwrap();
    let shid = SubnetID::new_from_parent(&rootnet(), SUBNET_ONE);

    Actor::add_stake(&mut st, SUBNET_ONE, value).unwrap();

    // Release some stake
    let t = Actor::release_stake(&mut st, SUBNET_ONE, value, BIG_BALANCE).unwrap();
    assert_eq!(t.to, SUBNET_ONE);
    assert_eq!(t.method, METHOD_SEND);
    assert_eq!(t.value, value);
    let subnet = get_subnet(&st, &shid).unwrap();
    assert_eq!(subnet.stake, value);
    assert!(matches!(subnet.status, Status::Active));

    // Release from unregistered subnet
    let r = Actor::release_stake(&mut st, SUBNET_TWO, value, BIG_BALANCE);
    assert!(matches!(r, Err(Error::IllegalArgument(_))));

    // Release with zero value
    let r = Actor::release_stake(&mut st, SUBNET_ONE, 0, BIG_BALANCE);
    assert!(matches!(r, Err(Error::IllegalArgument(_))));

    // Release enough to inactivate
    let small: u128 = 5u128.pow(17);
    Actor::release_stake(&mut st, SUBNET_ONE, small, 2 * value).unwrap();
    let subnet = get_subnet(&st, &shid).unwrap();
    assert_eq!(subnet.stake, value - small);
    assert!(matches!(subnet.status, Status::Inactive));

    // Not enough staked funds to release
    let r = Actor::release_stake(&mut st, SUBNET_ONE, value, BIG_BALANCE);
    assert!(matches!(r, Err(Error::IllegalState(_))));

    // Balance is not enough to release
    let r = Actor::release_stake(&mut st, SUBNET_ONE, small, 0);
    assert!(matches!(r, Err(Error::IllegalState(_))));
}

#[test]
fn gateway_test_test_kill() {
    let mut st = setup_root();

    let value: u128 = 10u128.pow(18);
    Actor::register(&mut st, SUBNET_ONE, value).unwrap();
    let shid = SubnetID::new_from_parent(&rootnet(), SUBNET_ONE);
    assert_eq!(st.total_subnets, 1);

    let t = Actor::kill(&mut st, SUBNET_ONE, BIG_BALANCE).unwrap();
    assert_eq!(t.value, value);
    assert_eq!(st.total_subnets, 0);
    assert!(get_subnet(&st, &shid).is_none());
}

#[test]
fn kill_rejected_with_circulating_supply() {
    let mut st = setup_root();

    let value: u128 = 10u128.pow(18);
    Actor::register(&mut st, SUBNET_ONE, value).unwrap();
    let shid = SubnetID::new_from_parent(&rootnet(), SUBNET_ONE);

    // Give the subnet one atto of circulating supply.
    Actor::fund(&mut st, 1001, &shid, CROSS_MSG_FEE + 1).unwrap();
    let before = get_subnet(&st, &shid).unwrap();
    assert_eq!(before.circ_supply, 1);

    let r = Actor::kill(&mut st, SUBNET_ONE, BIG_BALANCE);
    assert!(matches!(r, Err(Error::IllegalState(_))));
    // State unchanged: subnet still registered with its supply.
    let after = get_subnet(&st, &shid).unwrap();
    assert_eq!(after.circ_supply, 1);
    assert_eq!(st.total_subnets, 1);
}

#[test]
fn gateway_test_checkpoint_commit() {
    let mut st = setup_root();

    let value: u128 = 10u128.pow(18);
    Actor::register(&mut st, SUBNET_ONE, value).unwrap();
    let shid = SubnetID::new_from_parent(&rootnet(), SUBNET_ONE);

    // Commit first checkpoint for the first window in the first subnet
    let epoch: u64 = 10;
    let ch = Checkpoint::new(shid.clone(), epoch + 9);
    Actor::commit_child_check(&mut st, SUBNET_ONE, &ch, epoch, BIG_BALANCE).unwrap();
    let commit = st.get_window_checkpoint(epoch).unwrap();
    assert_eq!(commit.epoch(), DEFAULT_CHECKPOINT_PERIOD);
    let child_check = has_childcheck_source(&commit.data.children, &shid).unwrap();
    assert_eq!(child_check.checks.len(), 1);
    assert!(has_cid(&child_check.checks, &ch.cid()));

    // Committing the same checkpoint for the subnet twice fails
    let r = Actor::commit_child_check(&mut st, SUBNET_ONE, &ch, epoch, BIG_BALANCE);
    assert!(matches!(r, Err(Error::IllegalArgument(_))));
    let prev_cid = ch.cid();

    // Append a new checkpoint for the same subnet
    let mut ch2 = Checkpoint::new(shid.clone(), epoch + 11);
    ch2.data.prev_check = prev_cid;
    Actor::commit_child_check(&mut st, SUBNET_ONE, &ch2, epoch, BIG_BALANCE).unwrap();
    let commit = st.get_window_checkpoint(epoch).unwrap();
    assert_eq!(commit.epoch(), DEFAULT_CHECKPOINT_PERIOD);
    let child_check = has_childcheck_source(&commit.data.children, &shid).unwrap();
    assert_eq!(child_check.checks.len(), 2);
    assert!(has_cid(&child_check.checks, &ch2.cid()));

    // Register a second subnet
    Actor::register(&mut st, SUBNET_TWO, value).unwrap();
    assert_eq!(st.total_subnets, 2);
    let shid_two = SubnetID::new_from_parent(&rootnet(), SUBNET_TWO);

    // Trying to commit from the wrong subnet
    let ch = Checkpoint::new(shid.clone(), epoch + 9);
    let r = Actor::commit_child_check(&mut st, SUBNET_TWO, &ch, epoch, BIG_BALANCE);
    assert!(matches!(r, Err(Error::IllegalArgument(_))));

    // Commit first checkpoint for the first window in the second subnet
    let ch = Checkpoint::new(shid_two.clone(), epoch + 9);
    Actor::commit_child_check(&mut st, SUBNET_TWO, &ch, epoch, BIG_BALANCE).unwrap();
    let commit = st.get_window_checkpoint(epoch).unwrap();
    assert_eq!(commit.epoch(), DEFAULT_CHECKPOINT_PERIOD);
    let child_check = has_childcheck_source(&commit.data.children, &shid_two).unwrap();
    assert_eq!(child_check.checks.len(), 1);
    assert!(has_cid(&child_check.checks, &ch.cid()));
}

#[test]
fn gateway_test_checkpoint_crossmsgs() {
    let mut st = setup_root();

    let value: u128 = 10u128.pow(18);
    Actor::register(&mut st, SUBNET_ONE, value).unwrap();
    let shid = SubnetID::new_from_parent(&rootnet(), SUBNET_ONE);

    // Fund the subnet
    let amount: u128 = 10u128.pow(18);
    Actor::fund(&mut st, 1001, &shid, amount).unwrap();

    // Commit a checkpoint that declares a fee but carries no messages
    let epoch: u64 = 10;
    let mut ch = Checkpoint::new(shid.clone(), epoch + 9);
    let fee: u128 = 5;
    ch.data.cross_msgs = BatchCrossMsgs { cross_msgs: None, fee };

    let ts = Actor::commit_child_check(&mut st, SUBNET_ONE, &ch, epoch, BIG_BALANCE).unwrap();
    assert_eq!(ts.len(), 1);
    assert_eq!(ts[0].to, SUBNET_ONE);
    assert_eq!(ts[0].method, SUBNET_ACTOR_REWARD_METHOD);
    assert_eq!(ts[0].value, fee);

    let commit = st.get_window_checkpoint(epoch).unwrap();
    assert_eq!(commit.epoch(), DEFAULT_CHECKPOINT_PERIOD);
    let child_check = has_childcheck_source(&commit.data.children, &shid).unwrap();
    assert_eq!(child_check.checks.len(), 1);
    assert!(has_cid(&child_check.checks, &ch.cid()));
}

#[test]
fn gateway_test_test_fund() {
    let mut st = setup_root();

    let value: u128 = 10u128.pow(18);
    Actor::register(&mut st, SUBNET_ONE, value).unwrap();
    let shid = SubnetID::new_from_parent(&rootnet(), SUBNET_ONE);

    let amount: u128 = 10u128.pow(18);
    let t = Actor::fund(&mut st, 1001, &shid, amount).unwrap();
    assert_eq!(t.to, SUBNET_ONE);
    assert_eq!(t.method, SUBNET_ACTOR_REWARD_METHOD);
    assert_eq!(t.value, CROSS_MSG_FEE);
    let sub = get_subnet(&st, &shid).unwrap();
    assert_eq!(sub.topdown_nonce, 1);
    assert_eq!(sub.circ_supply, amount - CROSS_MSG_FEE);

    Actor::fund(&mut st, 1002, &shid, amount).unwrap();
    let sub = get_subnet(&st, &shid).unwrap();
    assert_eq!(sub.topdown_nonce, 2);
    assert_eq!(sub.circ_supply, 2 * (amount - CROSS_MSG_FEE));

    Actor::fund(&mut st, 1002, &shid, amount).unwrap();
    let sub = get_subnet(&st, &shid).unwrap();
    assert_eq!(sub.topdown_nonce, 3);
    assert_eq!(sub.circ_supply, 3 * (amount - CROSS_MSG_FEE));

    // No funds sent
    let r = Actor::fund(&mut st, 1002, &shid, 0);
    assert!(matches!(r, Err(Error::IllegalArgument(_))));

    // Subnet doesn't exist
    let other = SubnetID::new_from_parent(&rootnet(), SUBNET_TWO);
    let r = Actor::fund(&mut st, 1002, &other, amount);
    assert!(matches!(r, Err(Error::IllegalArgument(_))));
}

#[test]
fn gateway_test_test_release() {
    let shid = SubnetID::new_from_parent(&rootnet(), SUBNET_ONE);
    let mut st = setup(shid.clone());

    let releaser: u64 = 1001;
    let r_amount: u128 = 5u128.pow(18);
    let t = Actor::release(&mut st, releaser, r_amount, 0).unwrap();
    assert_eq!(t.to, ipc_gateway::address::BURNT_FUNDS_ACTOR);
    assert_eq!(t.value, r_amount - CROSS_MSG_FEE);
    assert_eq!(st.nonce, 1);

    let t = Actor::release(&mut st, releaser, r_amount, 0).unwrap();
    assert_eq!(t.value, r_amount - CROSS_MSG_FEE);
    assert_eq!(st.nonce, 2);
}

#[test]
fn gateway_test_test_send_cross() {
    let shid = SubnetID::new_from_parent(&rootnet(), SUBNET_ONE);
    let mut st = setup(shid.clone());

    let from: u64 = 1001;
    let to: u64 = 1002;
    let value: u128 = 10u128.pow(18);

    // register the subnet below this gateway
    let reg_value: u128 = 10u128.pow(18);
    Actor::register(&mut st, SUBNET_ONE, reg_value).unwrap();
    let child = SubnetID::new_from_parent(&shid, SUBNET_ONE);

    let mk_msg = |value: u128| CrossMsg {
        msg: storable(
            IPCAddress::new(&rootnet(), from).unwrap(),
            IPCAddress::new(&rootnet(), to).unwrap(),
            value,
            0,
        ),
        wrapped: false,
    };

    // top-down: /root/f0101/f0101
    let sub = path(&[SUBNET_ONE, SUBNET_ONE]);
    Actor::send_cross(&mut st, from, mk_msg(value), &sub, value, 0).unwrap();
    let s = get_subnet(&st, &child).unwrap();
    assert_eq!(s.topdown_nonce, 1);
    assert_eq!(s.circ_supply, value - CROSS_MSG_FEE);

    let sub = path(&[SUBNET_ONE, SUBNET_ONE]);
    Actor::send_cross(&mut st, from, mk_msg(value), &sub, value, 0).unwrap();
    let s = get_subnet(&st, &child).unwrap();
    assert_eq!(s.topdown_nonce, 2);
    assert_eq!(s.circ_supply, 2 * (value - CROSS_MSG_FEE));

    let sub = path(&[SUBNET_ONE, SUBNET_ONE, 1002]);
    Actor::send_cross(&mut st, from, mk_msg(value), &sub, value, 0).unwrap();
    let s = get_subnet(&st, &child).unwrap();
    assert_eq!(s.topdown_nonce, 3);
    assert_eq!(s.circ_supply, 3 * (value - CROSS_MSG_FEE));

    // bottom-up: toward another branch of the tree
    let sub = path(&[SUBNET_TWO, SUBNET_ONE]);
    let ts = Actor::send_cross(&mut st, from, mk_msg(value), &sub, value, 0).unwrap();
    assert_eq!(st.nonce, 1);
    assert_eq!(ts.len(), 1);
    assert_eq!(ts[0].to, ipc_gateway::address::BURNT_FUNDS_ACTOR);

    let sub = path(&[SUBNET_TWO, SUBNET_ONE]);
    Actor::send_cross(&mut st, from, mk_msg(value), &sub, value, 0).unwrap();
    assert_eq!(st.nonce, 2);

    let sub = rootnet();
    Actor::send_cross(&mut st, from, mk_msg(value), &sub, value, 0).unwrap();
    assert_eq!(st.nonce, 3);
}

#[test]
fn test_commit_child_check_bu_target_subnet() {
    let shid = SubnetID::new_from_parent(&rootnet(), SUBNET_ONE);
    let mut st = setup_root();

    Actor::register(&mut st, SUBNET_ONE, 10u128.pow(18)).unwrap();
    Actor::fund(&mut st, 1001, &shid, 10u128.pow(18)).unwrap();

    let from: u64 = 3003;
    let to: u64 = 3004;
    let value: u128 = 10u128.pow(17);

    let ff = IPCAddress::new(&shid, to).unwrap();
    let tt = IPCAddress::new(&rootnet(), from).unwrap();
    let msg = storable(ff.clone(), tt.clone(), value, 0);

    let epoch: u64 = 10;
    let mut ch = Checkpoint::new(shid.clone(), epoch + 9);
    let fee: u128 = 5;
    ch.data.cross_msgs = BatchCrossMsgs {
        cross_msgs: Some(vec![CrossMsg { msg: msg.clone(), wrapped: false }]),
        fee,
    };

    let ts = Actor::commit_child_check(&mut st, SUBNET_ONE, &ch, epoch, BIG_BALANCE).unwrap();
    // The bottom-up message executes here, then the fee is distributed.
    assert_eq!(ts.len(), 2);
    assert_eq!(ts[0].to, from);
    assert_eq!(ts[0].method, METHOD_SEND);
    assert_eq!(ts[0].value, value);
    assert_eq!(ts[1].to, SUBNET_ONE);
    assert_eq!(ts[1].method, SUBNET_ACTOR_REWARD_METHOD);
    assert_eq!(ts[1].value, fee);
}

#[test]
fn test_commit_child_check_bu_not_target_subnet() {
    let parent = SubnetID::new_from_parent(&rootnet(), SUBNET_ONE);
    let shid = SubnetID::new_from_parent(&parent, SUBNET_TWO);
    let mut st = setup(parent.clone());

    Actor::register(&mut st, SUBNET_TWO, 10u128.pow(18)).unwrap();
    Actor::fund(&mut st, 1001, &shid, 10u128.pow(18)).unwrap();

    let from: u64 = 3003;
    let to: u64 = 3004;
    let value: u128 = 10u128.pow(17);

    let ff = IPCAddress::new(&shid, to).unwrap();
    let tt = IPCAddress::new(&rootnet(), from).unwrap();
    let msg = storable(ff.clone(), tt.clone(), value, 0);
    let cross = CrossMsg { msg: msg.clone(), wrapped: false };

    let epoch: u64 = 10;
    let mut ch = Checkpoint::new(shid.clone(), epoch + 9);
    let fee: u128 = 5;
    ch.data.cross_msgs = BatchCrossMsgs { cross_msgs: Some(vec![cross.clone()]), fee };

    let ts = Actor::commit_child_check(&mut st, SUBNET_TWO, &ch, epoch, BIG_BALANCE).unwrap();
    // Nothing executes here; only the fee is distributed.
    assert_eq!(ts.len(), 1);
    assert_eq!(ts[0].value, fee);

    // The message waits in the postbox under the content id of its item.
    let item = PostBoxItem::new(cross.clone(), Some(vec![to]));
    let (cid, _) = item.serialize_with_cid().unwrap();
    let stored = st.load_from_postbox(&cid).unwrap();
    assert_eq!(stored.owners, Some(vec![to]));
    assert_eq!(stored.cross_msg.msg.to, tt);
    assert_eq!(stored.cross_msg.msg.nonce, 0);
    assert_eq!(stored.cross_msg.msg.value, value);

    // Propagate: a bottom-up message still climbing burns its funds.
    let ts = Actor::propagate(&mut st, to, &cid, msg.value, epoch).unwrap();
    assert_eq!(ts[0].to, ipc_gateway::address::BURNT_FUNDS_ACTOR);
    assert_eq!(ts[0].value, value);

    // The entry is gone from the postbox.
    let r = st.load_from_postbox(&cid);
    assert!(r.is_err());
    assert_eq!(r.unwrap_err().msg(), "cid not found in postbox");
}

#[test]
fn test_propagate_with_remainder() {
    let parent = SubnetID::new_from_parent(&rootnet(), SUBNET_ONE);
    let shid = SubnetID::new_from_parent(&parent, SUBNET_TWO);
    let mut st = setup(parent.clone());

    Actor::register(&mut st, SUBNET_TWO, 10u128.pow(18)).unwrap();
    Actor::fund(&mut st, 1001, &shid, 10u128.pow(18)).unwrap();

    let from: u64 = 3003;
    let to: u64 = 3004;
    let value: u128 = 10u128.pow(17);

    let ff = IPCAddress::new(&shid, to).unwrap();
    let tt = IPCAddress::new(&rootnet(), from).unwrap();
    let msg = storable(ff.clone(), tt.clone(), value, 0);
    let cross = CrossMsg { msg: msg.clone(), wrapped: false };

    let epoch: u64 = 10;
    let mut ch = Checkpoint::new(shid.clone(), epoch + 9);
    ch.data.cross_msgs = BatchCrossMsgs { cross_msgs: Some(vec![cross.clone()]), fee: 5 };
    Actor::commit_child_check(&mut st, SUBNET_TWO, &ch, epoch, BIG_BALANCE).unwrap();

    let item = PostBoxItem::new(cross.clone(), Some(vec![to]));
    let (cid, _) = item.serialize_with_cid().unwrap();

    // Propagate with excess value: the remainder returns to the caller.
    let ts = Actor::propagate(&mut st, to, &cid, msg.value, epoch).unwrap();
    assert_eq!(ts.len(), 2);
    assert_eq!(ts[0].to, ipc_gateway::address::BURNT_FUNDS_ACTOR);
    assert_eq!(ts[0].value, value);
    assert_eq!(ts[1].to, to);
    assert_eq!(ts[1].value, msg.value - CROSS_MSG_FEE);

    let r = st.load_from_postbox(&cid);
    assert!(r.is_err());
    assert_eq!(r.unwrap_err().msg(), "cid not found in postbox");
}

#[test]
fn test_commit_child_check_bu_switch_td() {
    // Gateway at /root/f0101; message from /root/f0101/f0102 to /root/f0101/f0103.
    let parent_sub = SubnetID::new_from_parent(&rootnet(), SUBNET_ONE);
    let mut st = setup(parent_sub.clone());

    let from: u64 = 3003;
    let to: u64 = 3004;
    let value: u128 = 10u128.pow(17);
    let reg_value: u128 = 10u128.pow(18);

    let ff_sub = SubnetID::new_from_parent(&parent_sub, SUBNET_TWO);
    let tt_sub = SubnetID::new_from_parent(&parent_sub, SUBNET_THR);
    Actor::register(&mut st, SUBNET_TWO, reg_value).unwrap();
    Actor::register(&mut st, SUBNET_THR, reg_value).unwrap();

    let ff = IPCAddress::new(&ff_sub, to).unwrap();
    let tt = IPCAddress::new(&tt_sub, from).unwrap();
    let msg = storable(ff.clone(), tt.clone(), value, 0);
    let caller = to;

    let cid = st
        .insert_postbox(Some(vec![caller]), CrossMsg { msg: msg.clone(), wrapped: false })
        .unwrap();

    let starting_nonce = get_subnet(&st, &tt_sub).unwrap().topdown_nonce;

    // Propagated as top-down: the fee is rewarded to the next-hop child.
    let ts = Actor::propagate(&mut st, caller, &cid, msg.value, 0).unwrap();
    assert_eq!(ts[0].to, SUBNET_THR);
    assert_eq!(ts[0].method, SUBNET_ACTOR_REWARD_METHOD);
    assert_eq!(ts[0].value, CROSS_MSG_FEE);

    // The entry is gone from the postbox.
    let r = st.load_from_postbox(&cid);
    assert!(r.is_err());
    assert_eq!(r.unwrap_err().msg(), "cid not found in postbox");

    // The message joined the next subnet's top-down queue.
    let sub = get_subnet(&st, &tt_sub).unwrap();
    assert_eq!(sub.topdown_nonce, starting_nonce + 1);
    let m = ipc_gateway::subnet::get_topdown_msg(&sub.top_down_msgs, starting_nonce).unwrap();
    assert_eq!(m.to, tt);
    assert_eq!(m.nonce, starting_nonce);
    assert_eq!(m.value, value);
}

#[test]
fn test_commit_child_check_tp_target_subnet() {
    let shid = SubnetID::new_from_parent(&rootnet(), SUBNET_ONE);
    let mut st = setup_root();

    Actor::register(&mut st, SUBNET_ONE, 10u128.pow(18)).unwrap();
    Actor::fund(&mut st, 1001, &shid, 10u128.pow(18)).unwrap();

    let from: u64 = 3003;
    let to: u64 = 3004;
    let value: u128 = 10u128.pow(17);

    // Top-down message addressed to this very network.
    let ff = IPCAddress::new(&rootnet(), from).unwrap();
    let tt = IPCAddress::new(&rootnet(), to).unwrap();
    let msg = storable(ff, tt, value, 0);

    let epoch: u64 = 10;
    let mut ch = Checkpoint::new(shid.clone(), epoch + 9);
    let fee: u128 = 5;
    ch.data.cross_msgs = BatchCrossMsgs {
        cross_msgs: Some(vec![CrossMsg { msg: msg.clone(), wrapped: false }]),
        fee,
    };

    let ts = Actor::commit_child_check(&mut st, SUBNET_ONE, &ch, epoch, BIG_BALANCE).unwrap();
    // The message executes here, then the fee is distributed.
    assert_eq!(ts.len(), 2);
    assert_eq!(ts[0].to, to);
    assert_eq!(ts[0].value, value);
    assert_eq!(ts[1].value, fee);
}

#[test]
fn test_commit_child_check_tp_not_target_subnet() {
    // Gateway at /root/f0101; message from /root to /root/f0101/f0101.
    let shid = SubnetID::new_from_parent(&rootnet(), SUBNET_ONE);
    let sub = SubnetID::new_from_parent(&shid, SUBNET_ONE);
    let mut st = setup(shid.clone());

    let reg_value: u128 = 10u128.pow(18);
    Actor::register(&mut st, SUBNET_ONE, reg_value).unwrap();
    Actor::fund(&mut st, 1002, &sub, reg_value).unwrap();

    let from: u64 = 3003;
    let to: u64 = 3004;
    let value: u128 = 10u128.pow(17);

    let ff = IPCAddress::new(&rootnet(), from).unwrap();
    let tt = IPCAddress::new(&sub, to).unwrap();
    let msg = storable(ff.clone(), tt.clone(), value, 0);
    let cross = CrossMsg { msg: msg.clone(), wrapped: false };

    let epoch: u64 = 10;
    let mut ch = Checkpoint::new(shid.clone(), epoch + 9);
    let fee: u128 = 5;
    ch.data.cross_msgs = BatchCrossMsgs { cross_msgs: Some(vec![cross.clone()]), fee };

    let ts = Actor::commit_child_check(&mut st, SUBNET_ONE, &ch, epoch, BIG_BALANCE).unwrap();
    assert_eq!(ts.len(), 1);
    assert_eq!(ts[0].value, fee);

    // The message waits in the postbox.
    let item = PostBoxItem::new(cross.clone(), Some(vec![from]));
    let (cid, _) = item.serialize_with_cid().unwrap();
    let stored = st.load_from_postbox(&cid).unwrap();
    assert_eq!(stored.owners, Some(vec![from]));
    assert_eq!(stored.cross_msg.msg.to, tt);

    // Propagate commits it top-down to the next subnet.
    let starting_nonce = get_subnet(&st, &sub).unwrap().topdown_nonce;
    let ts = Actor::propagate(&mut st, from, &cid, msg.value, epoch).unwrap();
    assert_eq!(ts[0].to, SUBNET_ONE);
    assert_eq!(ts[0].method, SUBNET_ACTOR_REWARD_METHOD);
    assert_eq!(ts[0].value, CROSS_MSG_FEE);

    let r = st.load_from_postbox(&cid);
    assert!(r.is_err());
    assert_eq!(r.unwrap_err().msg(), "cid not found in postbox");

    let s = get_subnet(&st, &sub).unwrap();
    assert_eq!(s.topdown_nonce, starting_nonce + 1);
    let m = ipc_gateway::subnet::get_topdown_msg(&s.top_down_msgs, starting_nonce).unwrap();
    assert_eq!(m.to, tt);
    assert_eq!(m.nonce, starting_nonce);
    assert_eq!(m.value, value);
}


#[test]
fn checkpoint_chain_requires_strictly_growing_epochs() {
    let mut st = setup_root();
    Actor::register(&mut st, SUBNET_ONE, 10u128.pow(18)).unwrap();
    let shid = SubnetID::new_from_parent(&rootnet(), SUBNET_ONE);

    let epoch: u64 = 10;
    let ch = Checkpoint::new(shid.clone(), 19);
    Actor::commit_child_check(&mut st, SUBNET_ONE, &ch, epoch, BIG_BALANCE).unwrap();

    // a commitment at the same epoch as its predecessor is refused
    let mut same_epoch = Checkpoint::new(shid.clone(), 19);
    same_epoch.data.tip_set = vec![7];
    same_epoch.data.prev_check = ch.cid();
    let r = Actor::commit_child_check(&mut st, SUBNET_ONE, &same_epoch, epoch, BIG_BALANCE);
    assert!(matches!(r, Err(Error::IllegalArgument(_))));

    // a commitment that does not link its predecessor's content id is refused
    let mut bad_link = Checkpoint::new(shid.clone(), 21);
    bad_link.data.prev_check = vec![9, 9, 9];
    let r = Actor::commit_child_check(&mut st, SUBNET_ONE, &bad_link, epoch, BIG_BALANCE);
    assert!(matches!(r, Err(Error::IllegalArgument(_))));

    // the well-chained successor is accepted
    let mut good = Checkpoint::new(shid.clone(), 21);
    good.data.prev_check = ch.cid();
    Actor::commit_child_check(&mut st, SUBNET_ONE, &good, epoch, BIG_BALANCE).unwrap();
}


#[test]
fn commit_child_check_rolls_back_on_failure() {
    let shid = SubnetID::new_from_parent(&rootnet(), SUBNET_ONE);
    let mut st = setup_root();
    Actor::register(&mut st, SUBNET_ONE, 10u128.pow(18)).unwrap();
    Actor::fund(&mut st, 1001, &shid, 10u128.pow(18)).unwrap();
    let supply = st.get_subnet(&shid).unwrap().unwrap().circ_supply;

    // A batch whose total value exceeds the child's circulating supply fails
    // and leaves everything as it was: no meta recorded, no nonce advanced.
    let ff = IPCAddress::new(&shid, 3004).unwrap();
    let tt = IPCAddress::new(&rootnet(), 3003).unwrap();
    let msg = storable(ff.clone(), tt.clone(), supply + 1, 0);
    let epoch: u64 = 10;
    let mut ch = Checkpoint::new(shid.clone(), epoch + 9);
    ch.data.cross_msgs = BatchCrossMsgs {
        cross_msgs: Some(vec![CrossMsg { msg, wrapped: false }]),
        fee: 5,
    };
    let r = Actor::commit_child_check(&mut st, SUBNET_ONE, &ch, epoch, BIG_BALANCE);
    assert!(matches!(r, Err(Error::IllegalState(_))));
    assert_eq!(st.bottomup_nonce, 0);
    assert_eq!(st.bottomup_msg_meta.len(), 0);
    let sub = st.get_subnet(&shid).unwrap().unwrap();
    assert_eq!(sub.circ_supply, supply);
    assert!(sub.prev_checkpoint.is_none());

    // A batch message that cannot be applied (a top-down mint above the
    // gateway's balance) also rolls everything back.
    let msg = storable(tt.clone(), ff.clone(), supply / 2, 0);
    let mut ch = Checkpoint::new(shid.clone(), epoch + 9);
    ch.data.cross_msgs = BatchCrossMsgs {
        cross_msgs: Some(vec![CrossMsg { msg, wrapped: false }]),
        fee: 5,
    };
    let r = Actor::commit_child_check(&mut st, SUBNET_ONE, &ch, epoch, 0);
    assert!(matches!(r, Err(Error::IllegalState(_))));
    assert_eq!(st.bottomup_nonce, 0);
    assert_eq!(st.bottomup_msg_meta.len(), 0);
    let sub = st.get_subnet(&shid).unwrap().unwrap();
    assert_eq!(sub.circ_supply, supply);
    assert!(sub.prev_checkpoint.is_none());
    assert_eq!(st.checkpoints.len(), 0);
}

#[test]
fn test_noop() {
}

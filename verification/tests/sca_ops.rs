use ipc_gateway::CROSS_MSG_FEE;
use ipc_gateway::METHOD_SEND;
use ipc_gateway::address::{BURNT_FUNDS_ACTOR, IPCAddress};
use ipc_gateway::cross::{CrossMsg, StorableMsg};
use ipc_gateway::error::Error;
use ipc_gateway::gateway::{Actor, ApplyOutcome};
use ipc_gateway::state::{ConstructorParams, State};
use ipc_gateway::subnet::Status;
use ipc_gateway::subnet_id::SubnetID;

const SUBNET_ONE: u64 = 101;
const SUBNET_TWO: u64 = 102;
const GENESIS: u64 = 0;
const CRON_PERIOD: u64 = 10;
const BIG_BALANCE: u128 = 1_000_000_000_000_000_000_000_000;

fn rootnet() -> SubnetID {
    SubnetID::rootnet()
}

fn setup(net: SubnetID) -> State {
    Actor::constructor(ConstructorParams {
        network_name: net,
        checkpoint_period: 0,
        genesis_epoch: GENESIS,
        cron_period: CRON_PERIOD,
    })
    .unwrap()
}

fn setup_root() -> State {
    setup(rootnet())
}

fn storable(from: IPCAddress, to: IPCAddress, value: u128, nonce: u64) -> StorableMsg {
    StorableMsg { from, to, method: METHOD_SEND, params: Vec::new(), value, nonce }
}

fn apply(st: &mut State, from: &IPCAddress, to: &IPCAddress, value: u128, nonce: u64) -> Result<
    ApplyOutcome,
    Error,
> {
    let msg = storable(from.clone(), to.clone(), value, nonce);
    Actor::apply_msg(st, CrossMsg { msg, wrapped: false }, BIG_BALANCE)
}

#[test]
fn sca_actor_test_construct() {
    let st = setup_root();
    assert_eq!(st.total_subnets, 0);
    assert_eq!(st.applied_bottomup_nonce, u64::MAX);
    assert_eq!(st.applied_topdown_nonce, 0);
}

#[test]
fn sca_actor_test_register_subnet() {
    let mut st = setup_root();
    let value: u128 = 10u128.pow(18);
    Actor::register(&mut st, SUBNET_ONE, value).unwrap();
    assert_eq!(st.total_subnets, 1);
    let shid = SubnetID::new_from_parent(&rootnet(), SUBNET_ONE);
    let subnet = st.get_subnet(&shid).unwrap().unwrap();
    assert_eq!(subnet.id, shid);
    assert_eq!(subnet.stake, value);
    assert_eq!(subnet.circ_supply, 0);
    assert!(matches!(subnet.status, Status::Active));

    let r = Actor::register(&mut st, SUBNET_ONE, value);
    assert!(matches!(r, Err(Error::IllegalArgument(_))));
    assert_eq!(st.total_subnets, 1);

    let r = Actor::register(&mut st, SUBNET_TWO, 10u128.pow(17));
    assert!(matches!(r, Err(Error::IllegalArgument(_))));
    assert_eq!(st.total_subnets, 1);
}

#[test]
fn sca_actor_test_add_stake() {
    let mut st = setup_root();
    let value: u128 = 10u128.pow(18);
    Actor::register(&mut st, SUBNET_ONE, value).unwrap();
    let shid = SubnetID::new_from_parent(&rootnet(), SUBNET_ONE);

    Actor::add_stake(&mut st, SUBNET_ONE, value).unwrap();
    let subnet = st.get_subnet(&shid).unwrap().unwrap();
    assert_eq!(subnet.stake, 2 * value);

    let r = Actor::add_stake(&mut st, SUBNET_TWO, value);
    assert!(matches!(r, Err(Error::IllegalArgument(_))));
    let r = Actor::add_stake(&mut st, SUBNET_ONE, 0);
    assert!(matches!(r, Err(Error::IllegalArgument(_))));
}

#[test]
fn sca_actor_test_release_stake() {
    let mut st = setup_root();
    let value: u128 = 10u128.pow(18);
    Actor::register(&mut st, SUBNET_ONE, value).unwrap();
    let shid = SubnetID::new_from_parent(&rootnet(), SUBNET_ONE);
    Actor::add_stake(&mut st, SUBNET_ONE, value).unwrap();

    let t = Actor::release_stake(&mut st, SUBNET_ONE, value, BIG_BALANCE).unwrap();
    assert_eq!(t.value, value);
    let subnet = st.get_subnet(&shid).unwrap().unwrap();
    assert_eq!(subnet.stake, value);
    assert!(matches!(subnet.status, Status::Active));
}

#[test]
fn sca_actor_test_test_kill() {
    let mut st = setup_root();
    let value: u128 = 10u128.pow(18);
    Actor::register(&mut st, SUBNET_ONE, value).unwrap();
    let shid = SubnetID::new_from_parent(&rootnet(), SUBNET_ONE);

    let t = Actor::kill(&mut st, SUBNET_ONE, BIG_BALANCE).unwrap();
    assert_eq!(t.value, value);
    assert_eq!(st.total_subnets, 0);
    assert!(st.get_subnet(&shid).unwrap().is_none());
}

#[test]
fn sca_actor_test_test_fund() {
    let mut st = setup_root();
    let value: u128 = 10u128.pow(18);
    Actor::register(&mut st, SUBNET_ONE, value).unwrap();
    let shid = SubnetID::new_from_parent(&rootnet(), SUBNET_ONE);

    let amount: u128 = 10u128.pow(18);
    Actor::fund(&mut st, 1001, &shid, amount).unwrap();
    let sub = st.get_subnet(&shid).unwrap().unwrap();
    assert_eq!(sub.topdown_nonce, 1);
    assert_eq!(sub.circ_supply, amount - CROSS_MSG_FEE);
    let m = ipc_gateway::subnet::get_topdown_msg(&sub.top_down_msgs, 0).unwrap();
    assert_eq!(m.value, amount - CROSS_MSG_FEE);
    assert_eq!(m.nonce, 0);
}

#[test]
fn sca_actor_test_test_release() {
    let shid = SubnetID::new_from_parent(&rootnet(), SUBNET_ONE);
    let mut st = setup(shid.clone());

    let r_amount: u128 = 5u128.pow(18);
    let t = Actor::release(&mut st, 1001, r_amount, 0).unwrap();
    assert_eq!(t.to, BURNT_FUNDS_ACTOR);
    assert_eq!(t.value, r_amount - CROSS_MSG_FEE);
    assert_eq!(st.nonce, 1);
}

#[test]
fn sca_actor_test_test_send_cross() {
    let shid = SubnetID::new_from_parent(&rootnet(), SUBNET_ONE);
    let mut st = setup(shid.clone());

    let from: u64 = 1001;
    let to: u64 = 1002;
    let value: u128 = 10u128.pow(18);
    Actor::register(&mut st, SUBNET_ONE, value).unwrap();
    let child = SubnetID::new_from_parent(&shid, SUBNET_ONE);

    let msg = CrossMsg {
        msg: storable(
            IPCAddress::new(&rootnet(), from).unwrap(),
            IPCAddress::new(&rootnet(), to).unwrap(),
            value,
            0,
        ),
        wrapped: false,
    };
    let dest = SubnetID::new_from_parent(&shid, SUBNET_ONE);
    Actor::send_cross(&mut st, from, msg, &dest, value, 0).unwrap();
    let s = st.get_subnet(&child).unwrap().unwrap();
    assert_eq!(s.topdown_nonce, 1);
    assert_eq!(s.circ_supply, value - CROSS_MSG_FEE);

    // the value sent must match the message's value
    let msg = CrossMsg {
        msg: storable(
            IPCAddress::new(&rootnet(), from).unwrap(),
            IPCAddress::new(&rootnet(), to).unwrap(),
            value,
            0,
        ),
        wrapped: false,
    };
    let r = Actor::send_cross(&mut st, from, msg, &dest, value - 1, 0);
    assert!(matches!(r, Err(Error::IllegalArgument(_))));

    // destination equal to the current network is refused
    let msg = CrossMsg {
        msg: storable(
            IPCAddress::new(&rootnet(), from).unwrap(),
            IPCAddress::new(&rootnet(), to).unwrap(),
            value,
            0,
        ),
        wrapped: false,
    };
    let r = Actor::send_cross(&mut st, from, msg, &shid.clone(), value, 0);
    assert!(matches!(r, Err(Error::IllegalArgument(_))));
}

#[test]
fn test_apply_routing() {
    let shid = SubnetID::new_from_parent(&rootnet(), SUBNET_ONE);
    let mut st = setup(shid.clone());

    let from: u64 = 3003;
    let to: u64 = 3004;

    let sub1 = SubnetID::new_from_parent(&shid, SUBNET_ONE);
    let sub2 = SubnetID::new_from_parent(&shid, SUBNET_TWO);

    let reg_value: u128 = 10u128.pow(18);
    Actor::register(&mut st, SUBNET_ONE, reg_value).unwrap();
    Actor::register(&mut st, SUBNET_TWO, reg_value).unwrap();
    Actor::fund(&mut st, 1002, &sub1, reg_value).unwrap();
    Actor::fund(&mut st, 1002, &sub2, reg_value).unwrap();

    let value: u128 = 10u128.pow(17);

    // top-down messages passing through here land in the child queues
    let ff = IPCAddress::new(&rootnet(), from).unwrap();
    let tt = IPCAddress::new(&sub1, to).unwrap();
    let o = apply(&mut st, &ff, &tt, value, 0).unwrap();
    assert!(matches!(o, ApplyOutcome::Queued(_)));
    let tt = IPCAddress::new(&sub2, to).unwrap();
    let o = apply(&mut st, &ff, &tt, value, 1).unwrap();
    assert!(matches!(o, ApplyOutcome::Queued(_)));

    // directed to the current network: executed here in nonce order
    let tt = IPCAddress::new(&shid, to).unwrap();
    let o = apply(&mut st, &ff, &tt, value, 0).unwrap();
    match o {
        ApplyOutcome::Dispatched(t) => {
            assert_eq!(t.to, to);
            assert_eq!(t.value, value);
        },
        _ => panic!("expected dispatch"),
    }
    assert_eq!(st.applied_topdown_nonce, 1);

    // bottom-up from below, heading further up: staged in the postbox
    let ff = IPCAddress::new(&sub1, from).unwrap();
    let tt = IPCAddress::new(&rootnet(), to).unwrap();
    let o = apply(&mut st, &ff, &tt, value, 0).unwrap();
    assert!(matches!(o, ApplyOutcome::Queued(_)));

    // bottom-up directed to the current network: executed here
    let ff = IPCAddress::new(&SubnetID::new_from_parent(&sub1, 11), from).unwrap();
    let tt = IPCAddress::new(&shid, to).unwrap();
    let o = apply(&mut st, &ff, &tt, value, 0).unwrap();
    assert!(matches!(o, ApplyOutcome::Dispatched(_)));
    assert_eq!(st.applied_bottomup_nonce, 0);
}

#[test]
fn test_apply_msg() {
    let mut st = setup_root();

    let value: u128 = 10u128.pow(18);
    Actor::register(&mut st, SUBNET_ONE, value).unwrap();
    let shid = SubnetID::new_from_parent(&rootnet(), SUBNET_ONE);

    Actor::fund(&mut st, 1001, &shid, 10u128.pow(18)).unwrap();

    // Apply fund messages in nonce order
    let funder = IPCAddress::new(&rootnet(), 3003).unwrap();
    for i in 0..5u64 {
        apply(&mut st, &funder, &funder, value, i).unwrap();
        assert_eq!(st.applied_topdown_nonce, i + 1);
    }

    // Apply release messages: the same nonce can be applied again
    let from = IPCAddress::new(&shid, BURNT_FUNDS_ACTOR).unwrap();
    for _ in 0..5 {
        apply(&mut st, &from, &funder, value, 0).unwrap();
        assert_eq!(st.applied_bottomup_nonce, 0);
    }
    // and increasing nonces advance one by one
    for i in 0..5u64 {
        apply(&mut st, &from, &funder, value, i).unwrap();
        assert_eq!(st.applied_bottomup_nonce, i);
    }

    // a non-subsequent nonce is refused
    let r = apply(&mut st, &from, &funder, value, 10);
    assert!(matches!(r, Err(Error::IllegalState(_))));
    // an already applied nonce is refused
    let r = apply(&mut st, &from, &funder, value, 0);
    assert!(matches!(r, Err(Error::IllegalState(_))));
}

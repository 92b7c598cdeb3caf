use ipc_gateway::METHOD_SEND;
use ipc_gateway::address::IPCAddress;
use ipc_gateway::cron::{CronCheckpoint, CronSubmission, Validator, ValidatorSet,
    VoteExecutionStatus};
use ipc_gateway::cross::StorableMsg;
use ipc_gateway::error::Error;
use ipc_gateway::gateway::Actor;
use ipc_gateway::state::{ConstructorParams, State};
use ipc_gateway::subnet_id::SubnetID;

const GENESIS: u64 = 0;
const CRON_PERIOD: u64 = 10;
const BIG_BALANCE: u128 = 1_000_000_000_000_000_000_000_000;

fn setup_root() -> State {
    Actor::constructor(ConstructorParams {
        network_name: SubnetID::rootnet(),
        checkpoint_period: 0,
        genesis_epoch: GENESIS,
        cron_period: CRON_PERIOD,
    })
    .unwrap()
}

fn setup_membership(st: &mut State) {
    let mut validators: Vec<Validator> = Vec::new();
    let mut index: u64 = 0;
    while index < 5 {
        validators.push(Validator {
            addr: index,
            weight: 1000,
            net_addr: index.to_string(),
        });
        index += 1;
    }
    Actor::set_membership(st, ValidatorSet::new(validators, 10)).unwrap();
}

fn storable_msg(nonce: u64) -> StorableMsg {
    StorableMsg {
        from: IPCAddress::new(&SubnetID::rootnet(), 10).unwrap(),
        to: IPCAddress::new(&SubnetID::rootnet(), 20).unwrap(),
        method: 0,
        params: Vec::new(),
        value: 0,
        nonce,
    }
}

fn find_submission(st: &State, epoch: u64) -> Option<&CronSubmission> {
    st.cron_submissions
        .iter()
        .find(|e| e.epoch == epoch)
        .map(|e| &e.submission)
}

#[test]
fn test_set_membership() {
    let mut st = setup_root();

    let weights: Vec<u64> = vec![1000, 2000];
    let mut validators: Vec<Validator> = Vec::new();
    let mut index: u64 = 0;
    for weight in &weights {
        validators.push(Validator { addr: index, weight: *weight, net_addr: index.to_string() });
        index += 1;
    }
    Actor::set_membership(&mut st, ValidatorSet::new(validators, 10)).unwrap();

    assert_eq!(st.validators.validators.validators.len(), 2);
    assert_eq!(st.validators.validators.validators[0].weight, 1000);
    assert_eq!(st.validators.validators.validators[1].weight, 2000);
    assert_eq!(st.validators.total_weight, weights.iter().map(|w| *w as u128).sum::<u128>());
}

#[test]
fn test_submit_cron_checking_errors() {
    let mut st = setup_root();
    setup_membership(&mut st);

    let submitter: u64 = 10000;
    let checkpoint = CronCheckpoint { epoch: GENESIS + 1, top_down_msgs: vec![] };
    let r = Actor::submit_cron(&mut st, submitter, &checkpoint, BIG_BALANCE);
    assert!(r.is_err());
    assert_eq!(r.unwrap_err().msg(), "epoch not allowed");

    let checkpoint = CronCheckpoint { epoch: GENESIS, top_down_msgs: vec![] };
    let r = Actor::submit_cron(&mut st, submitter, &checkpoint, BIG_BALANCE);
    assert!(r.is_err());
    assert_eq!(r.unwrap_err().msg(), "epoch already executed");

    let checkpoint = CronCheckpoint { epoch: GENESIS + CRON_PERIOD, top_down_msgs: vec![] };
    let r = Actor::submit_cron(&mut st, submitter, &checkpoint, BIG_BALANCE);
    assert!(r.is_err());
    assert_eq!(r.unwrap_err().msg(), "caller not validator");
}

#[test]
fn test_submit_cron_works_with_execution() {
    let mut st = setup_root();
    setup_membership(&mut st);

    let epoch = GENESIS + CRON_PERIOD;
    let msg = storable_msg(0);
    let checkpoint = CronCheckpoint { epoch, top_down_msgs: vec![msg.clone()] };
    let hash = checkpoint.hash().unwrap();

    // first submission
    Actor::submit_cron(&mut st, 0, &checkpoint, BIG_BALANCE).unwrap();
    let submission = find_submission(&st, epoch).unwrap();
    assert_eq!(submission.get_submission(&hash).unwrap().unwrap(), checkpoint);
    assert_eq!(st.last_cron_executed_epoch, GENESIS);

    // already submitted
    let r = Actor::submit_cron(&mut st, 0, &checkpoint, BIG_BALANCE);
    assert!(r.is_err());
    assert_eq!(r.unwrap_err().msg(), "already submitted");

    // second submission
    Actor::submit_cron(&mut st, 1, &checkpoint, BIG_BALANCE).unwrap();
    assert_eq!(st.last_cron_executed_epoch, GENESIS);

    // third submission
    Actor::submit_cron(&mut st, 2, &checkpoint, BIG_BALANCE).unwrap();
    let submission = find_submission(&st, epoch).unwrap();
    assert_eq!(submission.get_submission(&hash).unwrap().unwrap(), checkpoint);
    assert_eq!(st.last_cron_executed_epoch, GENESIS);

    // fourth submission: consensus reached and executed
    let ts = Actor::submit_cron(&mut st, 3, &checkpoint, BIG_BALANCE).unwrap();
    assert_eq!(ts.len(), 1);
    assert_eq!(ts[0].to, 20);
    assert_eq!(ts[0].method, METHOD_SEND);
    assert_eq!(ts[0].value, 0);
    assert!(find_submission(&st, epoch).is_none());
    assert_eq!(st.last_cron_executed_epoch, epoch);
}

#[test]
fn test_submit_cron_abort() {
    let mut st = setup_root();
    setup_membership(&mut st);

    let epoch = GENESIS + CRON_PERIOD;

    let checkpoint = CronCheckpoint { epoch, top_down_msgs: vec![] };
    Actor::submit_cron(&mut st, 0, &checkpoint, BIG_BALANCE).unwrap();

    let checkpoint = CronCheckpoint { epoch, top_down_msgs: vec![storable_msg(1)] };
    Actor::submit_cron(&mut st, 1, &checkpoint, BIG_BALANCE).unwrap();

    let checkpoint = CronCheckpoint { epoch, top_down_msgs: vec![storable_msg(1), storable_msg(2)] };
    Actor::submit_cron(&mut st, 2, &checkpoint, BIG_BALANCE).unwrap();

    // fourth distinct submission: no hash can pass the threshold, abort
    let checkpoint = CronCheckpoint {
        epoch,
        top_down_msgs: vec![storable_msg(1), storable_msg(2), storable_msg(3)],
    };
    Actor::submit_cron(&mut st, 3, &checkpoint, BIG_BALANCE).unwrap();

    assert_eq!(st.last_cron_executed_epoch, GENESIS);
    let submission = find_submission(&st, epoch).unwrap();
    for i in 0..4u64 {
        assert_eq!(submission.has_submitted(i), false);
    }
    assert_eq!(submission.total_submitted_weight(), 0);
    assert!(submission.most_voted_hash().is_none());
}

#[test]
fn test_submit_cron_sequential_execution() {
    let mut st = setup_root();
    setup_membership(&mut st);

    // Consensus for a later epoch first: it is deferred.
    let pending_epoch = GENESIS + CRON_PERIOD * 2;
    let checkpoint = CronCheckpoint { epoch: pending_epoch, top_down_msgs: vec![] };
    Actor::submit_cron(&mut st, 0, &checkpoint, BIG_BALANCE).unwrap();
    Actor::submit_cron(&mut st, 1, &checkpoint, BIG_BALANCE).unwrap();
    Actor::submit_cron(&mut st, 2, &checkpoint, BIG_BALANCE).unwrap();
    Actor::submit_cron(&mut st, 3, &checkpoint, BIG_BALANCE).unwrap();
    assert_eq!(st.last_cron_executed_epoch, GENESIS);
    assert_eq!(st.executable_epoch_queue, Some(vec![pending_epoch]));
    assert!(find_submission(&st, pending_epoch).is_some());

    // Now the earlier epoch reaches consensus and executes.
    let msg = storable_msg(0);
    let epoch = GENESIS + CRON_PERIOD;
    let checkpoint = CronCheckpoint { epoch, top_down_msgs: vec![msg.clone()] };
    Actor::submit_cron(&mut st, 0, &checkpoint, BIG_BALANCE).unwrap();
    Actor::submit_cron(&mut st, 1, &checkpoint, BIG_BALANCE).unwrap();
    Actor::submit_cron(&mut st, 2, &checkpoint, BIG_BALANCE).unwrap();
    let ts = Actor::submit_cron(&mut st, 3, &checkpoint, BIG_BALANCE).unwrap();
    assert_eq!(ts.len(), 1);
    assert_eq!(ts[0].to, 20);
    assert!(find_submission(&st, epoch).is_none());
    assert_eq!(st.last_cron_executed_epoch, epoch);

    // A later vote unsticks the deferred epoch; its empty checkpoint
    // dispatches nothing.
    let epoch = GENESIS + CRON_PERIOD * 3;
    let checkpoint = CronCheckpoint { epoch, top_down_msgs: vec![] };
    let ts = Actor::submit_cron(&mut st, 3, &checkpoint, BIG_BALANCE).unwrap();
    assert!(ts.is_empty());
    assert_eq!(st.last_cron_executed_epoch, pending_epoch);
    assert_eq!(st.executable_epoch_queue, None);
}

#[test]
fn threshold_reached_consensus_missed_aborts() {
    // T = 5 validators of weight 1, votes {h1, h1, h2, h2}: S = 4 > threshold
    // 3, leader weight 2 cannot pass 3 with one vote left.
    let mut st = setup_root();
    let mut validators: Vec<Validator> = Vec::new();
    for i in 0..5u64 {
        validators.push(Validator { addr: i, weight: 1, net_addr: i.to_string() });
    }
    Actor::set_membership(&mut st, ValidatorSet::new(validators, 0)).unwrap();

    let epoch = GENESIS + CRON_PERIOD;
    let c1 = CronCheckpoint { epoch, top_down_msgs: vec![] };
    let c2 = CronCheckpoint { epoch, top_down_msgs: vec![storable_msg(7)] };

    Actor::submit_cron(&mut st, 0, &c1, BIG_BALANCE).unwrap();
    Actor::submit_cron(&mut st, 1, &c1, BIG_BALANCE).unwrap();
    Actor::submit_cron(&mut st, 2, &c2, BIG_BALANCE).unwrap();
    Actor::submit_cron(&mut st, 3, &c2, BIG_BALANCE).unwrap();

    // Round aborted: tally reset, stored checkpoints retained for reuse.
    let submission = find_submission(&st, epoch).unwrap();
    assert_eq!(submission.total_submitted_weight(), 0);
    assert!(submission.most_voted_hash().is_none());
    for i in 0..4u64 {
        assert_eq!(submission.has_submitted(i), false);
    }
    let h1 = c1.hash().unwrap();
    assert_eq!(submission.get_submission(&h1).unwrap().unwrap(), c1);
    assert_eq!(st.last_cron_executed_epoch, GENESIS);
}

#[test]
fn cron_hash_is_deterministic_and_orders_nonces() {
    let a = CronCheckpoint { epoch: 42, top_down_msgs: vec![storable_msg(1), storable_msg(2)] };
    let b = CronCheckpoint { epoch: 42, top_down_msgs: vec![storable_msg(1), storable_msg(2)] };
    assert_eq!(a.hash().unwrap(), b.hash().unwrap());

    // The digest is a multihash: code, length, then 32 digest bytes.
    let h = a.hash().unwrap();
    assert_eq!(h.len(), 36);
    assert_eq!(&h[0..4], &[0xa0, 0xe4, 0x02, 0x20]);

    // Different fields give a different digest.
    let c = CronCheckpoint { epoch: 43, top_down_msgs: vec![storable_msg(1), storable_msg(2)] };
    assert_ne!(a.hash().unwrap(), c.hash().unwrap());

    // Duplicate nonces are refused.
    let dup = CronCheckpoint { epoch: 42, top_down_msgs: vec![storable_msg(1), storable_msg(1)] };
    let r = dup.hash();
    assert!(r.is_err());
    assert_eq!(r.unwrap_err().msg(), "top down messages not distinct");

    // Unsorted nonces are refused.
    let unsorted = CronCheckpoint {
        epoch: 42,
        top_down_msgs: vec![storable_msg(2), storable_msg(1)],
    };
    let r = unsorted.hash();
    assert!(r.is_err());
    assert_eq!(r.unwrap_err().msg(), "top down messages not sorted");
}

#[test]
fn test_new_works() {
    let s = CronSubmission::new();
    assert_eq!(s.total_submitted_weight(), 0);
    assert!(s.most_voted_hash().is_none());
}

#[test]
fn test_update_submitters() {
    let mut submission = CronSubmission::new();

    let submitter: u64 = 0;
    submission.update_submitters(submitter).unwrap();
    assert!(submission.has_submitted(submitter));

    // now submit again, but it should fail
    assert!(submission.update_submitters(submitter).is_err());
}

#[test]
fn test_insert_checkpoint() {
    let mut submission = CronSubmission::new();

    let checkpoint = CronCheckpoint { epoch: 100, top_down_msgs: vec![] };
    let hash = checkpoint.hash().unwrap();

    submission.insert_checkpoint(&checkpoint).unwrap();
    assert!(submission.get_submission(&hash).unwrap().is_some());

    // insert again should not cause any error
    submission.insert_checkpoint(&checkpoint).unwrap();

    let inserted_checkpoint = submission.get_submission(&hash).unwrap().unwrap();
    assert_eq!(inserted_checkpoint, checkpoint);
}

#[test]
fn test_update_submission_count() {
    let mut submission = CronSubmission::new();

    let hash1 = vec![1, 2, 1];
    let hash2 = vec![1, 2, 2];

    // insert hash1, we should have only one item
    assert!(submission.most_voted_hash().is_none());
    assert_eq!(submission.update_submission_count(hash1.clone(), 1).unwrap(), 1);
    assert_eq!(submission.get_submission_count(&hash1).unwrap().unwrap(), 1);
    assert_eq!(submission.most_voted_hash(), &Some(hash1.clone()));

    // insert hash2: a tie, hash1 stays the most voted
    assert_eq!(submission.update_submission_count(hash2.clone(), 1).unwrap(), 1);
    assert_eq!(submission.get_submission_count(&hash2).unwrap().unwrap(), 1);
    assert_eq!(submission.get_submission_count(&hash1).unwrap().unwrap(), 1);
    assert_eq!(submission.most_voted_hash(), &Some(hash1.clone()));

    // insert hash2 again: it takes the lead
    assert_eq!(submission.update_submission_count(hash2.clone(), 1).unwrap(), 2);
    assert_eq!(submission.get_submission_count(&hash2).unwrap().unwrap(), 2);
    assert_eq!(submission.most_voted_hash(), &Some(hash2.clone()));

    // insert hash2 again: count grows by one
    assert_eq!(submission.update_submission_count(hash2.clone(), 1).unwrap(), 3);
    assert_eq!(submission.get_submission_count(&hash2).unwrap().unwrap(), 3);
    assert_eq!(submission.most_voted_hash(), &Some(hash2.clone()));
}

#[test]
fn test_derive_execution_status() {
    let mut s = CronSubmission::new();
    let hash = vec![1, 2, 3];

    // 10 of 35 submitted: threshold not reached
    s.update_submission_count(hash.clone(), 10).unwrap();
    assert_eq!(
        s.derive_execution_status(35, 5),
        VoteExecutionStatus::ThresholdNotReached,
    );

    // 4 of 4 submitted, leader at 2: no vote is left, abort
    let mut s = CronSubmission::new();
    s.update_submission_count(hash.clone(), 4).unwrap();
    assert_eq!(s.derive_execution_status(4, 2), VoteExecutionStatus::RoundAbort);

    // 4 of 5 submitted, leader at 4 past the threshold: consensus
    assert_eq!(s.derive_execution_status(5, 4), VoteExecutionStatus::ConsensusReached);

    // 4 of 5 submitted, leader at 3: the last vote still decides
    assert_eq!(s.derive_execution_status(5, 3), VoteExecutionStatus::ReachingConsensus);
}

#[test]
fn add_and_remove_validators() {
    let mut vs = ipc_gateway::cron::Validators::new(ValidatorSet::new(Vec::new(), 0));
    vs.add_validator(Validator { addr: 1, weight: 10, net_addr: "1".to_string() });
    vs.add_validator(Validator { addr: 2, weight: 20, net_addr: "2".to_string() });
    assert_eq!(vs.total_weight, 30);
    assert_eq!(vs.get_validator_weight(1), Some(10));

    // adding an address already present leaves the membership as it is
    vs.add_validator(Validator { addr: 1, weight: 99, net_addr: "1".to_string() });
    assert_eq!(vs.total_weight, 30);
    assert_eq!(vs.get_validator_weight(1), Some(10));

    vs.remove_validator(1);
    assert_eq!(vs.total_weight, 20);
    assert_eq!(vs.get_validator_weight(1), None);
    assert_eq!(vs.get_validator_weight(2), Some(20));

    // removing an absent address changes nothing
    vs.remove_validator(7);
    assert_eq!(vs.total_weight, 20);
}

#[test]
fn submit_cron_rolls_back_on_failed_execution() {
    let mut st = setup_root();
    setup_membership(&mut st);

    // The winning checkpoint carries a top-down message whose value cannot be
    // minted: the executing submission fails and the whole vote is rolled
    // back, watermark and tally included.
    let epoch = GENESIS + CRON_PERIOD;
    let mut msg = storable_msg(0);
    msg.value = 7;
    let checkpoint = CronCheckpoint { epoch, top_down_msgs: vec![msg] };
    Actor::submit_cron(&mut st, 0, &checkpoint, BIG_BALANCE).unwrap();
    Actor::submit_cron(&mut st, 1, &checkpoint, BIG_BALANCE).unwrap();
    Actor::submit_cron(&mut st, 2, &checkpoint, BIG_BALANCE).unwrap();

    let r = Actor::submit_cron(&mut st, 3, &checkpoint, 0);
    assert!(matches!(r, Err(Error::IllegalState(_))));
    assert_eq!(st.last_cron_executed_epoch, GENESIS);
    let submission = find_submission(&st, epoch).unwrap();
    assert!(submission.has_submitted(2));
    assert!(!submission.has_submitted(3));
    assert_eq!(st.applied_topdown_nonce, 0);

    // With the balance there, the same vote executes.
    let ts = Actor::submit_cron(&mut st, 3, &checkpoint, BIG_BALANCE).unwrap();
    assert_eq!(ts.len(), 1);
    assert_eq!(ts[0].value, 7);
    assert_eq!(st.last_cron_executed_epoch, epoch);
    assert!(find_submission(&st, epoch).is_none());
}

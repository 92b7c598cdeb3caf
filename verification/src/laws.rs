//! The laws the gateway obeys, stated once and proved from the contracts and
//! invariants of the library.
use vstd::prelude::*;

use crate::CROSS_MSG_FEE;
use crate::cron::{CronCheckpointView, CronSubmissionView, cron_digest, count_of, sum_counts};
use crate::cross::CrossMsgView;
use crate::gateway::{bu_accepts, bu_next, committed_cross};
use crate::state::{StateView, committed_topdown};
use crate::subnet::SubnetView;

verus! {

/// Every registered subnet keeps a dense top-down queue: its length equals
/// the next top-down nonce and the message at each slot carries that slot's
/// nonce.
pub proof fn lemma_topdown_queues_dense(st: StateView, i: int)
    requires
        st.wf(),
        0 <= i < st.subnets.len(),
    ensures
        st.subnets[i].top_down_msgs.len() == st.subnets[i].topdown_nonce,
        forall|n: int|
            0 <= n < st.subnets[i].top_down_msgs.len()
                ==> #[trigger] st.subnets[i].top_down_msgs[n].msg.nonce == n,
{
    assert(st.subnets[i].wf());
}

/// The applied top-down nonce never moves backwards when a cross-message is
/// committed. Besides the application of a top-down message addressed to this
/// subnet, the counter also advances when a top-down message transits here on
/// its way down: the counter numbers every top-down message that passed this
/// subnet, which the dense nonce ordering of later local applications needs.
pub proof fn lemma_applied_topdown_monotonic(
    pre: StateView,
    post: StateView,
    m: CrossMsgView,
    fee: u128,
    curr_epoch: u64,
    do_burn: bool,
    tdf: u128,
)
    requires
        committed_cross(pre, post, m, fee, curr_epoch, do_burn, tdf),
        pre.applied_topdown_nonce < u64::MAX,
    ensures
        post.applied_topdown_nonce >= pre.applied_topdown_nonce,
{
    let net = pre.network_name;
    match crate::cross::spec_apply_type(m.msg, net) {
        crate::cross::HCMsgType::BottomUp => {
            if crate::gateway::reached_lca(net, m.msg) {
                lemma_committed_topdown_applied(pre, post, m);
            }
        },
        _ => {
            let pre2 = StateView {
                applied_topdown_nonce: (pre.applied_topdown_nonce + 1) as u64,
                ..pre
            };
            lemma_committed_topdown_applied(pre2, post, m);
        },
    }
}

/// Committing a top-down message leaves the applied top-down nonce alone.
proof fn lemma_committed_topdown_applied(pre: StateView, post: StateView, m: CrossMsgView)
    requires
        committed_topdown(pre, post, m),
    ensures
        post.applied_topdown_nonce == pre.applied_topdown_nonce,
{
    let net = pre.network_name;
    let sto = m.msg.to.subnet;
    let child = sto.subrange(0, net.len() as int + 1);
    let k = choose|k: int|
        {
            &&& 0 <= k < pre.subnets.len()
            &&& pre.subnets[k].id == child
            &&& post == (StateView {
                subnets: pre.subnets.update(
                    k,
                    SubnetView {
                        top_down_msgs: pre.subnets[k].top_down_msgs.push(
                            CrossMsgView {
                                msg: crate::cross::MsgView {
                                    nonce: pre.subnets[k].topdown_nonce,
                                    ..m.msg
                                },
                                wrapped: m.wrapped,
                            },
                        ),
                        topdown_nonce: (pre.subnets[k].topdown_nonce + 1) as u64,
                        circ_supply: (pre.subnets[k].circ_supply + m.msg.value) as u128,
                        ..pre.subnets[k]
                    },
                ),
                ..pre
            })
        };
}

/// The applied bottom-up nonce advances by exactly one step per accepted
/// bottom-up message: from the sentinel to zero, from a nonce to its
/// successor, or not at all when the current nonce is applied again; and an
/// accepted message always carries the resulting nonce.
pub proof fn lemma_bottomup_nonce_steps(applied: u64, nonce: u64)
    ensures
        bu_accepts(applied, nonce) ==> {
            ||| (applied == crate::MAX_NONCE && nonce == 0)
            ||| (applied < crate::MAX_NONCE && nonce == applied + 1)
            ||| nonce == applied
        },
        bu_accepts(applied, nonce) ==> bu_next(applied, nonce) == nonce,
        !bu_accepts(applied, nonce) ==> bu_next(applied, nonce) == applied,
{
}

/// Two cron checkpoints with the same fields hash to the same bytes, however
/// they were submitted.
pub proof fn lemma_cron_hash_deterministic(a: CronCheckpointView, b: CronCheckpointView)
    requires
        a.epoch == b.epoch,
        a.top_down_msgs == b.top_down_msgs,
    ensures
        cron_digest(a) == cron_digest(b),
{
}

/// In every well-formed cron tally, the accumulated weights sum to the total
/// submitted weight, each validator is counted at most once, and the most
/// voted hash really leads the tally.
pub proof fn lemma_cron_tally_consistent(s: CronSubmissionView)
    requires
        s.wf(),
    ensures
        s.total == sum_counts(s.counts),
        forall|i: int, j: int|
            0 <= i < j < s.submitters.len() ==> s.submitters[i] != s.submitters[j],
        s.most_voted matches Some(h) ==> count_of(s.counts, h) is Some && forall|i: int|
            0 <= i < s.counts.len() ==> s.counts[i].count <= count_of(s.counts, h)->Some_0,
{
}

/// The executable epoch queue is strictly ordered and every queued epoch lies
/// strictly after the last executed one.
pub proof fn lemma_executable_queue_ordered(st: StateView)
    requires
        st.wf(),
    ensures
        forall|i: int, j: int|
            0 <= i < j < st.queue_or_empty().len() ==> st.queue_or_empty()[i]
                < st.queue_or_empty()[j],
        forall|i: int|
            0 <= i < st.queue_or_empty().len() ==> #[trigger] st.queue_or_empty()[i]
                > st.last_cron_executed_epoch,
{
}

/// A cross-message operation conserves value: what it received equals what it
/// delivers onward plus the fee it collected.
pub proof fn lemma_cross_fee_conserved(value_received: u128)
    requires
        value_received >= CROSS_MSG_FEE,
    ensures
        (value_received - CROSS_MSG_FEE) + CROSS_MSG_FEE == value_received,
{
}

} // verus!

//! Cron voting: validators of a subnet submit one cron checkpoint per epoch;
//! votes are weighted by stake, tallied per checkpoint hash, and executed
//! once the leading hash has strictly more than two thirds of the total
//! weight behind it.
use vstd::prelude::*;
use vstd::std_specs::cmp::PartialEqSpec;

use crate::codec::enc_cron_checkpoint;
use crate::cross::{MsgView, StorableMsg};
use crate::error::Error;
use crate::hash::multihash_of;

verus! {

/// One validator: its address, its voting weight, and the network address it
/// announces to peers.
#[derive(Debug)]
pub struct Validator {
    pub addr: u64,
    pub weight: u64,
    pub net_addr: String,
}

/// The mathematical content of a `Validator`.
#[verifier::ext_equal]
pub ghost struct ValidatorView {
    pub addr: u64,
    pub weight: u64,
    pub net_addr: Seq<char>,
}

impl View for Validator {
    type V = ValidatorView;

    open spec fn view(&self) -> ValidatorView {
        ValidatorView { addr: self.addr, weight: self.weight, net_addr: self.net_addr@ }
    }
}

/// A whole membership, replaced atomically.
#[derive(Debug)]
pub struct ValidatorSet {
    pub validators: Vec<Validator>,
    pub configuration_number: u64,
}

/// The mathematical content of a `ValidatorSet`.
#[verifier::ext_equal]
pub ghost struct ValidatorSetView {
    pub validators: Seq<ValidatorView>,
    pub configuration_number: u64,
}

impl View for ValidatorSet {
    type V = ValidatorSetView;

    open spec fn view(&self) -> ValidatorSetView {
        ValidatorSetView {
            validators: self.validators@.map_values(|v: Validator| v@),
            configuration_number: self.configuration_number,
        }
    }
}

impl ValidatorSet {
    /// A membership from a list of validators.
    pub fn new(validators: Vec<Validator>, configuration_number: u64) -> (r: ValidatorSet)
        ensures
            r@.validators == validators@.map_values(|v: Validator| v@),
            r@.configuration_number == configuration_number,
    {
        ValidatorSet { validators, configuration_number }
    }
}

/// The summed weight of a list of validators.
pub open spec fn sum_weights(s: Seq<ValidatorView>) -> int
    decreases s.len(),
{
    if s.len() == 0 {
        0
    } else {
        sum_weights(s.drop_last()) + s.last().weight
    }
}

/// The weight of the first validator with address `addr`, if any.
pub open spec fn weight_of(s: Seq<ValidatorView>, addr: u64) -> Option<u64>
    decreases s.len(),
{
    if s.len() == 0 {
        None
    } else if s[0].addr == addr {
        Some(s[0].weight)
    } else {
        weight_of(s.drop_first(), addr)
    }
}

/// `weight_of` finds exactly the first validator with the address.
pub proof fn lemma_weight_of_first(s: Seq<ValidatorView>, addr: u64, k: int)
    requires
        0 <= k <= s.len(),
        forall|j: int| 0 <= j < k ==> s[j].addr != addr,
        k < s.len() ==> s[k].addr == addr,
    ensures
        k == s.len() ==> weight_of(s, addr) is None,
        k < s.len() ==> weight_of(s, addr) == Some(s[k].weight),
    decreases k,
{
    if k == 0 {
    } else {
        let s1 = s.drop_first();
        assert(forall|j: int| 0 <= j < k - 1 ==> s1[j].addr != addr);
        lemma_weight_of_first(s1, addr, k - 1);
    }
}

/// The sum of the weights stays below the count times the largest weight.
pub proof fn lemma_sum_weights_bound(s: Seq<ValidatorView>)
    ensures
        0 <= sum_weights(s) <= s.len() * (u64::MAX as int),
    decreases s.len(),
{
    if s.len() == 0 {
    } else {
        lemma_sum_weights_bound(s.drop_last());
        assert(s.len() * (u64::MAX as int) == (s.len() - 1) * (u64::MAX as int) + u64::MAX)
            by (nonlinear_arith);
    }
}

/// The validators of a subnet with their cached total weight.
#[derive(Debug)]
pub struct Validators {
    pub validators: ValidatorSet,
    pub total_weight: u128,
}

/// The mathematical content of a `Validators`.
#[verifier::ext_equal]
pub ghost struct ValidatorsView {
    pub validators: ValidatorSetView,
    pub total_weight: u128,
}

impl View for Validators {
    type V = ValidatorsView;

    open spec fn view(&self) -> ValidatorsView {
        ValidatorsView { validators: self.validators@, total_weight: self.total_weight }
    }
}

impl ValidatorsView {
    /// The cached total is the sum of the weights.
    pub open spec fn wf(&self) -> bool {
        self.total_weight == sum_weights(self.validators.validators)
    }
}

impl Validators {
    /// Wrap a membership, caching its total weight.
    pub fn new(validator_set: ValidatorSet) -> (r: Validators)
        ensures
            r@.validators == validator_set@,
            r@.wf(),
    {
        let ghost views = validator_set@.validators;
        let n = validator_set.validators.len();
        let mut total: u128 = 0;
        let mut i: usize = 0;
        proof {
            lemma_sum_weights_bound(views);
            assert(views.len() == n as int);
            assert(views.len() * (u64::MAX as int) <= u128::MAX as int) by (nonlinear_arith)
                requires
                    views.len() <= usize::MAX as int,
            ;
        }
        while i < validator_set.validators.len()
            invariant
                i <= validator_set.validators.len(),
                views == validator_set@.validators,
                total == sum_weights(views.subrange(0, i as int)),
                0 <= sum_weights(views) <= u128::MAX,
            decreases validator_set.validators.len() - i,
        {
            proof {
                let pre = views.subrange(0, i as int);
                let cur = views.subrange(0, i as int + 1);
                assert(cur.drop_last() =~= pre);
                lemma_sum_weights_bound(cur);
                lemma_sum_weights_prefix(views, i as int + 1);
            }
            total = total + validator_set.validators[i].weight as u128;
            i = i + 1;
        }
        proof {
            assert(views.subrange(0, views.len() as int) =~= views);
        }
        Validators { validators: validator_set, total_weight: total }
    }

    /// The weight of the validator with address `addr`, if it is one.
    pub fn get_validator_weight(&self, addr: u64) -> (r: Option<u64>)
        ensures
            r == weight_of(self@.validators.validators, addr),
    {
        let ghost views = self@.validators.validators;
        let n = self.validators.validators.len();
        let mut i: usize = 0;
        while i < n
            invariant
                i <= n,
                n == self.validators.validators.len(),
                views == self@.validators.validators,
                forall|j: int| 0 <= j < i ==> views[j].addr != addr,
            decreases n - i,
        {
            if self.validators.validators[i].addr == addr {
                proof {
                    lemma_weight_of_first(views, addr, i as int);
                }
                return Some(self.validators.validators[i].weight);
            }
            i = i + 1;
        }
        proof {
            lemma_weight_of_first(views, addr, n as int);
        }
        None
    }
}


/// Every validator's weight is at most the total sum.
pub proof fn lemma_weight_le_sum(s: Seq<ValidatorView>, i: int)
    requires
        0 <= i < s.len(),
    ensures
        s[i].weight <= sum_weights(s),
    decreases s.len(),
{
    lemma_sum_weights_bound(s.drop_last());
    if i == s.len() - 1 {
    } else {
        lemma_weight_le_sum(s.drop_last(), i);
    }
}

/// Removing one validator takes exactly its weight out of the sum.
pub proof fn lemma_sum_weights_remove(s: Seq<ValidatorView>, k: int)
    requires
        0 <= k < s.len(),
    ensures
        sum_weights(s.remove(k)) == sum_weights(s) - s[k].weight,
    decreases s.len(),
{
    let t = s.remove(k);
    if k == s.len() - 1 {
        assert(t =~= s.drop_last());
    } else {
        assert(t.drop_last() =~= s.drop_last().remove(k));
        assert(t.last() == s.last());
        lemma_sum_weights_remove(s.drop_last(), k);
    }
}

impl Validators {
    /// Add one validator to the membership; an address already present is
    /// left as it is.
    pub fn add_validator(&mut self, validator: Validator)
        requires
            old(self)@.wf(),
        ensures
            weight_of(old(self)@.validators.validators, validator@.addr) is Some ==> final(self)@
                == old(self)@,
            weight_of(old(self)@.validators.validators, validator@.addr) is None ==> final(self)@
                == (ValidatorsView {
                validators: ValidatorSetView {
                    validators: old(self)@.validators.validators.push(validator@),
                    ..old(self)@.validators
                },
                total_weight: (old(self)@.total_weight + validator@.weight) as u128,
            }),
            final(self)@.wf(),
    {
        let ghost views = self@.validators.validators;
        let n = self.validators.validators.len();
        let mut i: usize = 0;
        while i < n
            invariant
                i <= n,
                n == self.validators.validators.len(),
                views == self@.validators.validators,
                *self == *old(self),
                old(self)@.wf(),
                forall|j: int| 0 <= j < i ==> views[j].addr != validator@.addr,
            decreases n - i,
        {
            if self.validators.validators[i].addr == validator.addr {
                proof {
                    lemma_weight_of_first(views, validator@.addr, i as int);
                }
                return ;
            }
            i = i + 1;
        }
        proof {
            lemma_weight_of_first(views, validator@.addr, n as int);
            lemma_sum_weights_bound(views);
            assert(views.len() == n as int);
            assert((views.len() + 1) * (u64::MAX as int) <= u128::MAX as int) by (nonlinear_arith)
                requires
                    views.len() + 1 <= (usize::MAX as int) + 1,
            ;
            assert(views.len() * (u64::MAX as int) + (u64::MAX as int) == (views.len() + 1) * (
            u64::MAX as int)) by (nonlinear_arith);
        }
        let ghost vv = validator@;
        let w = validator.weight;
        self.validators.validators.push(validator);
        self.total_weight = self.total_weight + w as u128;
        proof {
            let views1 = self@.validators.validators;
            assert(views1 =~= views.push(vv));
            assert(views1.drop_last() =~= views);
            assert(self@ =~~= (ValidatorsView {
                validators: ValidatorSetView {
                    validators: views.push(vv),
                    ..old(self)@.validators
                },
                total_weight: (old(self)@.total_weight + vv.weight) as u128,
            }));
        }
    }

    /// Remove the validator with the given address, if it is one.
    pub fn remove_validator(&mut self, addr: u64)
        requires
            old(self)@.wf(),
        ensures
            weight_of(old(self)@.validators.validators, addr) is None ==> final(self)@ == old(
                self,
            )@,
            weight_of(old(self)@.validators.validators, addr) matches Some(w) ==> exists|k: int|
                {
                    &&& 0 <= k < old(self)@.validators.validators.len()
                    &&& old(self)@.validators.validators[k].addr == addr
                    &&& old(self)@.validators.validators[k].weight == w
                    &&& final(self)@ == (ValidatorsView {
                        validators: ValidatorSetView {
                            validators: old(self)@.validators.validators.remove(k),
                            ..old(self)@.validators
                        },
                        total_weight: (old(self)@.total_weight - w) as u128,
                    })
                },
            final(self)@.wf(),
    {
        let ghost views = self@.validators.validators;
        let n = self.validators.validators.len();
        let mut i: usize = 0;
        while i < n
            invariant
                i <= n,
                n == self.validators.validators.len(),
                views == self@.validators.validators,
                *self == *old(self),
                old(self)@.wf(),
                forall|j: int| 0 <= j < i ==> views[j].addr != addr,
            decreases n - i,
        {
            if self.validators.validators[i].addr == addr {
                proof {
                    lemma_weight_of_first(views, addr, i as int);
                    lemma_weight_le_sum(views, i as int);
                    lemma_sum_weights_remove(views, i as int);
                }
                let w = self.validators.validators[i].weight;
                let _ = self.validators.validators.remove(i);
                self.total_weight = self.total_weight - w as u128;
                proof {
                    let views1 = self@.validators.validators;
                    assert(views1 =~= views.remove(i as int));
                    assert(self@ =~~= (ValidatorsView {
                        validators: ValidatorSetView {
                            validators: views.remove(i as int),
                            ..old(self)@.validators
                        },
                        total_weight: (old(self)@.total_weight - views[i as int].weight) as u128,
                    }));
                }
                return ;
            }
            i = i + 1;
        }
        proof {
            lemma_weight_of_first(views, addr, n as int);
        }
    }
}


impl Clone for Validator {
    fn clone(&self) -> (r: Self)
        ensures
            r@ == self@,
    {
        Validator { addr: self.addr, weight: self.weight, net_addr: self.net_addr.clone() }
    }
}

impl Clone for ValidatorSet {
    fn clone(&self) -> (r: Self)
        ensures
            r@ == self@,
    {
        let validators = self.validators.clone();
        proof {
            assert(validators@.map_values(|v: Validator| v@) =~= self.validators@.map_values(
                |v: Validator| v@,
            ));
        }
        ValidatorSet { validators, configuration_number: self.configuration_number }
    }
}

impl Clone for Validators {
    fn clone(&self) -> (r: Self)
        ensures
            r@ == self@,
    {
        Validators { validators: self.validators.clone(), total_weight: self.total_weight }
    }
}

/// A partial sum of weights never exceeds the total sum.
pub proof fn lemma_sum_weights_prefix(s: Seq<ValidatorView>, k: int)
    requires
        0 <= k <= s.len(),
    ensures
        sum_weights(s.subrange(0, k)) <= sum_weights(s),
    decreases s.len() - k,
{
    if k == s.len() {
        assert(s.subrange(0, k) =~= s);
    } else {
        lemma_sum_weights_prefix(s, k + 1);
        let cur = s.subrange(0, k + 1);
        assert(cur.drop_last() =~= s.subrange(0, k));
        assert(sum_weights(s.subrange(0, k)) <= sum_weights(cur));
    }
}

/// Checkpoints submitted by validators for a cron epoch: the epoch and the
/// top-down messages to apply, sorted strictly ascending by nonce.
#[derive(Debug)]
pub struct CronCheckpoint {
    pub epoch: u64,
    pub top_down_msgs: Vec<StorableMsg>,
}

/// The mathematical content of a `CronCheckpoint`.
#[verifier::ext_equal]
pub ghost struct CronCheckpointView {
    pub epoch: u64,
    pub top_down_msgs: Seq<MsgView>,
}

impl View for CronCheckpoint {
    type V = CronCheckpointView;

    open spec fn view(&self) -> CronCheckpointView {
        CronCheckpointView {
            epoch: self.epoch,
            top_down_msgs: self.top_down_msgs@.map_values(|m: StorableMsg| m@),
        }
    }
}

/// Nonces strictly grow along the list: no duplicates, no disorder.
pub open spec fn nonces_ascending(msgs: Seq<MsgView>) -> bool {
    forall|i: int, j: int| 0 <= i < j < msgs.len() ==> msgs[i].nonce < msgs[j].nonce
}

/// A list whose adjacent nonces grow is strictly ascending throughout.
proof fn lemma_adjacent_ascending(msgs: Seq<MsgView>, i: int, j: int)
    requires
        forall|k: int| 0 < k < msgs.len() ==> #[trigger] msgs[k - 1].nonce < msgs[k].nonce,
        0 <= i < j < msgs.len(),
    ensures
        msgs[i].nonce < msgs[j].nonce,
    decreases j - i,
{
    if j == i + 1 {
        assert(msgs[j - 1].nonce < msgs[j].nonce);
    } else {
        lemma_adjacent_ascending(msgs, i, j - 1);
        assert(msgs[j - 1].nonce < msgs[j].nonce);
    }
}

/// The digest of a cron checkpoint: the hash of its canonical encoding.
pub open spec fn cron_digest(c: CronCheckpointView) -> Seq<u8> {
    multihash_of(enc_cron_checkpoint(c.epoch, c.top_down_msgs))
}

impl CronCheckpoint {
    /// Hash the checkpoint. The top-down messages must come sorted strictly
    /// ascending by nonce; a duplicate or unsorted nonce is refused, so equal
    /// message sets always hash alike.
    pub fn hash(&self) -> (r: Result<Vec<u8>, Error>)
        ensures
            nonces_ascending(self@.top_down_msgs) <==> (r matches Ok(h) && h@ == cron_digest(
                self@,
            )),
            !nonces_ascending(self@.top_down_msgs) <==> (r matches Err(e) && e
                is IllegalArgument),
    {
        let ghost views = self@.top_down_msgs;
        let mut i: usize = 1;
        while i < self.top_down_msgs.len()
            invariant
                1 <= i,
                i <= self.top_down_msgs.len() || self.top_down_msgs.len() == 0,
                views == self@.top_down_msgs,
                forall|k: int| 0 < k < i && k < views.len() ==> #[trigger] views[k - 1].nonce
                    < views[k].nonce,
            decreases self.top_down_msgs.len() - i,
        {
            if self.top_down_msgs[i - 1].nonce == self.top_down_msgs[i].nonce {
                proof {
                    assert(!nonces_ascending(views)) by {
                        if nonces_ascending(views) {
                            assert(views[i as int - 1].nonce < views[i as int].nonce);
                        }
                    }
                }
                return Err(Error::IllegalArgument("top down messages not distinct"));
            }
            if self.top_down_msgs[i - 1].nonce > self.top_down_msgs[i].nonce {
                proof {
                    assert(!nonces_ascending(views)) by {
                        if nonces_ascending(views) {
                            assert(views[i as int - 1].nonce < views[i as int].nonce);
                        }
                    }
                }
                return Err(Error::IllegalArgument("top down messages not sorted"));
            }
            i = i + 1;
        }
        proof {
            assert forall|a: int, b: int| 0 <= a < b < views.len() implies views[a].nonce
                < views[b].nonce by {
                lemma_adjacent_ascending(views, a, b);
            }
        }
        let mut buf: Vec<u8> = Vec::new();
        crate::codec::write_u64(&mut buf, self.epoch);
        crate::codec::write_msg_list(&mut buf, &self.top_down_msgs);
        proof {
            assert(buf@ =~= enc_cron_checkpoint(self@.epoch, views));
        }
        Ok(crate::hash::multihash_bytes(&buf))
    }
}

impl Clone for CronCheckpoint {
    fn clone(&self) -> (r: Self)
        ensures
            r@ == self@,
    {
        let top_down_msgs = self.top_down_msgs.clone();
        proof {
            assert(top_down_msgs@.map_values(|m: StorableMsg| m@) =~= self.top_down_msgs@
                .map_values(|m: StorableMsg| m@));
        }
        CronCheckpoint { epoch: self.epoch, top_down_msgs }
    }
}

impl PartialEq for CronCheckpoint {
    fn eq(&self, other: &CronCheckpoint) -> (r: bool)
    {
        let msgs_eq = self.top_down_msgs == other.top_down_msgs;
        proof {
            let a = self.top_down_msgs@.map_values(|m: StorableMsg| m@);
            let b = other.top_down_msgs@.map_values(|m: StorableMsg| m@);
            if msgs_eq {
                assert(a =~= b);
            } else {
                if self.top_down_msgs@.len() != other.top_down_msgs@.len() {
                    assert(a.len() != b.len());
                } else {
                    let i = choose|i: int|
                        0 <= i < self.top_down_msgs@.len() && !self.top_down_msgs@[i].eq_spec(
                            &other.top_down_msgs@[i],
                        );
                    assert(a[i] != b[i]);
                }
            }
        }
        self.epoch == other.epoch && msgs_eq
    }
}

impl vstd::std_specs::cmp::PartialEqSpecImpl for CronCheckpoint {
    open spec fn obeys_eq_spec() -> bool {
        true
    }

    open spec fn eq_spec(&self, other: &CronCheckpoint) -> bool {
        self@ == other@
    }
}

/// What the tally says about executing an epoch's vote.
#[derive(PartialEq, Eq, Structural, Clone, Copy, Debug)]
pub enum VoteExecutionStatus {
    /// Too little weight has been submitted to decide anything yet.
    ThresholdNotReached,
    /// Enough weight arrived, but no hash leads decisively; keep voting.
    ReachingConsensus,
    /// No remaining weight can lift the leader past the threshold: abort.
    RoundAbort,
    /// The leading hash passed the threshold: execute.
    ConsensusReached,
}

/// The status of a tally, from the total validator weight, the submitted
/// weight, and the weight behind the most voted hash. The threshold is two
/// thirds of the total weight, and must be strictly surpassed.
pub open spec fn spec_execution_status(total: int, submitted: int, most: int)
    -> VoteExecutionStatus {
    let threshold = total * 2 / 3;
    if submitted <= threshold {
        VoteExecutionStatus::ThresholdNotReached
    } else if most > threshold {
        VoteExecutionStatus::ConsensusReached
    } else if threshold - most >= total - submitted {
        VoteExecutionStatus::RoundAbort
    } else {
        VoteExecutionStatus::ReachingConsensus
    }
}

/// One tallied hash with the weight accumulated behind it.
#[derive(Debug)]
pub struct SubmissionCount {
    pub hash: Vec<u8>,
    pub count: u128,
}

/// The mathematical content of a `SubmissionCount`.
#[verifier::ext_equal]
pub ghost struct CountView {
    pub hash: Seq<u8>,
    pub count: u128,
}

impl View for SubmissionCount {
    type V = CountView;

    open spec fn view(&self) -> CountView {
        CountView { hash: self.hash@, count: self.count }
    }
}

/// One submitted checkpoint stored under its digest.
#[derive(Debug)]
pub struct SubmissionEntry {
    pub hash: Vec<u8>,
    pub checkpoint: CronCheckpoint,
}

/// The mathematical content of a `SubmissionEntry`.
#[verifier::ext_equal]
pub ghost struct EntryView {
    pub hash: Seq<u8>,
    pub checkpoint: CronCheckpointView,
}

impl View for SubmissionEntry {
    type V = EntryView;

    open spec fn view(&self) -> EntryView {
        EntryView { hash: self.hash@, checkpoint: self.checkpoint@ }
    }
}

/// The accumulated weight behind the first entry for `h`, if any.
pub open spec fn count_of(s: Seq<CountView>, h: Seq<u8>) -> Option<u128>
    decreases s.len(),
{
    if s.len() == 0 {
        None
    } else if s[0].hash == h {
        Some(s[0].count)
    } else {
        count_of(s.drop_first(), h)
    }
}

/// The checkpoint stored under the first entry for `h`, if any.
pub open spec fn submission_of(s: Seq<EntryView>, h: Seq<u8>) -> Option<CronCheckpointView>
    decreases s.len(),
{
    if s.len() == 0 {
        None
    } else if s[0].hash == h {
        Some(s[0].checkpoint)
    } else {
        submission_of(s.drop_first(), h)
    }
}

/// The total weight accumulated over all tallied hashes.
pub open spec fn sum_counts(s: Seq<CountView>) -> int
    decreases s.len(),
{
    if s.len() == 0 {
        0
    } else {
        sum_counts(s.drop_last()) + s.last().count
    }
}

/// `count_of` finds exactly the first entry with the hash.
pub proof fn lemma_count_of_first(s: Seq<CountView>, h: Seq<u8>, k: int)
    requires
        0 <= k <= s.len(),
        forall|j: int| 0 <= j < k ==> s[j].hash != h,
        k < s.len() ==> s[k].hash == h,
    ensures
        k == s.len() ==> count_of(s, h) is None,
        k < s.len() ==> count_of(s, h) == Some(s[k].count),
    decreases k,
{
    if k == 0 {
    } else {
        let s1 = s.drop_first();
        assert(forall|j: int| 0 <= j < k - 1 ==> s1[j].hash != h);
        lemma_count_of_first(s1, h, k - 1);
    }
}

/// `submission_of` finds exactly the first entry with the hash.
pub proof fn lemma_submission_of_first(s: Seq<EntryView>, h: Seq<u8>, k: int)
    requires
        0 <= k <= s.len(),
        forall|j: int| 0 <= j < k ==> s[j].hash != h,
        k < s.len() ==> s[k].hash == h,
    ensures
        k == s.len() ==> submission_of(s, h) is None,
        k < s.len() ==> submission_of(s, h) == Some(s[k].checkpoint),
    decreases k,
{
    if k == 0 {
    } else {
        let s1 = s.drop_first();
        assert(forall|j: int| 0 <= j < k - 1 ==> s1[j].hash != h);
        lemma_submission_of_first(s1, h, k - 1);
    }
}

/// The total is never negative.
pub proof fn lemma_sum_counts_nonneg(s: Seq<CountView>)
    ensures
        sum_counts(s) >= 0,
    decreases s.len(),
{
    if s.len() > 0 {
        lemma_sum_counts_nonneg(s.drop_last());
    }
}

/// Every tallied weight is at most the total.
pub proof fn lemma_count_le_sum(s: Seq<CountView>, i: int)
    requires
        0 <= i < s.len(),
    ensures
        s[i].count <= sum_counts(s),
    decreases s.len(),
{
    lemma_sum_counts_nonneg(s.drop_last());
    if i == s.len() - 1 {
    } else {
        lemma_count_le_sum(s.drop_last(), i);
    }
}

/// Replacing one tallied entry shifts the total by the difference.
pub proof fn lemma_sum_counts_update(s: Seq<CountView>, k: int, e: CountView)
    requires
        0 <= k < s.len(),
    ensures
        sum_counts(s.update(k, e)) == sum_counts(s) - s[k].count + e.count,
    decreases s.len(),
{
    let t = s.update(k, e);
    if k == s.len() - 1 {
        assert(t.drop_last() =~= s.drop_last());
        assert(t.last() == e);
    } else {
        assert(t.drop_last() =~= s.drop_last().update(k, e));
        assert(t.last() == s.last());
        lemma_sum_counts_update(s.drop_last(), k, e);
    }
}


/// A tally no vote has touched.
pub open spec fn empty_tally() -> CronSubmissionView {
    CronSubmissionView {
        total: 0u128,
        most_voted: None::<Seq<u8>>,
        submitters: Seq::<u64>::empty(),
        counts: Seq::<CountView>::empty(),
        submissions: Seq::<EntryView>::empty(),
    }
}

/// A tally after its round was aborted: submitters and counts cleared, the
/// stored checkpoints kept for reuse.
pub open spec fn aborted(s: CronSubmissionView) -> CronSubmissionView {
    CronSubmissionView {
        total: 0u128,
        most_voted: None::<Seq<u8>>,
        submitters: Seq::<u64>::empty(),
        counts: Seq::<CountView>::empty(),
        submissions: s.submissions,
    }
}

/// The weight behind the most voted hash of a tally.
pub open spec fn leader_weight(s: CronSubmissionView) -> u128 {
    count_of(s.counts, s.most_voted->Some_0)->Some_0
}

/// What one recorded vote does to a tally: the submitter joins once, its
/// weight lands on the checkpoint's digest, the checkpoint is stored under
/// the digest if it was not yet, and the leader changes exactly when the new
/// count strictly exceeds the old leader's.
pub open spec fn vote_recorded(
    s0: CronSubmissionView,
    s1: CronSubmissionView,
    submitter: u64,
    weight: u64,
    c: CronCheckpointView,
) -> bool {
    let d = cron_digest(c);
    let nc = (count_of_or_zero(s0.counts, d) + weight) as u128;
    &&& s1.submitters == s0.submitters.push(submitter)
    &&& s1.total == s0.total + weight
    &&& submission_of(s1.submissions, d) is Some
    &&& (submission_of(s0.submissions, d) is None ==> submission_of(s1.submissions, d) == Some(c))
    &&& (submission_of(s0.submissions, d) is Some ==> s1.submissions == s0.submissions)
    &&& count_of(s1.counts, d) == Some(nc)
    &&& s1.most_voted is Some
    &&& count_of(s1.counts, s1.most_voted->Some_0) is Some
    &&& (s0.most_voted is None ==> s1.most_voted == Some(d))
    &&& (s0.most_voted == Some(d) ==> s1.most_voted == Some(d))
    &&& (match s0.most_voted {
        Some(m) => m != d ==> {
            let mc = count_of_or_zero(s0.counts, m);
            &&& (nc > mc ==> s1.most_voted == Some(d))
            &&& (nc <= mc ==> s1.most_voted == Some(m))
        },
        None => true,
    })
}


/// The stored checkpoints after one vote for digest `d` of checkpoint `c`:
/// unchanged when the digest is already stored, extended by it otherwise.
pub open spec fn next_submissions(
    s0: CronSubmissionView,
    d: Seq<u8>,
    c: CronCheckpointView,
) -> Seq<EntryView> {
    if submission_of(s0.submissions, d) is Some {
        s0.submissions
    } else {
        s0.submissions.push(EntryView { hash: d, checkpoint: c })
    }
}

/// The most voted hash after `weight` lands on digest `d`: the leader changes
/// exactly when the new count strictly exceeds the old leader's.
pub open spec fn next_leader(s0: CronSubmissionView, d: Seq<u8>, weight: u64) -> Seq<u8> {
    let nc = (count_of_or_zero(s0.counts, d) + weight) as u128;
    match s0.most_voted {
        None => d,
        Some(m) => if m == d {
            d
        } else if nc > count_of_or_zero(s0.counts, m) {
            d
        } else {
            m
        },
    }
}

/// The weight behind the most voted hash after `weight` lands on digest `d`.
pub open spec fn next_leader_weight(s0: CronSubmissionView, d: Seq<u8>, weight: u64) -> int {
    let nc = (count_of_or_zero(s0.counts, d) + weight) as u128;
    match s0.most_voted {
        None => nc as int,
        Some(m) => if m == d {
            nc as int
        } else if nc > count_of_or_zero(s0.counts, m) {
            nc as int
        } else {
            count_of_or_zero(s0.counts, m)
        },
    }
}

/// The tally of one epoch's cron submissions.
#[derive(Debug)]
pub struct CronSubmission {
    total_submitted_weight: u128,
    most_voted_hash: Option<Vec<u8>>,
    submitters: Vec<u64>,
    submission_counts: Vec<SubmissionCount>,
    submissions: Vec<SubmissionEntry>,
}

/// The mathematical content of a `CronSubmission`.
#[verifier::ext_equal]
pub ghost struct CronSubmissionView {
    pub total: u128,
    pub most_voted: Option<Seq<u8>>,
    pub submitters: Seq<u64>,
    pub counts: Seq<CountView>,
    pub submissions: Seq<EntryView>,
}

impl View for CronSubmission {
    type V = CronSubmissionView;

    closed spec fn view(&self) -> CronSubmissionView {
        CronSubmissionView {
            total: self.total_submitted_weight,
            most_voted: match self.most_voted_hash {
                Some(h) => Some(h@),
                None => None,
            },
            submitters: self.submitters@,
            counts: self.submission_counts@.map_values(|c: SubmissionCount| c@),
            submissions: self.submissions@.map_values(|e: SubmissionEntry| e@),
        }
    }
}

impl CronSubmissionView {
    /// Each validator appears at most once among the submitters.
    pub open spec fn distinct_submitters(&self) -> bool {
        forall|i: int, j: int|
            0 <= i < j < self.submitters.len() ==> self.submitters[i] != self.submitters[j]
    }

    /// Each hash is tallied under at most one entry.
    pub open spec fn distinct_counts(&self) -> bool {
        forall|i: int, j: int|
            0 <= i < j < self.counts.len() ==> self.counts[i].hash != self.counts[j].hash
    }

    /// Each hash stores at most one checkpoint.
    pub open spec fn distinct_submissions(&self) -> bool {
        forall|i: int, j: int|
            0 <= i < j < self.submissions.len() ==> self.submissions[i].hash
                != self.submissions[j].hash
    }

    /// The cached total equals the sum over the tally.
    pub open spec fn total_is_sum(&self) -> bool {
        self.total == sum_counts(self.counts)
    }

    /// The total stays within what the submitters can have contributed.
    pub open spec fn bounded(&self) -> bool {
        self.total <= self.submitters.len() * (u64::MAX as int)
    }

    /// The most voted hash is a tallied hash of maximal weight, absent only
    /// while the tally is empty.
    pub open spec fn most_voted_ok(&self) -> bool {
        match self.most_voted {
            None => self.counts.len() == 0,
            Some(h) => {
                &&& count_of(self.counts, h) is Some
                &&& forall|i: int|
                    0 <= i < self.counts.len() ==> self.counts[i].count <= count_of(
                        self.counts,
                        h,
                    )->Some_0
            },
        }
    }

    /// Every tallied hash stores the checkpoint it stands for.
    pub open spec fn counts_have_submissions(&self) -> bool {
        forall|i: int|
            0 <= i < self.counts.len() ==> submission_of(
                self.submissions,
                #[trigger] self.counts[i].hash,
            ) is Some
    }

    /// The arithmetic and uniqueness invariants of a tally: everything but
    /// the link from counted hashes to stored checkpoints and the weight
    /// bound.
    pub open spec fn wf_tally(&self) -> bool {
        &&& self.distinct_submitters()
        &&& self.distinct_counts()
        &&& self.distinct_submissions()
        &&& self.total_is_sum()
        &&& self.most_voted_ok()
    }

    /// The structural invariants of a tally, apart from the weight bound.
    pub open spec fn wf_core(&self) -> bool {
        &&& self.wf_tally()
        &&& self.counts_have_submissions()
    }

    /// All the invariants of a tally together.
    pub open spec fn wf(&self) -> bool {
        &&& self.wf_core()
        &&& self.bounded()
    }
}


impl Clone for SubmissionCount {
    fn clone(&self) -> (r: Self)
        ensures
            r@ == self@,
    {
        let hash = self.hash.clone();
        proof {
            assert(hash@ =~= self.hash@);
        }
        SubmissionCount { hash, count: self.count }
    }
}

impl Clone for SubmissionEntry {
    fn clone(&self) -> (r: Self)
        ensures
            r@ == self@,
    {
        let hash = self.hash.clone();
        proof {
            assert(hash@ =~= self.hash@);
        }
        SubmissionEntry { hash, checkpoint: self.checkpoint.clone() }
    }
}

impl Clone for CronSubmission {
    fn clone(&self) -> (r: Self)
        ensures
            r@ == self@,
    {
        let most_voted_hash = match &self.most_voted_hash {
            Some(h) => {
                let c = h.clone();
                proof {
                    assert(c@ =~= h@);
                }
                Some(c)
            },
            None => None,
        };
        let submitters = self.submitters.clone();
        let submission_counts = self.submission_counts.clone();
        let submissions = self.submissions.clone();
        proof {
            assert(submitters@ =~= self.submitters@);
            assert(submission_counts@.map_values(|c: SubmissionCount| c@)
                =~= self.submission_counts@.map_values(|c: SubmissionCount| c@));
            assert(submissions@.map_values(|e: SubmissionEntry| e@) =~= self.submissions@
                .map_values(|e: SubmissionEntry| e@));
        }
        let r = CronSubmission {
            total_submitted_weight: self.total_submitted_weight,
            most_voted_hash,
            submitters,
            submission_counts,
            submissions,
        };
        proof {
            assert(r@ =~~= self@);
        }
        r
    }
}

/// The index of the first tallied entry for `hash`, if any.
fn find_count(counts: &Vec<SubmissionCount>, hash: &Vec<u8>) -> (r: Option<usize>)
    ensures
        ({
            let views = counts@.map_values(|c: SubmissionCount| c@);
            match r {
                None => forall|j: int| 0 <= j < views.len() ==> views[j].hash != hash@,
                Some(k) => {
                    &&& k < views.len()
                    &&& views[k as int].hash == hash@
                    &&& forall|j: int| 0 <= j < k ==> views[j].hash != hash@
                },
            }
        }),
{
    let ghost views = counts@.map_values(|c: SubmissionCount| c@);
    let mut i: usize = 0;
    while i < counts.len()
        invariant
            i <= counts.len(),
            views == counts@.map_values(|c: SubmissionCount| c@),
            forall|j: int| 0 <= j < i ==> views[j].hash != hash@,
        decreases counts.len() - i,
    {
        if &counts[i].hash == hash {
            proof {
                assert(views[i as int].hash =~= hash@);
            }
            return Some(i);
        }
        proof {
            assert(views[i as int].hash != hash@) by {
                if views[i as int].hash == hash@ {
                    assert(counts@[i as int].hash@ =~= hash@);
                }
            }
        }
        i = i + 1;
    }
    None
}

/// The index of the first stored checkpoint for `hash`, if any.
fn find_submission(subs: &Vec<SubmissionEntry>, hash: &Vec<u8>) -> (r: Option<usize>)
    ensures
        ({
            let views = subs@.map_values(|e: SubmissionEntry| e@);
            match r {
                None => forall|j: int| 0 <= j < views.len() ==> views[j].hash != hash@,
                Some(k) => {
                    &&& k < views.len()
                    &&& views[k as int].hash == hash@
                    &&& forall|j: int| 0 <= j < k ==> views[j].hash != hash@
                },
            }
        }),
{
    let ghost views = subs@.map_values(|e: SubmissionEntry| e@);
    let mut i: usize = 0;
    while i < subs.len()
        invariant
            i <= subs.len(),
            views == subs@.map_values(|e: SubmissionEntry| e@),
            forall|j: int| 0 <= j < i ==> views[j].hash != hash@,
        decreases subs.len() - i,
    {
        if &subs[i].hash == hash {
            proof {
                assert(views[i as int].hash =~= hash@);
            }
            return Some(i);
        }
        proof {
            assert(views[i as int].hash != hash@) by {
                if views[i as int].hash == hash@ {
                    assert(subs@[i as int].hash@ =~= hash@);
                }
            }
        }
        i = i + 1;
    }
    None
}

impl CronSubmission {
    /// An empty tally.
    pub fn new() -> (r: CronSubmission)
        ensures
            r@ == (CronSubmissionView {
                total: 0u128,
                most_voted: None::<Seq<u8>>,
                submitters: Seq::<u64>::empty(),
                counts: Seq::<CountView>::empty(),
                submissions: Seq::<EntryView>::empty(),
            }),
            r@.wf(),
    {
        let r = CronSubmission {
            total_submitted_weight: 0,
            most_voted_hash: None,
            submitters: Vec::new(),
            submission_counts: Vec::new(),
            submissions: Vec::new(),
        };
        proof {
            assert(r@ =~= (CronSubmissionView {
                total: 0u128,
                most_voted: None::<Seq<u8>>,
                submitters: Seq::<u64>::empty(),
                counts: Seq::<CountView>::empty(),
                submissions: Seq::<EntryView>::empty(),
            }));
        }
        r
    }

    /// Abort the round: clear the submitters and the tally but keep the
    /// stored checkpoints, so a later round need not store them again.
    pub fn abort(&mut self)
        requires
            old(self)@.wf(),
        ensures
            final(self)@ == (CronSubmissionView {
                total: 0u128,
                most_voted: None::<Seq<u8>>,
                submitters: Seq::<u64>::empty(),
                counts: Seq::<CountView>::empty(),
                submissions: old(self)@.submissions,
            }),
            final(self)@.wf(),
    {
        self.total_submitted_weight = 0;
        self.most_voted_hash = None;
        self.submitters = Vec::new();
        self.submission_counts = Vec::new();
        proof {
            assert(self@ =~= (CronSubmissionView {
                total: 0u128,
                most_voted: None::<Seq<u8>>,
                submitters: Seq::<u64>::empty(),
                counts: Seq::<CountView>::empty(),
                submissions: old(self)@.submissions,
            }));
        }
    }

    /// Has this validator already submitted in this round?
    pub fn has_submitted(&self, submitter: u64) -> (r: bool)
        ensures
            r == self@.submitters.contains(submitter),
    {
        let mut i: usize = 0;
        while i < self.submitters.len()
            invariant
                i <= self.submitters.len(),
                forall|j: int| 0 <= j < i ==> self@.submitters[j] != submitter,
            decreases self.submitters.len() - i,
        {
            if self.submitters[i] == submitter {
                return true;
            }
            i = i + 1;
        }
        false
    }

    /// The most voted hash so far, if any vote arrived.
    pub fn most_voted_hash(&self) -> (r: &Option<Vec<u8>>)
        ensures
            match r {
                Some(h) => self@.most_voted == Some(h@),
                None => self@.most_voted is None,
            },
    {
        &self.most_voted_hash
    }

    /// The total weight submitted so far in this round.
    pub fn total_submitted_weight(&self) -> (r: u128)
        ensures
            r == self@.total,
    {
        self.total_submitted_weight
    }

    /// Mark the validator as having submitted. A second submission by the
    /// same validator in one round is refused.
    pub fn update_submitters(&mut self, submitter: u64) -> (r: Result<(), Error>)
        requires
            old(self)@.wf(),
        ensures
            old(self)@.submitters.contains(submitter) ==> (r matches Err(e) && e
                is IllegalArgument && final(self)@ == old(self)@),
            !old(self)@.submitters.contains(submitter) ==> r is Ok && final(self)@ == (
            CronSubmissionView { submitters: old(self)@.submitters.push(submitter), ..old(self)@ }),
            final(self)@.wf(),
    {
        if self.has_submitted(submitter) {
            return Err(Error::IllegalArgument("already submitted"));
        }
        self.submitters.push(submitter);
        proof {
            assert(self@ =~= (CronSubmissionView {
                submitters: old(self)@.submitters.push(submitter),
                ..old(self)@
            }));
            assert(self@.bounded()) by {
                let a = old(self)@.submitters.len() as int;
                let b = self@.submitters.len() as int;
                assert(a * (u64::MAX as int) <= b * (u64::MAX as int)) by (nonlinear_arith)
                    requires
                        0 <= a <= b,
                ;
            }
        }
        Ok(())
    }

    /// Store the checkpoint under its digest if it is not stored yet, and
    /// hand the digest back. A checkpoint with unsorted or duplicate nonces
    /// is refused.
    pub fn insert_checkpoint(&mut self, checkpoint: &CronCheckpoint) -> (r: Result<Vec<u8>, Error>)
        requires
            old(self)@.wf(),
        ensures
            !nonces_ascending(checkpoint@.top_down_msgs) ==> (r matches Err(e) && e
                is IllegalArgument && final(self)@ == old(self)@),
            nonces_ascending(checkpoint@.top_down_msgs) ==> (r matches Ok(h) && {
                let d = cron_digest(checkpoint@);
                &&& h@ == d
                &&& (submission_of(old(self)@.submissions, d) is Some ==> final(self)@ == old(
                    self,
                )@)
                &&& (submission_of(old(self)@.submissions, d) is None ==> final(self)@ == (
                CronSubmissionView {
                    submissions: old(self)@.submissions.push(
                        EntryView { hash: d, checkpoint: checkpoint@ },
                    ),
                    ..old(self)@
                }) && submission_of(final(self)@.submissions, d) == Some(checkpoint@))
                &&& submission_of(final(self)@.submissions, d) is Some
            }),
            final(self)@.wf(),
    {
        let hash = match checkpoint.hash() {
            Ok(h) => h,
            Err(e) => {
                return Err(e);
            },
        };
        let ghost d = cron_digest(checkpoint@);
        match find_submission(&self.submissions, &hash) {
            Some(k) => {
                proof {
                    lemma_submission_of_first(self@.submissions, d, k as int);
                }
                Ok(hash)
            },
            None => {
                proof {
                    lemma_submission_of_first(self@.submissions, d, self@.submissions.len() as int);
                }
                let entry = SubmissionEntry { hash: hash.clone(), checkpoint: checkpoint.clone() };
                proof {
                    assert(entry@ == (EntryView { hash: d, checkpoint: checkpoint@ })) by {
                        assert(entry.hash@ =~= d);
                    }
                }
                self.submissions.push(entry);
                proof {
                    let subs1 = self@.submissions;
                    let subs0 = old(self)@.submissions;
                    assert(subs1 =~= subs0.push(EntryView { hash: d, checkpoint: checkpoint@ }));
                    assert(self@ =~= (CronSubmissionView {
                        submissions: subs0.push(EntryView { hash: d, checkpoint: checkpoint@ }),
                        ..old(self)@
                    }));
                    lemma_submission_of_first(subs1, d, subs0.len() as int);
                    assert(self@.counts_have_submissions()) by {
                        assert forall|i: int| 0 <= i < self@.counts.len() implies submission_of(
                            subs1,
                            #[trigger] self@.counts[i].hash,
                        ) is Some by {
                            let h2 = self@.counts[i].hash;
                            assert(submission_of(subs0, h2) is Some);
                            lemma_submission_unchanged_by_push(
                                subs0,
                                EntryView { hash: d, checkpoint: checkpoint@ },
                                h2,
                            );
                        }
                    }
                }
                Ok(hash)
            },
        }
    }

    /// The checkpoint stored under `hash`, if any.
    pub fn get_submission(&self, hash: &Vec<u8>) -> (r: Result<Option<CronCheckpoint>, Error>)
        ensures
            r matches Ok(o) && match submission_of(self@.submissions, hash@) {
                Some(c) => o matches Some(cp) && cp@ == c,
                None => o is None,
            },
    {
        match find_submission(&self.submissions, hash) {
            Some(k) => {
                proof {
                    lemma_submission_of_first(self@.submissions, hash@, k as int);
                }
                Ok(Some(self.submissions[k].checkpoint.clone()))
            },
            None => {
                proof {
                    lemma_submission_of_first(
                        self@.submissions,
                        hash@,
                        self@.submissions.len() as int,
                    );
                }
                Ok(None)
            },
        }
    }

    /// The checkpoint stored under the most voted hash, if a vote arrived.
    pub fn load_most_submitted_checkpoint(&self) -> (r: Result<Option<CronCheckpoint>, Error>)
        ensures
            r matches Ok(o) && match self@.most_voted {
                Some(h) => match submission_of(self@.submissions, h) {
                    Some(c) => o matches Some(cp) && cp@ == c,
                    None => o is None,
                },
                None => o is None,
            },
    {
        let hash = match &self.most_voted_hash {
            Some(h) => h.clone(),
            None => {
                return Ok(None);
            },
        };
        proof {
            assert(hash@ =~= self@.most_voted->Some_0);
        }
        self.get_submission(&hash)
    }

    /// The weight tallied under `hash`, if any vote named it.
    pub fn get_submission_count(&self, hash: &Vec<u8>) -> (r: Result<Option<u128>, Error>)
        ensures
            r matches Ok(o) && o == count_of(self@.counts, hash@),
    {
        match find_count(&self.submission_counts, hash) {
            Some(k) => {
                proof {
                    lemma_count_of_first(self@.counts, hash@, k as int);
                }
                Ok(Some(self.submission_counts[k].count))
            },
            None => {
                proof {
                    lemma_count_of_first(self@.counts, hash@, self@.counts.len() as int);
                }
                Ok(None)
            },
        }
    }
}

/// Pushing an entry with a fresh hash leaves every earlier lookup unchanged.
pub proof fn lemma_submission_unchanged_by_push(s: Seq<EntryView>, e: EntryView, h: Seq<u8>)
    requires
        submission_of(s, h) is Some,
    ensures
        submission_of(s.push(e), h) == submission_of(s, h),
    decreases s.len(),
{
    if s.len() == 0 {
    } else if s[0].hash == h {
        assert(s.push(e)[0] == s[0]);
    } else {
        assert(s.push(e).drop_first() =~= s.drop_first().push(e));
        lemma_submission_unchanged_by_push(s.drop_first(), e, h);
    }
}


/// A successful tally lookup names an entry that is really there.
pub proof fn lemma_count_of_some_index(s: Seq<CountView>, h: Seq<u8>)
    requires
        count_of(s, h) is Some,
    ensures
        exists|i: int| 0 <= i < s.len() && s[i].hash == h,
    decreases s.len(),
{
    if s.len() == 0 {
    } else if s[0].hash == h {
        assert(s[0].hash == h);
    } else {
        lemma_count_of_some_index(s.drop_first(), h);
        let i = choose|i: int|
            0 <= i < s.drop_first().len() && s.drop_first()[i].hash == h;
        assert(s[i + 1].hash == h);
    }
}

/// The weight already tallied under `h`, zero when none is.
pub open spec fn count_of_or_zero(s: Seq<CountView>, h: Seq<u8>) -> int {
    match count_of(s, h) {
        Some(c) => c as int,
        None => 0,
    }
}

impl CronSubmission {
    /// Add `weight` to the tally of `hash` and refresh the most voted hash.
    /// Returns the weight now behind the most voted hash.
    #[verifier::rlimit(50)]
    pub fn update_submission_count(&mut self, hash: Vec<u8>, weight: u64) -> (r: Result<
        u128,
        Error,
    >)
        requires
            old(self)@.wf_tally(),
            old(self)@.total + weight <= u128::MAX,
        ensures
            r matches Ok(c) && ({
                let d = hash@;
                let nc = (count_of_or_zero(old(self)@.counts, d) + weight) as u128;
                &&& final(self)@.total == old(self)@.total + weight
                &&& final(self)@.submitters == old(self)@.submitters
                &&& final(self)@.submissions == old(self)@.submissions
                &&& count_of(final(self)@.counts, d) == Some(nc)
                &&& (count_of(old(self)@.counts, d) is None ==> final(self)@.counts == old(
                    self,
                )@.counts.push(CountView { hash: d, count: nc }))
                &&& (count_of(old(self)@.counts, d) is Some ==> exists|k: int|
                    {
                        &&& 0 <= k < old(self)@.counts.len()
                        &&& old(self)@.counts[k].hash == d
                        &&& final(self)@.counts == old(self)@.counts.update(
                            k,
                            CountView { hash: d, count: nc },
                        )
                    })
                &&& (old(self)@.most_voted is None ==> final(self)@.most_voted == Some(d) && c
                    == nc)
                &&& (old(self)@.most_voted == Some(d) ==> final(self)@.most_voted == Some(d) && c
                    == nc)
                &&& (match old(self)@.most_voted {
                    Some(m) => m != d ==> {
                        let mc = count_of_or_zero(old(self)@.counts, m);
                        &&& (nc > mc ==> final(self)@.most_voted == Some(d) && c == nc)
                        &&& (nc <= mc ==> final(self)@.most_voted == old(self)@.most_voted && c
                            == mc)
                    },
                    None => true,
                })
                &&& final(self)@.most_voted is Some
                &&& count_of(final(self)@.counts, final(self)@.most_voted->Some_0) == Some(c)
            }),
            final(self)@.wf_tally(),
            (old(self)@.counts_have_submissions() && (count_of(old(self)@.counts, hash@) is None
                ==> submission_of(old(self)@.submissions, hash@) is Some))
                ==> final(self)@.counts_have_submissions(),
    {
        let ghost d = hash@;
        let ghost counts0 = self@.counts;

        // What leads the tally now, before this vote lands.
        let mv_case: u8;
        let mut mv_count: u128 = 0;
        match &self.most_voted_hash {
            None => {
                mv_case = 0;
            },
            Some(m) => {
                if m == &hash {
                    mv_case = 1;
                    proof {
                        assert(m@ =~= d);
                    }
                } else {
                    mv_case = 2;
                    proof {
                        assert(m@ != d) by {
                            if m@ == d {
                                assert(m@ =~= hash@);
                            }
                        }
                    }
                    match find_count(&self.submission_counts, m) {
                        Some(km) => {
                            proof {
                                lemma_count_of_first(counts0, m@, km as int);
                            }
                            mv_count = self.submission_counts[km].count;
                        },
                        None => {
                            proof {
                                lemma_count_of_first(counts0, m@, counts0.len() as int);
                                assert(false);
                            }
                        },
                    }
                }
            },
        }
        let ghost mv0 = self@.most_voted;

        // Land the vote in the tally.
        let nc: u128;
        match find_count(&self.submission_counts, &hash) {
            Some(k) => {
                proof {
                    lemma_count_of_first(counts0, d, k as int);
                    lemma_count_le_sum(counts0, k as int);
                }
                let mut e = self.submission_counts.remove(k);
                e.count = e.count + weight as u128;
                nc = e.count;
                self.submission_counts.insert(k, e);
                proof {
                    let counts1 = self@.counts;
                    assert(counts1 =~= counts0.update(
                        k as int,
                        CountView { hash: d, count: nc },
                    )) by {
                        assert(e.hash@ =~= d);
                    }
                    lemma_sum_counts_update(counts0, k as int, CountView { hash: d, count: nc });
                    lemma_count_of_first(counts1, d, k as int);
                }
            },
            None => {
                proof {
                    lemma_count_of_first(counts0, d, counts0.len() as int);
                }
                let e = SubmissionCount { hash: hash.clone(), count: weight as u128 };
                nc = e.count;
                proof {
                    assert(e@ == (CountView { hash: d, count: weight as u128 })) by {
                        assert(e.hash@ =~= d);
                    }
                }
                self.submission_counts.push(e);
                proof {
                    let counts1 = self@.counts;
                    assert(counts1 =~= counts0.push(CountView { hash: d, count: nc }));
                    assert(counts1.drop_last() =~= counts0);
                    lemma_count_of_first(counts1, d, counts0.len() as int);
                    assert forall|i: int, j: int|
                        0 <= i < j < counts1.len() implies counts1[i].hash
                        != counts1[j].hash by {
                        if j == counts1.len() - 1 {
                            assert(counts1[i] == counts0[i]);
                        }
                    }
                }
            },
        }
        self.total_submitted_weight = self.total_submitted_weight + weight as u128;

        let ghost counts1 = self@.counts;

        proof {
            // The tally under every other hash is untouched.
            assert forall|i: int|
                0 <= i < counts1.len() && counts1[i].hash != d implies counts1[i]
                == counts0[i] by {
            }
            if mv_case == 2 {
                let m = mv0->Some_0;
                let km = choose|km: int|
                    0 <= km < counts0.len() && counts0[km].hash == m && (forall|j: int|
                        0 <= j < km ==> counts0[j].hash != m);
                lemma_count_of_first(counts0, m, km);
                assert(counts1[km] == counts0[km]);
                assert(forall|j: int| 0 <= j < km ==> counts1[j].hash != m);
                lemma_count_of_first(counts1, m, km);
                assert(count_of(counts1, m) == Some(mv_count));
            }
        }

        // Refresh the leader.
        if mv_case == 0 {
            proof {
                assert(counts0.len() == 0);
                assert(counts1 =~= seq![CountView { hash: d, count: nc }]);
            }
            self.most_voted_hash = Some(hash);
            proof {
                lemma_mv_invariant_holds(self@, d, nc);
                assert(self@.submitters == old(self)@.submitters);
                assert(old(self)@.distinct_submitters());
                assert(self@.distinct_submitters());
                assert(self@.distinct_counts());
                assert(self@.distinct_submissions());
                assert(self@.total_is_sum());
                assert(self@.most_voted_ok());
                if old(self)@.counts_have_submissions() && (count_of(old(self)@.counts, d)
                    is None ==> submission_of(old(self)@.submissions, d) is Some) {
                    assert(self@.counts_have_submissions());
                }
            }
            Ok(nc)
        } else if mv_case == 1 {
            proof {
                lemma_mv_invariant_holds(self@, d, nc);
                assert(self@.submitters == old(self)@.submitters);
                assert(old(self)@.distinct_submitters());
                assert(self@.distinct_submitters());
                assert(self@.distinct_counts());
                assert(self@.distinct_submissions());
                assert(self@.total_is_sum());
                assert(self@.most_voted_ok());
                if old(self)@.counts_have_submissions() && (count_of(old(self)@.counts, d)
                    is None ==> submission_of(old(self)@.submissions, d) is Some) {
                    assert(self@.counts_have_submissions());
                }
            }
            Ok(nc)
        } else if nc > mv_count {
            self.most_voted_hash = Some(hash);
            proof {
                lemma_mv_invariant_holds(self@, d, nc);
                assert(self@.submitters == old(self)@.submitters);
                assert(old(self)@.distinct_submitters());
                assert(self@.distinct_submitters());
                assert(self@.distinct_counts());
                assert(self@.distinct_submissions());
                assert(self@.total_is_sum());
                assert(self@.most_voted_ok());
                if old(self)@.counts_have_submissions() && (count_of(old(self)@.counts, d)
                    is None ==> submission_of(old(self)@.submissions, d) is Some) {
                    assert(self@.counts_have_submissions());
                }
            }
            Ok(nc)
        } else {
            proof {
                lemma_mv_invariant_holds(self@, mv0->Some_0, mv_count);
                assert(self@.submitters == old(self)@.submitters);
                assert(old(self)@.distinct_submitters());
                assert(self@.distinct_submitters());
                assert(self@.distinct_counts());
                assert(self@.distinct_submissions());
                assert(self@.total_is_sum());
                assert(self@.most_voted_ok());
                if old(self)@.counts_have_submissions() && (count_of(old(self)@.counts, d)
                    is None ==> submission_of(old(self)@.submissions, d) is Some) {
                    assert(self@.counts_have_submissions());
                }
            }
            Ok(mv_count)
        }
    }
}

/// The leader invariant holds once the named hash carries the greatest
/// tallied weight.
proof fn lemma_mv_invariant_holds(v: CronSubmissionView, h: Seq<u8>, c: u128)
    requires
        v.most_voted == Some(h),
        count_of(v.counts, h) == Some(c),
        forall|i: int| 0 <= i < v.counts.len() ==> v.counts[i].count <= c,
    ensures
        v.most_voted_ok(),
{
}

impl CronSubmission {
    /// Record one validator's vote: refuse a second vote from the same
    /// validator and a checkpoint with unsorted nonces; otherwise store the
    /// checkpoint, tally the validator's weight behind its digest, and return
    /// the weight now behind the most voted hash. A refused vote leaves the
    /// tally untouched.
    pub fn submit(&mut self, submitter: u64, submitter_weight: u64, checkpoint: &CronCheckpoint)
        -> (r: Result<u128, Error>)
        requires
            old(self)@.wf(),
        ensures
            ({
                let d = cron_digest(checkpoint@);
                let already = old(self)@.submitters.contains(submitter);
                let sorted = nonces_ascending(checkpoint@.top_down_msgs);
                &&& (r is Err <==> already || !sorted)
                &&& (r matches Err(e) ==> e is IllegalArgument && final(self)@ == old(self)@)
                &&& (r matches Ok(c) ==> {
                    &&& final(self)@.submitters == old(self)@.submitters.push(submitter)
                    &&& final(self)@.total == old(self)@.total + submitter_weight
                    &&& submission_of(final(self)@.submissions, d) is Some
                    &&& (submission_of(old(self)@.submissions, d) is None ==> submission_of(
                        final(self)@.submissions,
                        d,
                    ) == Some(checkpoint@) && final(self)@.submissions == old(
                        self,
                    )@.submissions.push(EntryView { hash: d, checkpoint: checkpoint@ }))
                    &&& (submission_of(old(self)@.submissions, d) is Some
                        ==> final(self)@.submissions == old(self)@.submissions)
                    &&& count_of(final(self)@.counts, d) == Some(
                        (count_of_or_zero(old(self)@.counts, d) + submitter_weight) as u128,
                    )
                    &&& final(self)@.most_voted is Some
                    &&& count_of(final(self)@.counts, final(self)@.most_voted->Some_0) == Some(c)
                    &&& (old(self)@.most_voted is None ==> final(self)@.most_voted == Some(d))
                    &&& (old(self)@.most_voted == Some(d) ==> final(self)@.most_voted == Some(d))
                    &&& (match old(self)@.most_voted {
                        Some(m) => m != d ==> {
                            let nc = (count_of_or_zero(old(self)@.counts, d) + submitter_weight)
                                as u128;
                            let mc = count_of_or_zero(old(self)@.counts, m);
                            &&& (nc > mc ==> final(self)@.most_voted == Some(d) && c == nc)
                            &&& (nc <= mc ==> final(self)@.most_voted == Some(m) && c == mc)
                        },
                        None => true,
                    })
                })
            }),
            final(self)@.wf(),
    {
        // Validate the checkpoint first, so that a refusal leaves no trace.
        match checkpoint.hash() {
            Ok(_) => (),
            Err(e) => {
                return Err(e);
            },
        }
        if self.has_submitted(submitter) {
            return Err(Error::IllegalArgument("already submitted"));
        }
        let n0 = self.submitters.len();
        let ghost v0 = self@;
        match self.update_submitters(submitter) {
            Ok(_) => (),
            Err(_) => {
                proof {
                    assert(false);
                }
            },
        }
        let hash = match self.insert_checkpoint(checkpoint) {
            Ok(h) => h,
            Err(_) => {
                proof {
                    assert(false);
                }
                return Err(Error::IllegalArgument("already submitted"));
            },
        };
        proof {
            // The new submitter leaves headroom for its weight in the total.
            let len0 = v0.submitters.len() as int;
            let m = u64::MAX as int;
            assert(len0 == n0 as int);
            assert(v0.total <= len0 * m);
            assert(len0 * m + m == (len0 + 1) * m) by (nonlinear_arith);
            assert((len0 + 1) * m <= ((usize::MAX as int) + 1) * m) by (nonlinear_arith)
                requires
                    0 <= len0 + 1 <= (usize::MAX as int) + 1 && m >= 0,
            ;
            assert(((usize::MAX as int) + 1) * (u64::MAX as int) <= u128::MAX as int)
                by (nonlinear_arith);
        }
        let ghost mid = self@;
        match self.update_submission_count(hash, submitter_weight) {
            Ok(c) => {
                proof {
                    let len0 = v0.submitters.len() as int;
                    let m = u64::MAX as int;
                    assert(self@.submitters.len() == len0 + 1);
                    assert(len0 * m + m == (len0 + 1) * m) by (nonlinear_arith);
                    assert(self@.bounded());
                    assert(mid.counts_have_submissions());
                    assert(self@.counts_have_submissions());
                }
                Ok(c)
            },
            Err(_) => {
                proof {
                    assert(false);
                }
                Err(Error::IllegalArgument("already submitted"))
            },
        }
    }

    /// What the tally says, given the total validator weight and the weight
    /// behind the most voted hash. The threshold is two thirds of the total
    /// weight and must be strictly surpassed; a round where the remaining
    /// unsubmitted weight can no longer lift the leader past the threshold is
    /// aborted.
    pub fn derive_execution_status(&self, total_validators_weight: u128, most_voted_weight: u128)
        -> (r: VoteExecutionStatus)
        ensures
            r == spec_execution_status(
                total_validators_weight as int,
                self@.total as int,
                most_voted_weight as int,
            ),
    {
        let total = total_validators_weight;
        proof {
            let t = total as int;
            assert((t / 3) * 2 + ((t % 3) * 2) / 3 == t * 2 / 3 && t * 2 / 3 <= t)
                by (nonlinear_arith)
                requires
                    t >= 0,
            ;
        }
        let threshold = total / 3 * 2 + (total % 3) * 2 / 3;
        let submitted = self.total_submitted_weight;
        if submitted <= threshold {
            VoteExecutionStatus::ThresholdNotReached
        } else if most_voted_weight > threshold {
            VoteExecutionStatus::ConsensusReached
        } else if total <= submitted {
            VoteExecutionStatus::RoundAbort
        } else {
            let can_gain = total - submitted;
            let leader_needs = threshold - most_voted_weight;
            if leader_needs >= can_gain {
                VoteExecutionStatus::RoundAbort
            } else {
                VoteExecutionStatus::ReachingConsensus
            }
        }
    }
}

} // verus!
//! The persistent root of the gateway: the subnet registry, the window
//! checkpoints, the postbox, the nonce counters and the cron voting state,
//! owned by one `State` value that every operation threads through.
use vstd::prelude::*;

use crate::{DEFAULT_CHECKPOINT_PERIOD, MAX_NONCE, MIN_COLLATERAL_AMOUNT};
use crate::checkpoint::{Checkpoint, CheckpointView, CrossMsgMeta, CrossMsgMetaView, window_epoch};
use crate::codec::{enc_postbox_item, write_postbox_item};
use crate::cron::{CronSubmission, CronSubmissionView, Validators, ValidatorSet, ValidatorsView};
use crate::cross::{CrossMsg, CrossMsgView, StorableMsg};
use crate::error::Error;
use crate::hash::{cid_bytes, cid_of};
use crate::subnet::{Status, Subnet, SubnetView, status_for_stake};
use crate::subnet_id::SubnetID;

verus! {

/// A cross-message waiting in the postbox for someone to propagate it, with
/// the raw addresses allowed to do so; no owner list means anyone may.
#[derive(Debug)]
pub struct PostBoxItem {
    pub cross_msg: CrossMsg,
    pub owners: Option<Vec<u64>>,
}

/// The mathematical content of a `PostBoxItem`.
#[verifier::ext_equal]
pub ghost struct PostBoxItemView {
    pub cross_msg: CrossMsgView,
    pub owners: Option<Seq<u64>>,
}

impl View for PostBoxItem {
    type V = PostBoxItemView;

    open spec fn view(&self) -> PostBoxItemView {
        PostBoxItemView {
            cross_msg: self.cross_msg@,
            owners: match self.owners {
                Some(l) => Some(l@),
                None => None,
            },
        }
    }
}

impl PostBoxItemView {
    /// The canonical bytes this item is stored as.
    pub open spec fn spec_bytes(&self) -> Seq<u8> {
        enc_postbox_item(self.cross_msg, self.owners)
    }

    /// The key this item is stored under: the content id of its bytes.
    pub open spec fn spec_key(&self) -> Seq<u8> {
        cid_of(self.spec_bytes())
    }
}

impl PostBoxItem {
    /// Pack a cross-message with its allowed propagators.
    pub fn new(cross_msg: CrossMsg, owners: Option<Vec<u64>>) -> (r: PostBoxItem)
        ensures
            r@.cross_msg == cross_msg@,
            r@.owners == match owners {
                Some(l) => Some(l@),
                None => None::<Seq<u64>>,
            },
    {
        PostBoxItem { cross_msg, owners }
    }

    /// The canonical bytes of the item together with their content id.
    pub fn serialize_with_cid(&self) -> (r: Result<(Vec<u8>, Vec<u8>), Error>)
        ensures
            r matches Ok(p) && p.0@ == self@.spec_key() && p.1@ == self@.spec_bytes(),
    {
        let mut bytes: Vec<u8> = Vec::new();
        write_postbox_item(&mut bytes, &self.cross_msg, &self.owners);
        let cid = cid_bytes(&bytes);
        Ok((cid, bytes))
    }
}

impl Clone for PostBoxItem {
    fn clone(&self) -> (r: Self)
        ensures
            r@ == self@,
    {
        let owners = match &self.owners {
            Some(l) => {
                let c = l.clone();
                proof {
                    assert(c@ =~= l@);
                }
                Some(c)
            },
            None => None,
        };
        PostBoxItem { cross_msg: self.cross_msg.clone(), owners }
    }
}

/// One postbox slot: the key and the item stored under it.
#[derive(Debug)]
pub struct PostBoxEntry {
    pub key: Vec<u8>,
    pub item: PostBoxItem,
}

/// The mathematical content of a `PostBoxEntry`.
#[verifier::ext_equal]
pub ghost struct PostBoxEntryView {
    pub key: Seq<u8>,
    pub item: PostBoxItemView,
}

impl View for PostBoxEntry {
    type V = PostBoxEntryView;

    open spec fn view(&self) -> PostBoxEntryView {
        PostBoxEntryView { key: self.key@, item: self.item@ }
    }
}

/// One epoch's cron tally.
#[derive(Debug)]
pub struct EpochSubmission {
    pub epoch: u64,
    pub submission: CronSubmission,
}

/// The mathematical content of an `EpochSubmission`.
#[verifier::ext_equal]
pub ghost struct EpochSubmissionView {
    pub epoch: u64,
    pub submission: CronSubmissionView,
}

impl View for EpochSubmission {
    type V = EpochSubmissionView;

    open spec fn view(&self) -> EpochSubmissionView {
        EpochSubmissionView { epoch: self.epoch, submission: self.submission@ }
    }
}

/// The parameters the gateway is constructed with.
#[derive(Debug)]
pub struct ConstructorParams {
    pub network_name: SubnetID,
    pub checkpoint_period: u64,
    pub genesis_epoch: u64,
    pub cron_period: u64,
}

/// The persistent root of the gateway.
#[derive(Debug)]
pub struct State {
    pub network_name: SubnetID,
    pub total_subnets: u64,
    pub min_stake: u128,
    pub subnets: Vec<Subnet>,
    pub check_period: u64,
    pub checkpoints: Vec<Checkpoint>,
    pub postbox: Vec<PostBoxEntry>,
    pub nonce: u64,
    pub bottomup_nonce: u64,
    pub bottomup_msg_meta: Vec<CrossMsgMeta>,
    pub applied_bottomup_nonce: u64,
    pub applied_topdown_nonce: u64,
    pub genesis_epoch: u64,
    pub cron_period: u64,
    pub last_cron_executed_epoch: u64,
    pub executable_epoch_queue: Option<Vec<u64>>,
    pub cron_submissions: Vec<EpochSubmission>,
    pub validators: Validators,
}

/// The mathematical content of the `State`.
#[verifier::ext_equal]
pub ghost struct StateView {
    pub network_name: Seq<u64>,
    pub total_subnets: u64,
    pub min_stake: u128,
    pub subnets: Seq<SubnetView>,
    pub check_period: u64,
    pub checkpoints: Seq<CheckpointView>,
    pub postbox: Seq<PostBoxEntryView>,
    pub nonce: u64,
    pub bottomup_nonce: u64,
    pub bottomup_msg_meta: Seq<CrossMsgMetaView>,
    pub applied_bottomup_nonce: u64,
    pub applied_topdown_nonce: u64,
    pub genesis_epoch: u64,
    pub cron_period: u64,
    pub last_cron_executed_epoch: u64,
    pub executable_epoch_queue: Option<Seq<u64>>,
    pub cron_submissions: Seq<EpochSubmissionView>,
    pub validators: ValidatorsView,
}

impl View for State {
    type V = StateView;

    open spec fn view(&self) -> StateView {
        StateView {
            network_name: self.network_name@,
            total_subnets: self.total_subnets,
            min_stake: self.min_stake,
            subnets: self.subnets@.map_values(|s: Subnet| s@),
            check_period: self.check_period,
            checkpoints: self.checkpoints@.map_values(|c: Checkpoint| c@),
            postbox: self.postbox@.map_values(|e: PostBoxEntry| e@),
            nonce: self.nonce,
            bottomup_nonce: self.bottomup_nonce,
            bottomup_msg_meta: self.bottomup_msg_meta@.map_values(|m: CrossMsgMeta| m@),
            applied_bottomup_nonce: self.applied_bottomup_nonce,
            applied_topdown_nonce: self.applied_topdown_nonce,
            genesis_epoch: self.genesis_epoch,
            cron_period: self.cron_period,
            last_cron_executed_epoch: self.last_cron_executed_epoch,
            executable_epoch_queue: match self.executable_epoch_queue {
                Some(q) => Some(q@),
                None => None,
            },
            cron_submissions: self.cron_submissions@.map_values(|e: EpochSubmission| e@),
            validators: self.validators@,
        }
    }
}


impl Clone for PostBoxEntry {
    fn clone(&self) -> (r: Self)
        ensures
            r@ == self@,
    {
        let key = self.key.clone();
        proof {
            assert(key@ =~= self.key@);
        }
        PostBoxEntry { key, item: self.item.clone() }
    }
}

impl Clone for EpochSubmission {
    fn clone(&self) -> (r: Self)
        ensures
            r@ == self@,
    {
        EpochSubmission { epoch: self.epoch, submission: self.submission.clone() }
    }
}

impl Clone for State {
    fn clone(&self) -> (r: Self)
        ensures
            r@ == self@,
    {
        let subnets = self.subnets.clone();
        let checkpoints = self.checkpoints.clone();
        let postbox = self.postbox.clone();
        let bottomup_msg_meta = self.bottomup_msg_meta.clone();
        let executable_epoch_queue = match &self.executable_epoch_queue {
            Some(q) => {
                let c = q.clone();
                proof {
                    assert(c@ =~= q@);
                }
                Some(c)
            },
            None => None,
        };
        let cron_submissions = self.cron_submissions.clone();
        proof {
            assert(subnets@.map_values(|x: Subnet| x@) =~= self.subnets@.map_values(
                |x: Subnet| x@,
            ));
            assert(checkpoints@.map_values(|x: Checkpoint| x@) =~= self.checkpoints@.map_values(
                |x: Checkpoint| x@,
            ));
            assert(postbox@.map_values(|x: PostBoxEntry| x@) =~= self.postbox@.map_values(
                |x: PostBoxEntry| x@,
            ));
            assert(bottomup_msg_meta@.map_values(|x: CrossMsgMeta| x@) =~= self.bottomup_msg_meta@
                .map_values(|x: CrossMsgMeta| x@));
            assert(cron_submissions@.map_values(|x: EpochSubmission| x@) =~= self
                .cron_submissions@.map_values(|x: EpochSubmission| x@));
        }
        let r = State {
            network_name: self.network_name.clone(),
            total_subnets: self.total_subnets,
            min_stake: self.min_stake,
            subnets,
            check_period: self.check_period,
            checkpoints,
            postbox,
            nonce: self.nonce,
            bottomup_nonce: self.bottomup_nonce,
            bottomup_msg_meta,
            applied_bottomup_nonce: self.applied_bottomup_nonce,
            applied_topdown_nonce: self.applied_topdown_nonce,
            genesis_epoch: self.genesis_epoch,
            cron_period: self.cron_period,
            last_cron_executed_epoch: self.last_cron_executed_epoch,
            executable_epoch_queue,
            cron_submissions,
            validators: self.validators.clone(),
        };
        proof {
            assert(r@ =~~= self@);
        }
        r
    }
}

/// The subnet registered under `id`, if any.
pub open spec fn subnet_of(s: Seq<SubnetView>, id: Seq<u64>) -> Option<SubnetView>
    decreases s.len(),
{
    if s.len() == 0 {
        None
    } else if s[0].id == id {
        Some(s[0])
    } else {
        subnet_of(s.drop_first(), id)
    }
}

/// `subnet_of` finds exactly the first subnet with the id.
pub proof fn lemma_subnet_of_first(s: Seq<SubnetView>, id: Seq<u64>, k: int)
    requires
        0 <= k <= s.len(),
        forall|j: int| 0 <= j < k ==> s[j].id != id,
        k < s.len() ==> s[k].id == id,
    ensures
        k == s.len() ==> subnet_of(s, id) is None,
        k < s.len() ==> subnet_of(s, id) == Some(s[k]),
    decreases k,
{
    if k == 0 {
    } else {
        let s1 = s.drop_first();
        assert(forall|j: int| 0 <= j < k - 1 ==> s1[j].id != id);
        lemma_subnet_of_first(s1, id, k - 1);
    }
}

/// The checkpoint stored for `epoch`, if any.
pub open spec fn checkpoint_of(s: Seq<CheckpointView>, epoch: u64) -> Option<CheckpointView>
    decreases s.len(),
{
    if s.len() == 0 {
        None
    } else if s[0].data.epoch == epoch {
        Some(s[0])
    } else {
        checkpoint_of(s.drop_first(), epoch)
    }
}

/// `checkpoint_of` finds exactly the first checkpoint with the epoch.
pub proof fn lemma_checkpoint_of_first(s: Seq<CheckpointView>, epoch: u64, k: int)
    requires
        0 <= k <= s.len(),
        forall|j: int| 0 <= j < k ==> s[j].data.epoch != epoch,
        k < s.len() ==> s[k].data.epoch == epoch,
    ensures
        k == s.len() ==> checkpoint_of(s, epoch) is None,
        k < s.len() ==> checkpoint_of(s, epoch) == Some(s[k]),
    decreases k,
{
    if k == 0 {
    } else {
        let s1 = s.drop_first();
        assert(forall|j: int| 0 <= j < k - 1 ==> s1[j].data.epoch != epoch);
        lemma_checkpoint_of_first(s1, epoch, k - 1);
    }
}

/// The postbox item stored under `key`, if any.
pub open spec fn postbox_of(s: Seq<PostBoxEntryView>, key: Seq<u8>) -> Option<PostBoxItemView>
    decreases s.len(),
{
    if s.len() == 0 {
        None
    } else if s[0].key == key {
        Some(s[0].item)
    } else {
        postbox_of(s.drop_first(), key)
    }
}

/// `postbox_of` finds exactly the first entry with the key.
pub proof fn lemma_postbox_of_first(s: Seq<PostBoxEntryView>, key: Seq<u8>, k: int)
    requires
        0 <= k <= s.len(),
        forall|j: int| 0 <= j < k ==> s[j].key != key,
        k < s.len() ==> s[k].key == key,
    ensures
        k == s.len() ==> postbox_of(s, key) is None,
        k < s.len() ==> postbox_of(s, key) == Some(s[k].item),
    decreases k,
{
    if k == 0 {
    } else {
        let s1 = s.drop_first();
        assert(forall|j: int| 0 <= j < k - 1 ==> s1[j].key != key);
        lemma_postbox_of_first(s1, key, k - 1);
    }
}

/// The cron tally stored for `epoch`, if any.
pub open spec fn cron_submission_of(s: Seq<EpochSubmissionView>, epoch: u64) -> Option<
    CronSubmissionView,
>
    decreases s.len(),
{
    if s.len() == 0 {
        None
    } else if s[0].epoch == epoch {
        Some(s[0].submission)
    } else {
        cron_submission_of(s.drop_first(), epoch)
    }
}

/// `cron_submission_of` finds exactly the first tally with the epoch.
pub proof fn lemma_cron_submission_of_first(s: Seq<EpochSubmissionView>, epoch: u64, k: int)
    requires
        0 <= k <= s.len(),
        forall|j: int| 0 <= j < k ==> s[j].epoch != epoch,
        k < s.len() ==> s[k].epoch == epoch,
    ensures
        k == s.len() ==> cron_submission_of(s, epoch) is None,
        k < s.len() ==> cron_submission_of(s, epoch) == Some(s[k].submission),
    decreases k,
{
    if k == 0 {
    } else {
        let s1 = s.drop_first();
        assert(forall|j: int| 0 <= j < k - 1 ==> s1[j].epoch != epoch);
        lemma_cron_submission_of_first(s1, epoch, k - 1);
    }
}


/// The postbox after storing `item` under `key`: the slot already carrying
/// the key is overwritten, or a fresh slot is appended.
pub open spec fn postbox_set(
    s: Seq<PostBoxEntryView>,
    key: Seq<u8>,
    item: PostBoxItemView,
) -> Seq<PostBoxEntryView>
    decreases s.len(),
{
    if s.len() == 0 {
        seq![PostBoxEntryView { key, item }]
    } else if s[0].key == key {
        seq![PostBoxEntryView { key, item }] + s.drop_first()
    } else {
        seq![s[0]] + postbox_set(s.drop_first(), key, item)
    }
}

/// With the key already stored at slot `k` and nowhere earlier, storing is
/// overwriting that slot.
pub proof fn lemma_postbox_set_update(
    s: Seq<PostBoxEntryView>,
    k: int,
    key: Seq<u8>,
    item: PostBoxItemView,
)
    requires
        0 <= k < s.len(),
        s[k].key == key,
        forall|j: int| 0 <= j < k ==> s[j].key != key,
    ensures
        postbox_set(s, key, item) == s.update(k, PostBoxEntryView { key, item }),
    decreases k,
{
    if k == 0 {
        assert(postbox_set(s, key, item) =~= s.update(0, PostBoxEntryView { key, item }));
    } else {
        let s1 = s.drop_first();
        assert(forall|j: int| 0 <= j < k - 1 ==> s1[j].key != key);
        lemma_postbox_set_update(s1, k - 1, key, item);
        assert(postbox_set(s, key, item) =~= s.update(k, PostBoxEntryView { key, item }));
    }
}

/// With the key absent, storing is appending a fresh slot.
pub proof fn lemma_postbox_set_push(s: Seq<PostBoxEntryView>, key: Seq<u8>, item: PostBoxItemView)
    requires
        forall|j: int| 0 <= j < s.len() ==> s[j].key != key,
    ensures
        postbox_set(s, key, item) == s.push(PostBoxEntryView { key, item }),
    decreases s.len(),
{
    if s.len() == 0 {
        assert(postbox_set(s, key, item) =~= s.push(PostBoxEntryView { key, item }));
    } else {
        let s1 = s.drop_first();
        lemma_postbox_set_push(s1, key, item);
        assert(postbox_set(s, key, item) =~= s.push(PostBoxEntryView { key, item }));
    }
}

/// Under unique keys, what `inserted_postbox` relates is exactly the
/// functional store.
pub proof fn lemma_inserted_postbox_functional(
    pre: StateView,
    post: StateView,
    key: Seq<u8>,
    item: PostBoxItemView,
)
    requires
        inserted_postbox(pre, post, key, item),
        forall|i: int, j: int| 0 <= i < j < pre.postbox.len() ==> pre.postbox[i].key
            != pre.postbox[j].key,
    ensures
        post == (StateView { postbox: postbox_set(pre.postbox, key, item), ..pre }),
{
    if postbox_of(pre.postbox, key) is Some {
        let k = choose|k: int|
            {
                &&& 0 <= k < pre.postbox.len()
                &&& pre.postbox[k].key == key
                &&& post.postbox == pre.postbox.update(k, PostBoxEntryView { key, item })
            };
        assert(forall|j: int| 0 <= j < k ==> pre.postbox[j].key != key);
        lemma_postbox_set_update(pre.postbox, k, key, item);
        assert(post =~= (StateView { postbox: postbox_set(pre.postbox, key, item), ..pre }));
    } else {
        assert forall|j: int| 0 <= j < pre.postbox.len() implies pre.postbox[j].key != key by {
            lemma_postbox_of_none(pre.postbox, key, j);
        }
        lemma_postbox_set_push(pre.postbox, key, item);
        assert(post =~= (StateView { postbox: postbox_set(pre.postbox, key, item), ..pre }));
    }
}

/// In a postbox with no entry under the key, every slot misses it.
pub proof fn lemma_postbox_of_none(s: Seq<PostBoxEntryView>, key: Seq<u8>, j: int)
    requires
        postbox_of(s, key) is None,
        0 <= j < s.len(),
    ensures
        s[j].key != key,
    decreases j,
{
    if j == 0 {
    } else {
        lemma_postbox_of_none(s.drop_first(), key, j - 1);
    }
}

/// A strictly ascending sequence of epochs.
pub open spec fn strictly_ascending(q: Seq<u64>) -> bool {
    forall|i: int, j: int| 0 <= i < j < q.len() ==> q[i] < q[j]
}

impl StateView {
    /// The epochs waiting for ordered execution, empty when there are none.
    pub open spec fn queue_or_empty(&self) -> Seq<u64> {
        match self.executable_epoch_queue {
            Some(q) => q,
            None => Seq::empty(),
        }
    }

    /// All the invariants of the gateway state together: periods are
    /// positive; subnets are registered once each with dense top-down
    /// queues; checkpoints, postbox slots and cron tallies are keyed once
    /// each and every tally is internally consistent; the executable queue
    /// is strictly ordered, never empty when present, and only holds epochs
    /// still ahead of the last executed one; the cached validator total is
    /// the sum of the weights.
    pub open spec fn wf(&self) -> bool {
        &&& self.check_period > 0
        &&& self.cron_period > 0
        &&& self.min_stake == MIN_COLLATERAL_AMOUNT
        &&& self.total_subnets == self.subnets.len()
        &&& (forall|i: int, j: int|
            0 <= i < j < self.subnets.len() ==> self.subnets[i].id != self.subnets[j].id)
        &&& (forall|i: int| 0 <= i < self.subnets.len() ==> (#[trigger] self.subnets[i]).wf())
        &&& (forall|i: int, j: int|
            0 <= i < j < self.checkpoints.len() ==> self.checkpoints[i].data.epoch
                != self.checkpoints[j].data.epoch)
        &&& (forall|i: int, j: int|
            0 <= i < j < self.postbox.len() ==> self.postbox[i].key != self.postbox[j].key)
        &&& (forall|i: int, j: int|
            0 <= i < j < self.cron_submissions.len() ==> self.cron_submissions[i].epoch
                != self.cron_submissions[j].epoch)
        &&& (forall|i: int|
            0 <= i < self.cron_submissions.len() ==> (#[trigger] self.cron_submissions[i])
                .submission.wf())
        &&& strictly_ascending(self.queue_or_empty())
        &&& (self.executable_epoch_queue matches Some(q) ==> q.len() > 0)
        &&& (forall|i: int|
            0 <= i < self.queue_or_empty().len() ==> #[trigger] self.queue_or_empty()[i]
                > self.last_cron_executed_epoch)
        &&& self.validators.wf()
    }
}

/// The index of the subnet registered under `id`, if any.
pub fn find_subnet(subnets: &Vec<Subnet>, id: &SubnetID) -> (r: Option<usize>)
    ensures
        ({
            let views = subnets@.map_values(|s: Subnet| s@);
            match r {
                None => forall|j: int| 0 <= j < views.len() ==> views[j].id != id@,
                Some(k) => {
                    &&& k < views.len()
                    &&& views[k as int].id == id@
                    &&& forall|j: int| 0 <= j < k ==> views[j].id != id@
                },
            }
        }),
{
    let ghost views = subnets@.map_values(|s: Subnet| s@);
    let mut i: usize = 0;
    while i < subnets.len()
        invariant
            i <= subnets.len(),
            views == subnets@.map_values(|s: Subnet| s@),
            forall|j: int| 0 <= j < i ==> views[j].id != id@,
        decreases subnets.len() - i,
    {
        if &subnets[i].id == id {
            proof {
                assert(views[i as int].id =~= id@);
            }
            return Some(i);
        }
        proof {
            assert(views[i as int].id != id@) by {
                if views[i as int].id == id@ {
                    assert(subnets@[i as int].id@ =~= id@);
                }
            }
        }
        i = i + 1;
    }
    None
}

/// The index of the checkpoint stored for `epoch`, if any.
pub fn find_checkpoint(checkpoints: &Vec<Checkpoint>, epoch: u64) -> (r: Option<usize>)
    ensures
        ({
            let views = checkpoints@.map_values(|c: Checkpoint| c@);
            match r {
                None => forall|j: int| 0 <= j < views.len() ==> views[j].data.epoch != epoch,
                Some(k) => {
                    &&& k < views.len()
                    &&& views[k as int].data.epoch == epoch
                    &&& forall|j: int| 0 <= j < k ==> views[j].data.epoch != epoch
                },
            }
        }),
{
    let ghost views = checkpoints@.map_values(|c: Checkpoint| c@);
    let mut i: usize = 0;
    while i < checkpoints.len()
        invariant
            i <= checkpoints.len(),
            views == checkpoints@.map_values(|c: Checkpoint| c@),
            forall|j: int| 0 <= j < i ==> views[j].data.epoch != epoch,
        decreases checkpoints.len() - i,
    {
        if checkpoints[i].epoch() == epoch {
            return Some(i);
        }
        i = i + 1;
    }
    None
}

/// The index of the postbox entry stored under `key`, if any.
pub fn find_postbox(postbox: &Vec<PostBoxEntry>, key: &Vec<u8>) -> (r: Option<usize>)
    ensures
        ({
            let views = postbox@.map_values(|e: PostBoxEntry| e@);
            match r {
                None => forall|j: int| 0 <= j < views.len() ==> views[j].key != key@,
                Some(k) => {
                    &&& k < views.len()
                    &&& views[k as int].key == key@
                    &&& forall|j: int| 0 <= j < k ==> views[j].key != key@
                },
            }
        }),
{
    let ghost views = postbox@.map_values(|e: PostBoxEntry| e@);
    let mut i: usize = 0;
    while i < postbox.len()
        invariant
            i <= postbox.len(),
            views == postbox@.map_values(|e: PostBoxEntry| e@),
            forall|j: int| 0 <= j < i ==> views[j].key != key@,
        decreases postbox.len() - i,
    {
        if &postbox[i].key == key {
            proof {
                assert(views[i as int].key =~= key@);
            }
            return Some(i);
        }
        proof {
            assert(views[i as int].key != key@) by {
                if views[i as int].key == key@ {
                    assert(postbox@[i as int].key@ =~= key@);
                }
            }
        }
        i = i + 1;
    }
    None
}

/// The index of the cron tally stored for `epoch`, if any.
pub fn find_cron_submission(subs: &Vec<EpochSubmission>, epoch: u64) -> (r: Option<usize>)
    ensures
        ({
            let views = subs@.map_values(|e: EpochSubmission| e@);
            match r {
                None => forall|j: int| 0 <= j < views.len() ==> views[j].epoch != epoch,
                Some(k) => {
                    &&& k < views.len()
                    &&& views[k as int].epoch == epoch
                    &&& forall|j: int| 0 <= j < k ==> views[j].epoch != epoch
                },
            }
        }),
{
    let ghost views = subs@.map_values(|e: EpochSubmission| e@);
    let mut i: usize = 0;
    while i < subs.len()
        invariant
            i <= subs.len(),
            views == subs@.map_values(|e: EpochSubmission| e@),
            forall|j: int| 0 <= j < i ==> views[j].epoch != epoch,
        decreases subs.len() - i,
    {
        if subs[i].epoch == epoch {
            return Some(i);
        }
        i = i + 1;
    }
    None
}

/// The bottom-up message meta registered under `nonce`, when there is one.
pub fn get_bottomup_msg(crossmsgs: &Vec<CrossMsgMeta>, nonce: u64) -> (r: Option<&CrossMsgMeta>)
    ensures
        nonce < crossmsgs@.len() ==> (r matches Some(m) && m@ == crossmsgs@[nonce as int]@),
        nonce >= crossmsgs@.len() ==> r is None,
{
    if nonce < crossmsgs.len() as u64 {
        let i = nonce as usize;
        Some(&crossmsgs[i])
    } else {
        None
    }
}

/// Insert or replace the subnet registered under its id, keeping one entry
/// per id.
pub fn set_subnet(subnets: &mut Vec<Subnet>, subnet: Subnet)
    ensures
        ({
            let views0 = old(subnets)@.map_values(|s: Subnet| s@);
            let views1 = final(subnets)@.map_values(|s: Subnet| s@);
            &&& (subnet_of(views0, subnet@.id) is None ==> views1 == views0.push(subnet@))
            &&& (subnet_of(views0, subnet@.id) is Some ==> exists|k: int|
                {
                    &&& 0 <= k < views0.len()
                    &&& views0[k].id == subnet@.id
                    &&& (forall|j: int| 0 <= j < k ==> views0[j].id != subnet@.id)
                    &&& views1 == views0.update(k, subnet@)
                })
        }),
{
    let ghost views0 = subnets@.map_values(|s: Subnet| s@);
    match find_subnet(subnets, &subnet.id) {
        Some(k) => {
            proof {
                lemma_subnet_of_first(views0, subnet@.id, k as int);
            }
            let _ = subnets.remove(k);
            subnets.insert(k, subnet);
            proof {
                assert(subnets@.map_values(|s: Subnet| s@) =~= views0.update(
                    k as int,
                    subnet@,
                ));
            }
        },
        None => {
            proof {
                lemma_subnet_of_first(views0, subnet@.id, views0.len() as int);
            }
            subnets.push(subnet);
            proof {
                assert(subnets@.map_values(|s: Subnet| s@) =~= views0.push(subnet@));
            }
        },
    }
}

/// Insert or replace the checkpoint stored for its epoch, keeping one entry
/// per epoch.
pub fn set_checkpoint(checkpoints: &mut Vec<Checkpoint>, ch: Checkpoint)
    ensures
        ({
            let views0 = old(checkpoints)@.map_values(|c: Checkpoint| c@);
            let views1 = final(checkpoints)@.map_values(|c: Checkpoint| c@);
            &&& (checkpoint_of(views0, ch@.data.epoch) is None ==> views1 == views0.push(ch@))
            &&& (checkpoint_of(views0, ch@.data.epoch) is Some ==> exists|k: int|
                {
                    &&& 0 <= k < views0.len()
                    &&& views0[k].data.epoch == ch@.data.epoch
                    &&& (forall|j: int| 0 <= j < k ==> views0[j].data.epoch != ch@.data.epoch)
                    &&& views1 == views0.update(k, ch@)
                })
        }),
{
    let ghost views0 = checkpoints@.map_values(|c: Checkpoint| c@);
    let epoch = ch.epoch();
    match find_checkpoint(checkpoints, epoch) {
        Some(k) => {
            proof {
                lemma_checkpoint_of_first(views0, epoch, k as int);
            }
            let _ = checkpoints.remove(k);
            checkpoints.insert(k, ch);
            proof {
                assert(checkpoints@.map_values(|c: Checkpoint| c@) =~= views0.update(
                    k as int,
                    ch@,
                ));
            }
        },
        None => {
            proof {
                lemma_checkpoint_of_first(views0, epoch, views0.len() as int);
            }
            checkpoints.push(ch);
            proof {
                assert(checkpoints@.map_values(|c: Checkpoint| c@) =~= views0.push(ch@));
            }
        },
    }
}


/// What staging an item in the postbox does: the item sits under the content
/// id of its bytes, either as a fresh slot or overwriting the slot that
/// already carried that key, and nothing else moves.
pub open spec fn inserted_postbox(
    pre: StateView,
    post: StateView,
    key: Seq<u8>,
    item: PostBoxItemView,
) -> bool {
    &&& key == item.spec_key()
    &&& postbox_of(post.postbox, key) == Some(item)
    &&& post == (StateView { postbox: post.postbox, ..pre })
    &&& (postbox_of(pre.postbox, key) is None ==> post.postbox == pre.postbox.push(
        PostBoxEntryView { key: key, item: item },
    ))
    &&& (postbox_of(pre.postbox, key) is Some ==> exists|k: int|
        {
            &&& 0 <= k < pre.postbox.len()
            &&& pre.postbox[k].key == key
            &&& post.postbox == pre.postbox.update(k, PostBoxEntryView { key: key, item: item })
        })
}


/// Whether a top-down message can be committed at this gateway: the network
/// stands strictly above the destination, the next-hop child is registered,
/// and its counters have room.
pub open spec fn can_commit_topdown(pre: StateView, m: CrossMsgView) -> bool {
    let net = pre.network_name;
    let sto = m.msg.to.subnet;
    let child = sto.subrange(0, net.len() as int + 1);
    &&& net.len() < sto.len()
    &&& crate::subnet_id::is_prefix(net, sto)
    &&& (match subnet_of(pre.subnets, child) {
        Some(sub) => sub.topdown_nonce < u64::MAX && sub.circ_supply + m.msg.value <= u128::MAX,
        None => false,
    })
}

/// What committing a top-down message does: the message lands in the next-hop
/// child's queue under the child's next nonce, the nonce advances, the value
/// joins the child's circulating supply, and nothing else moves.
pub open spec fn committed_topdown(pre: StateView, post: StateView, m: CrossMsgView) -> bool {
    let net = pre.network_name;
    let sto = m.msg.to.subnet;
    let child = sto.subrange(0, net.len() as int + 1);
    exists|k: int|
        {
            &&& 0 <= k < pre.subnets.len()
            &&& pre.subnets[k].id == child
            &&& post == (StateView {
                subnets: pre.subnets.update(
                    k,
                    SubnetView {
                        top_down_msgs: pre.subnets[k].top_down_msgs.push(
                            CrossMsgView {
                                msg: crate::cross::MsgView {
                                    nonce: pre.subnets[k].topdown_nonce,
                                    ..m.msg
                                },
                                wrapped: m.wrapped,
                            },
                        ),
                        topdown_nonce: (pre.subnets[k].topdown_nonce + 1) as u64,
                        circ_supply: (pre.subnets[k].circ_supply + m.msg.value) as u128,
                        ..pre.subnets[k]
                    },
                ),
                ..pre
            })
        }
}

/// Whether a bottom-up message can be committed at epoch `curr_epoch`: the
/// window fits the chain and the counters have room.
pub open spec fn can_commit_bottomup(
    pre: StateView,
    m: CrossMsgView,
    fee: u128,
    curr_epoch: u64,
) -> bool {
    let wep = spec_window_epoch(curr_epoch, pre.check_period);
    let w0 = spec_window(pre, wep);
    &&& curr_epoch + pre.check_period <= u64::MAX
    &&& w0.data.cross_msgs.fee + fee <= u128::MAX
    &&& pre.nonce < u64::MAX
}

/// What committing a bottom-up message does: it joins the batch of the
/// current window checkpoint together with its fee, and the outbound nonce
/// advances; nothing else moves.
pub open spec fn committed_bottomup(
    pre: StateView,
    post: StateView,
    m: CrossMsgView,
    fee: u128,
    curr_epoch: u64,
) -> bool {
    let wep = spec_window_epoch(curr_epoch, pre.check_period);
    let w0 = spec_window(pre, wep);
    let w1 = spec_push_batch(w0, m, fee);
    &&& checkpoint_of(post.checkpoints, wep) == Some(w1)
    &&& post == (StateView {
        checkpoints: post.checkpoints,
        nonce: (pre.nonce + 1) as u64,
        ..pre
    })
}

impl State {
    /// The initial gateway state: no subnets, empty postbox and tallies, the
    /// bottom-up applied nonce parked at its sentinel, and the last executed
    /// cron epoch at genesis.
    pub fn new(params: ConstructorParams) -> (r: State)
        requires
            params.cron_period > 0,
        ensures
            r@.network_name == params.network_name@,
            r@.total_subnets == 0,
            r@.min_stake == MIN_COLLATERAL_AMOUNT,
            r@.subnets == Seq::<SubnetView>::empty(),
            r@.check_period == if params.checkpoint_period > DEFAULT_CHECKPOINT_PERIOD {
                params.checkpoint_period
            } else {
                DEFAULT_CHECKPOINT_PERIOD
            },
            r@.checkpoints == Seq::<CheckpointView>::empty(),
            r@.postbox == Seq::<PostBoxEntryView>::empty(),
            r@.nonce == 0,
            r@.bottomup_nonce == 0,
            r@.bottomup_msg_meta == Seq::<CrossMsgMetaView>::empty(),
            r@.applied_bottomup_nonce == MAX_NONCE,
            r@.applied_topdown_nonce == 0,
            r@.genesis_epoch == params.genesis_epoch,
            r@.cron_period == params.cron_period,
            r@.last_cron_executed_epoch == params.genesis_epoch,
            r@.executable_epoch_queue is None,
            r@.cron_submissions == Seq::<EpochSubmissionView>::empty(),
            r@.validators.validators.validators == Seq::<crate::cron::ValidatorView>::empty(),
            r@.wf(),
    {
        let check_period = if params.checkpoint_period > DEFAULT_CHECKPOINT_PERIOD {
            params.checkpoint_period
        } else {
            DEFAULT_CHECKPOINT_PERIOD
        };
        let r = State {
            network_name: params.network_name,
            total_subnets: 0,
            min_stake: MIN_COLLATERAL_AMOUNT,
            subnets: Vec::new(),
            check_period,
            checkpoints: Vec::new(),
            postbox: Vec::new(),
            nonce: 0,
            bottomup_nonce: 0,
            bottomup_msg_meta: Vec::new(),
            applied_bottomup_nonce: MAX_NONCE,
            applied_topdown_nonce: 0,
            genesis_epoch: params.genesis_epoch,
            cron_period: params.cron_period,
            last_cron_executed_epoch: params.genesis_epoch,
            executable_epoch_queue: None,
            cron_submissions: Vec::new(),
            validators: Validators::new(ValidatorSet::new(Vec::new(), 0)),
        };
        proof {
            assert(r@.subnets =~= Seq::<SubnetView>::empty());
            assert(r@.checkpoints =~= Seq::<CheckpointView>::empty());
            assert(r@.postbox =~= Seq::<PostBoxEntryView>::empty());
            assert(r@.bottomup_msg_meta =~= Seq::<CrossMsgMetaView>::empty());
            assert(r@.cron_submissions =~= Seq::<EpochSubmissionView>::empty());
            assert(r@.validators.validators.validators =~= Seq::<
                crate::cron::ValidatorView,
            >::empty());
        }
        r
    }

    /// The subnet registered under `id`, if any.
    pub fn get_subnet(&self, id: &SubnetID) -> (r: Result<Option<Subnet>, Error>)
        ensures
            r matches Ok(o) && match subnet_of(self@.subnets, id@) {
                Some(s) => o matches Some(sub) && sub@ == s,
                None => o is None,
            },
    {
        match find_subnet(&self.subnets, id) {
            Some(k) => {
                proof {
                    lemma_subnet_of_first(self@.subnets, id@, k as int);
                }
                Ok(Some(self.subnets[k].clone()))
            },
            None => {
                proof {
                    lemma_subnet_of_first(self@.subnets, id@, self@.subnets.len() as int);
                }
                Ok(None)
            },
        }
    }

    /// Register `id` as a new Active subnet funded with `value`. Too little
    /// collateral is refused; an already registered id is left as it is.
    pub fn register_subnet(&mut self, value: u128, id: &SubnetID) -> (r: Result<(), Error>)
        requires
            old(self)@.wf(),
        ensures
            value < old(self)@.min_stake ==> (r matches Err(e) && e is IllegalArgument
                && final(self)@ == old(self)@),
            value >= old(self)@.min_stake && subnet_of(old(self)@.subnets, id@) is Some ==> r
                is Ok && final(self)@ == old(self)@,
            value >= old(self)@.min_stake && subnet_of(old(self)@.subnets, id@) is None ==> r
                is Ok && final(self)@ == (StateView {
                subnets: old(self)@.subnets.push(
                    SubnetView {
                        id: id@,
                        stake: value,
                        top_down_msgs: Seq::<CrossMsgView>::empty(),
                        circ_supply: 0u128,
                        status: Status::Active,
                        topdown_nonce: 0u64,
                        prev_checkpoint: None::<CheckpointView>,
                    },
                ),
                total_subnets: (old(self)@.total_subnets + 1) as u64,
                ..old(self)@
            }),
            final(self)@.wf(),
    {
        if value < self.min_stake {
            return Err(Error::IllegalArgument("call to register doesn't include enough funds"));
        }
        let ghost views0 = self@.subnets;
        match find_subnet(&self.subnets, id) {
            Some(k) => {
                proof {
                    lemma_subnet_of_first(views0, id@, k as int);
                }
                Ok(())
            },
            None => {
                proof {
                    lemma_subnet_of_first(views0, id@, views0.len() as int);
                }
                let subnet = Subnet {
                    id: id.clone(),
                    stake: value,
                    top_down_msgs: Vec::new(),
                    circ_supply: 0,
                    status: Status::Active,
                    topdown_nonce: 0,
                    prev_checkpoint: None,
                };
                proof {
                    assert(subnet@ == (SubnetView {
                        id: id@,
                        stake: value,
                        top_down_msgs: Seq::<CrossMsgView>::empty(),
                        circ_supply: 0u128,
                        status: Status::Active,
                        topdown_nonce: 0u64,
                        prev_checkpoint: None::<CheckpointView>,
                    })) by {
                        assert(subnet.top_down_msgs@.map_values(|m: CrossMsg| m@) =~= Seq::<
                            CrossMsgView,
                        >::empty());
                    }
                }
                self.subnets.push(subnet);
                self.total_subnets = self.subnets.len() as u64;
                proof {
                    assert(self@.subnets =~= views0.push(
                        SubnetView {
                            id: id@,
                            stake: value,
                            top_down_msgs: Seq::<CrossMsgView>::empty(),
                            circ_supply: 0u128,
                            status: Status::Active,
                            topdown_nonce: 0u64,
                            prev_checkpoint: None::<CheckpointView>,
                        },
                    ));
                    assert(self@ =~= (StateView {
                        subnets: self@.subnets,
                        total_subnets: self.total_subnets,
                        ..old(self)@
                    }));
                }
                Ok(())
            },
        }
    }

    /// Unregister the subnet under `id`, if it is registered.
    pub fn rm_subnet(&mut self, id: &SubnetID) -> (r: Result<(), Error>)
        requires
            old(self)@.wf(),
            old(self)@.total_subnets > 0 || subnet_of(old(self)@.subnets, id@) is None,
        ensures
            r is Ok,
            subnet_of(old(self)@.subnets, id@) is None ==> final(self)@ == old(self)@,
            subnet_of(old(self)@.subnets, id@) is Some ==> exists|k: int|
                {
                    &&& 0 <= k < old(self)@.subnets.len()
                    &&& old(self)@.subnets[k].id == id@
                    &&& final(self)@ == (StateView {
                        subnets: old(self)@.subnets.remove(k),
                        total_subnets: (old(self)@.total_subnets - 1) as u64,
                        ..old(self)@
                    })
                },
            final(self)@.wf(),
    {
        let ghost views0 = self@.subnets;
        match find_subnet(&self.subnets, id) {
            Some(k) => {
                proof {
                    lemma_subnet_of_first(views0, id@, k as int);
                }
                let _ = self.subnets.remove(k);
                self.total_subnets = self.total_subnets - 1;
                proof {
                    assert(self@.subnets =~= views0.remove(k as int));
                    assert(self@ =~= (StateView {
                        subnets: views0.remove(k as int),
                        total_subnets: self.total_subnets,
                        ..old(self)@
                    }));
                    assert forall|a: int, b: int|
                        0 <= a < b < self@.subnets.len() implies self@.subnets[a].id
                        != self@.subnets[b].id by {
                        let ra = if a < k { a } else { a + 1 };
                        let rb = if b < k { b } else { b + 1 };
                        assert(self@.subnets[a] == views0[ra]);
                        assert(self@.subnets[b] == views0[rb]);
                    }
                }
                Ok(())
            },
            None => {
                proof {
                    lemma_subnet_of_first(views0, id@, views0.len() as int);
                }
                Ok(())
            },
        }
    }

    /// Write a subnet back into the registry under its id.
    #[verifier::rlimit(50)]
    pub fn flush_subnet(&mut self, sub: Subnet)
        requires
            old(self)@.wf(),
            sub@.wf(),
            subnet_of(old(self)@.subnets, sub@.id) is Some,
        ensures
            exists|k: int|
                {
                    &&& 0 <= k < old(self)@.subnets.len()
                    &&& old(self)@.subnets[k].id == sub@.id
                    &&& (forall|j: int| 0 <= j < k ==> old(self)@.subnets[j].id != sub@.id)
                    &&& final(self)@ == (StateView {
                        subnets: old(self)@.subnets.update(k, sub@),
                        ..old(self)@
                    })
                },
            subnet_of(final(self)@.subnets, sub@.id) == Some(sub@),
            final(self)@.wf(),
    {
        let ghost views0 = self@.subnets;
        let ghost sv = sub@;
        set_subnet(&mut self.subnets, sub);
        proof {
            let k = choose|k: int|
                {
                    &&& 0 <= k < views0.len()
                    &&& views0[k].id == sv.id
                    &&& (forall|j: int| 0 <= j < k ==> views0[j].id != sv.id)
                    &&& self@.subnets == views0.update(k, sv)
                };
            assert(self@ =~= (StateView { subnets: views0.update(k, sv), ..old(self)@ }));
            assert(forall|j: int| 0 <= j < k ==> self@.subnets[j].id != sv.id);
            lemma_subnet_of_first(self@.subnets, sv.id, k);
        }
    }

    /// Write a checkpoint back into the store under its epoch.
    pub fn flush_checkpoint(&mut self, ch: Checkpoint)
        requires
            old(self)@.wf(),
        ensures
            checkpoint_of(final(self)@.checkpoints, ch@.data.epoch) == Some(ch@),
            (checkpoint_of(old(self)@.checkpoints, ch@.data.epoch) is None ==> final(self)@ == (
            StateView { checkpoints: old(self)@.checkpoints.push(ch@), ..old(self)@ })),
            (checkpoint_of(old(self)@.checkpoints, ch@.data.epoch) is Some ==> exists|k: int|
                {
                    &&& 0 <= k < old(self)@.checkpoints.len()
                    &&& old(self)@.checkpoints[k].data.epoch == ch@.data.epoch
                    &&& final(self)@ == (StateView {
                        checkpoints: old(self)@.checkpoints.update(k, ch@),
                        ..old(self)@
                    })
                }),
            final(self)@.wf(),
    {
        let ghost views0 = self@.checkpoints;
        let ghost cv = ch@;
        set_checkpoint(&mut self.checkpoints, ch);
        proof {
            if checkpoint_of(views0, cv.data.epoch) is Some {
                let k = choose|k: int|
                    {
                        &&& 0 <= k < views0.len()
                        &&& views0[k].data.epoch == cv.data.epoch
                        &&& (forall|j: int| 0 <= j < k ==> views0[j].data.epoch != cv.data.epoch)
                        &&& self@.checkpoints == views0.update(k, cv)
                    };
                assert(self@ =~= (StateView {
                    checkpoints: views0.update(k, cv),
                    ..old(self)@
                }));
                lemma_checkpoint_of_first(self@.checkpoints, cv.data.epoch, k);
            } else {
                assert(self@ =~= (StateView { checkpoints: views0.push(cv), ..old(self)@ }));
                assert forall|j: int| 0 <= j < views0.len() implies views0[j].data.epoch
                    != cv.data.epoch by {
                    lemma_checkpoint_of_none(views0, cv.data.epoch, j);
                }
                lemma_checkpoint_of_first(self@.checkpoints, cv.data.epoch, views0.len() as int);
                assert forall|a: int, b: int|
                    0 <= a < b < self@.checkpoints.len() implies self@.checkpoints[a].data.epoch
                    != self@.checkpoints[b].data.epoch by {
                    if b == self@.checkpoints.len() - 1 {
                        assert(self@.checkpoints[a] == views0[a]);
                    }
                }
            }
        }
    }

    /// The checkpoint being accumulated for the window `epoch` falls in: the
    /// stored one, or a fresh checkpoint at the window's closing epoch. An
    /// epoch too close to the end of the representable range is refused.
    pub fn get_window_checkpoint(&self, epoch: u64) -> (r: Result<Checkpoint, Error>)
        requires
            self@.wf(),
        ensures
            epoch + self@.check_period > u64::MAX ==> (r matches Err(e) && e is IllegalArgument),
            epoch + self@.check_period <= u64::MAX ==> (r matches Ok(ch) && {
                let wep = ((epoch / self@.check_period + 1) * self@.check_period) as u64;
                match checkpoint_of(self@.checkpoints, wep) {
                    Some(c) => ch@ == c,
                    None => ch@ == (CheckpointView {
                        data: crate::checkpoint::CheckDataView {
                            source: self@.network_name,
                            tip_set: Seq::<u8>::empty(),
                            epoch: wep,
                            prev_check: Seq::<u8>::empty(),
                            children: Seq::<crate::checkpoint::ChildCheckView>::empty(),
                            cross_msgs: crate::checkpoint::BatchView {
                                msgs: None::<Seq<CrossMsgView>>,
                                fee: 0u128,
                            },
                        },
                        sig: Seq::<u8>::empty(),
                    }),
                }
            }),
    {
        if epoch > u64::MAX - self.check_period {
            return Err(Error::IllegalArgument("epoch too close to the end of the chain"));
        }
        let wep = window_epoch(epoch, self.check_period);
        match find_checkpoint(&self.checkpoints, wep) {
            Some(k) => {
                proof {
                    lemma_checkpoint_of_first(self@.checkpoints, wep, k as int);
                }
                Ok(self.checkpoints[k].clone())
            },
            None => {
                proof {
                    lemma_checkpoint_of_first(self@.checkpoints, wep, self@.checkpoints.len() as int);
                }
                Ok(Checkpoint::new(self.network_name.clone(), wep))
            },
        }
    }
}

/// A found checkpoint carries the epoch it was looked up by.
pub proof fn lemma_checkpoint_of_epoch(s: Seq<CheckpointView>, epoch: u64)
    requires
        checkpoint_of(s, epoch) is Some,
    ensures
        checkpoint_of(s, epoch)->Some_0.data.epoch == epoch,
    decreases s.len(),
{
    if s.len() == 0 {
    } else if s[0].data.epoch == epoch {
    } else {
        lemma_checkpoint_of_epoch(s.drop_first(), epoch);
    }
}

/// In a sequence with no match, every index misses.
pub proof fn lemma_checkpoint_of_none(s: Seq<CheckpointView>, epoch: u64, j: int)
    requires
        checkpoint_of(s, epoch) is None,
        0 <= j < s.len(),
    ensures
        s[j].data.epoch != epoch,
    decreases j,
{
    if j == 0 {
    } else {
        lemma_checkpoint_of_none(s.drop_first(), epoch, j - 1);
    }
}

/// The checkpoint accumulating for window epoch `wep`: the stored one, or a
/// fresh checkpoint of the network at `wep`.
pub open spec fn spec_window(st: StateView, wep: u64) -> CheckpointView {
    match checkpoint_of(st.checkpoints, wep) {
        Some(c) => c,
        None => CheckpointView {
            data: crate::checkpoint::CheckDataView {
                source: st.network_name,
                tip_set: Seq::<u8>::empty(),
                epoch: wep,
                prev_check: Seq::<u8>::empty(),
                children: Seq::<crate::checkpoint::ChildCheckView>::empty(),
                cross_msgs: crate::checkpoint::BatchView {
                    msgs: None::<Seq<CrossMsgView>>,
                    fee: 0u128,
                },
            },
            sig: Seq::<u8>::empty(),
        },
    }
}

/// A checkpoint with one more cross-message in its batch and `fee` added.
pub open spec fn spec_push_batch(c: CheckpointView, m: CrossMsgView, fee: u128) -> CheckpointView {
    CheckpointView {
        data: crate::checkpoint::CheckDataView {
            cross_msgs: crate::checkpoint::BatchView {
                msgs: Some(c.data.cross_msgs.msgs_or_empty().push(m)),
                fee: (c.data.cross_msgs.fee + fee) as u128,
            },
            ..c.data
        },
        sig: c.sig,
    }
}

/// The window epoch that `epoch` falls in under `period`.
pub open spec fn spec_window_epoch(epoch: u64, period: u64) -> u64 {
    ((epoch / period + 1) * period) as u64
}

impl State {
    /// Append a bottom-up cross-message and its fee to the checkpoint of the
    /// current window and store that checkpoint back.
    pub fn store_msg_in_checkpoint(&mut self, cross_msg: &CrossMsg, fee: u128, curr_epoch: u64)
        -> (r: Result<(), Error>)
        requires
            old(self)@.wf(),
        ensures
            ({
                let wep = spec_window_epoch(curr_epoch, old(self)@.check_period);
                let w0 = spec_window(old(self)@, wep);
                let w1 = spec_push_batch(w0, cross_msg@, fee);
                &&& (r matches Err(e) ==> final(self)@ == old(self)@ && (e is IllegalArgument
                    || e is IllegalState))
                &&& (r is Err <==> curr_epoch + old(self)@.check_period > u64::MAX
                    || w0.data.cross_msgs.fee + fee > u128::MAX)
                &&& (r is Ok ==> {
                    &&& checkpoint_of(final(self)@.checkpoints, wep) == Some(w1)
                    &&& final(self)@ == (StateView {
                        checkpoints: final(self)@.checkpoints,
                        ..old(self)@
                    })
                    &&& (checkpoint_of(old(self)@.checkpoints, wep) is None
                        ==> final(self)@.checkpoints == old(self)@.checkpoints.push(w1))
                    &&& (checkpoint_of(old(self)@.checkpoints, wep) is Some ==> exists|k: int|
                        {
                            &&& 0 <= k < old(self)@.checkpoints.len()
                            &&& old(self)@.checkpoints[k].data.epoch == wep
                            &&& final(self)@.checkpoints == old(self)@.checkpoints.update(k, w1)
                        })
                })
            }),
            final(self)@.wf(),
    {
        let mut ch = match self.get_window_checkpoint(curr_epoch) {
            Ok(c) => c,
            Err(e) => {
                return Err(e);
            },
        };
        if ch.cross_msgs().fee > u128::MAX - fee {
            return Err(Error::IllegalState("fee accumulated in checkpoint overflows"));
        }
        let ghost wep = spec_window_epoch(curr_epoch, old(self)@.check_period);
        let ghost w0 = spec_window(old(self)@, wep);
        let ghost w1 = spec_push_batch(w0, cross_msg@, fee);
        proof {
            assert(ch@ == w0);
            if checkpoint_of(old(self)@.checkpoints, wep) is Some {
                lemma_checkpoint_of_epoch(old(self)@.checkpoints, wep);
            }
            assert(w0.data.epoch == wep);
        }
        ch.push_cross_msgs(cross_msg.clone(), fee);
        proof {
            assert(ch@ =~~= w1);
        }
        let ghost cv = ch@;
        self.flush_checkpoint(ch);
        proof {
            if checkpoint_of(old(self)@.checkpoints, cv.data.epoch) is Some {
                let k = choose|k: int|
                    {
                        &&& 0 <= k < old(self)@.checkpoints.len()
                        &&& old(self)@.checkpoints[k].data.epoch == cv.data.epoch
                        &&& self@ == (StateView {
                            checkpoints: old(self)@.checkpoints.update(k, cv),
                            ..old(self)@
                        })
                    };
                assert(cv == w1);
                assert(cv.data.epoch == wep);
                assert(self@.checkpoints == old(self)@.checkpoints.update(k, w1));
                assert(exists|k2: int|
                    {
                        &&& 0 <= k2 < old(self)@.checkpoints.len()
                        &&& old(self)@.checkpoints[k2].data.epoch == wep
                        &&& self@.checkpoints == old(self)@.checkpoints.update(k2, w1)
                    }) by {
                    assert(0 <= k < old(self)@.checkpoints.len() && old(
                        self,
                    )@.checkpoints[k].data.epoch == wep && self@.checkpoints == old(
                        self,
                    )@.checkpoints.update(k, w1));
                }
            }
            assert(self@ =~= (StateView { checkpoints: self@.checkpoints, ..old(self)@ }));
        }
        Ok(())
    }

    /// Commit a bottom-up message: append it to the window checkpoint and
    /// advance the outbound nonce.
    pub fn commit_bottomup_msg(&mut self, msg: &CrossMsg, fee: u128, curr_epoch: u64) -> (r:
        Result<(), Error>)
        requires
            old(self)@.wf(),
        ensures
            r matches Err(e) ==> final(self)@ == old(self)@ && (e is IllegalArgument || e
                is IllegalState),
            r is Ok <==> can_commit_bottomup(old(self)@, msg@, fee, curr_epoch),
            r is Ok ==> committed_bottomup(old(self)@, final(self)@, msg@, fee, curr_epoch),
            final(self)@.wf(),
    {
        if self.nonce == u64::MAX {
            return Err(Error::IllegalState("outbound nonce exhausted"));
        }
        match self.store_msg_in_checkpoint(msg, fee, curr_epoch) {
            Ok(_) => (),
            Err(e) => {
                return Err(e);
            },
        }
        self.nonce = self.nonce + 1;
        proof {
            assert(self@ =~= (StateView {
                checkpoints: self@.checkpoints,
                nonce: self.nonce,
                ..old(self)@
            }));
        }
        Ok(())
    }

    /// Commit a top-down message: set its nonce to the next-hop child's next
    /// top-down nonce, append it to that child's queue, and credit the value
    /// to the child's circulating supply.
    pub fn commit_topdown_msg(&mut self, cross_msg: CrossMsg) -> (r: Result<(), Error>)
        requires
            old(self)@.wf(),
        ensures
            r matches Err(e) ==> final(self)@ == old(self)@ && (e is IllegalArgument || e
                is IllegalState),
            r is Ok <==> can_commit_topdown(old(self)@, cross_msg@),
            r is Ok ==> committed_topdown(old(self)@, final(self)@, cross_msg@),
            final(self)@.wf(),
    {
        let mut cross_msg = cross_msg;
        let sto = match cross_msg.msg.to.subnet() {
            Ok(s) => s,
            Err(e) => {
                return Err(e);
            },
        };
        let child = match sto.down(&self.network_name) {
            Some(c) => c,
            None => {
                return Err(Error::IllegalArgument("couldn't compute the next subnet in route"));
            },
        };
        let ghost views0 = self@.subnets;
        let k = match find_subnet(&self.subnets, &child) {
            Some(k) => k,
            None => {
                proof {
                    lemma_subnet_of_first(views0, child@, views0.len() as int);
                }
                return Err(Error::IllegalArgument(
                    "can't direct top-down message to destination subnet",
                ));
            },
        };
        proof {
            lemma_subnet_of_first(views0, child@, k as int);
        }
        if self.subnets[k].topdown_nonce == u64::MAX {
            return Err(Error::IllegalState("top-down nonce exhausted"));
        }
        if self.subnets[k].circ_supply > u128::MAX - cross_msg.msg.value {
            return Err(Error::IllegalState("circulating supply overflows"));
        }
        let mut sub = self.subnets.remove(k);
        cross_msg.msg.nonce = sub.topdown_nonce;
        let value = cross_msg.msg.value;
        sub.store_topdown_msg(cross_msg);
        sub.circ_supply = sub.circ_supply + value;
        self.subnets.insert(k, sub);
        proof {
            assert(self@.subnets =~= views0.update(k as int, self@.subnets[k as int]));
            assert(self@ =~= (StateView { subnets: self@.subnets, ..old(self)@ }));
            assert forall|i: int| 0 <= i < self@.subnets.len() implies (
            #[trigger] self@.subnets[i]).wf() by {
                if i != k {
                    assert(self@.subnets[i] == views0[i]);
                }
            }
        }
        Ok(())
    }

    /// Accept a bottom-up message only in nonce order: the sentinel steps to
    /// zero, the next nonce advances the counter by one, and the current
    /// nonce is accepted again; anything else is refused.
    pub fn bottomup_state_transition(&mut self, msg: &StorableMsg) -> (r: Result<(), Error>)
        ensures
            ({
                let old_n = old(self)@.applied_bottomup_nonce;
                let n = msg@.nonce;
                &&& (old_n == MAX_NONCE && n == 0 ==> r is Ok && final(self)@ == (StateView {
                    applied_bottomup_nonce: 0u64,
                    ..old(self)@
                }))
                &&& (old_n < MAX_NONCE && n == old_n + 1 ==> r is Ok && final(self)@ == (
                StateView { applied_bottomup_nonce: n, ..old(self)@ }))
                &&& (n == old_n ==> r is Ok && final(self)@ == old(self)@)
                &&& (!(old_n == MAX_NONCE && n == 0) && !(old_n < MAX_NONCE && n == old_n + 1)
                    && n != old_n ==> (r matches Err(e) && e is IllegalState && final(self)@
                    == old(self)@))
            }),
    {
        if self.applied_bottomup_nonce == MAX_NONCE && msg.nonce == 0 {
            self.applied_bottomup_nonce = 0;
        } else if self.applied_bottomup_nonce < MAX_NONCE && self.applied_bottomup_nonce + 1
            == msg.nonce {
            self.applied_bottomup_nonce = self.applied_bottomup_nonce + 1;
        }
        if self.applied_bottomup_nonce != msg.nonce {
            return Err(Error::IllegalState(
                "the bottom-up message being applied doesn't hold the subsequent nonce",
            ));
        }
        proof {
            if old(self)@.applied_bottomup_nonce == self@.applied_bottomup_nonce {
                assert(self@ =~= old(self)@);
            } else {
                assert(self@ =~= (StateView {
                    applied_bottomup_nonce: self@.applied_bottomup_nonce,
                    ..old(self)@
                }));
            }
        }
        Ok(())
    }

    /// Stage a cross-message in the postbox under the content id of its
    /// canonical bytes, and return that key.
    #[verifier::rlimit(50)]
    #[verifier::spinoff_prover]
    fn insert_postbox_item(&mut self, item: PostBoxItem) -> (r: Result<Vec<u8>, Error>)
        requires
            old(self)@.wf(),
        ensures
            r is Ok,
            r matches Ok(key) ==> inserted_postbox(old(self)@, final(self)@, key@, item@),
            final(self)@.wf(),
    {
        let ghost mv = item@.cross_msg;
        let ghost ov = item@.owners;
        let (cid, _bytes) = match item.serialize_with_cid() {
            Ok(p) => p,
            Err(e) => {
                return Err(e);
            },
        };
        let ghost views0 = self@.postbox;
        let ghost iv = item@;
        let key = cid.clone();
        proof {
            assert(key@ =~= cid@);
        }
        let entry = PostBoxEntry { key: cid, item };
        match find_postbox(&self.postbox, &key) {
            Some(k) => {
                proof {
                    lemma_postbox_of_first(views0, key@, k as int);
                }
                let _ = self.postbox.remove(k);
                self.postbox.insert(k, entry);
                proof {
                    assert(self@.postbox =~= views0.update(
                        k as int,
                        PostBoxEntryView { key: key@, item: iv },
                    ));
                    assert(self@ =~= (StateView { postbox: self@.postbox, ..old(self)@ }));
                    assert(forall|j: int| 0 <= j < k ==> self@.postbox[j].key != key@);
                    lemma_postbox_of_first(self@.postbox, key@, k as int);
                    assert(inserted_postbox(old(self)@, self@, key@, iv));
                }
            },
            None => {
                proof {
                    lemma_postbox_of_first(views0, key@, views0.len() as int);
                }
                self.postbox.push(entry);
                proof {
                    assert(self@.postbox =~= views0.push(
                        PostBoxEntryView { key: key@, item: iv },
                    ));
                    assert(self@ =~= (StateView { postbox: self@.postbox, ..old(self)@ }));
                    lemma_postbox_of_first(self@.postbox, key@, views0.len() as int);
                    assert forall|a: int, b: int|
                        0 <= a < b < self@.postbox.len() implies self@.postbox[a].key
                        != self@.postbox[b].key by {
                        if b == self@.postbox.len() - 1 {
                            assert(self@.postbox[a] == views0[a]);
                        }
                    }
                    assert(inserted_postbox(old(self)@, self@, key@, iv));
                }
            },
        }
        Ok(key)
    }

    /// Stage a cross-message in the postbox under the content id of its
    /// canonical bytes, and return that key.
    pub fn insert_postbox(&mut self, owners: Option<Vec<u64>>, msg: CrossMsg) -> (r: Result<
        Vec<u8>,
        Error,
    >)
        requires
            old(self)@.wf(),
        ensures
            r is Ok,
            r matches Ok(key) ==> inserted_postbox(
                old(self)@,
                final(self)@,
                key@,
                PostBoxItemView {
                    cross_msg: msg@,
                    owners: match owners {
                        Some(l) => Some(l@),
                        None => None::<Seq<u64>>,
                    },
                },
            ),
            final(self)@.wf(),
    {
        let ghost mv = msg@;
        let ghost ov: Option<Seq<u64>> = match &owners {
            Some(l) => Some(l@),
            None => None,
        };
        let item = PostBoxItem::new(msg, owners);
        proof {
            assert(item@ =~~= (PostBoxItemView { cross_msg: mv, owners: ov }));
        }
        self.insert_postbox_item(item)
    }

    /// Replace the postbox entry under `key` with `item`, which is stored
    /// under the content id of its own bytes. An absent key is reported.
    pub fn swap_postbox_item(&mut self, key: &Vec<u8>, item: PostBoxItem) -> (r: Result<(), Error>)
        requires
            old(self)@.wf(),
        ensures
            postbox_of(old(self)@.postbox, key@) is None ==> (r matches Err(e) && e is NotFound
                && final(self)@ == old(self)@),
            postbox_of(old(self)@.postbox, key@) is Some ==> r is Ok && postbox_of(
                final(self)@.postbox,
                item@.spec_key(),
            ) == Some(item@) && final(self)@ == (StateView {
                postbox: final(self)@.postbox,
                ..old(self)@
            }),
            final(self)@.wf(),
    {
        match find_postbox(&self.postbox, key) {
            Some(k) => {
                proof {
                    lemma_postbox_of_first(self@.postbox, key@, k as int);
                }
            },
            None => {
                proof {
                    lemma_postbox_of_first(self@.postbox, key@, self@.postbox.len() as int);
                }
                return Err(Error::NotFound("cid not found in postbox"));
            },
        }
        match self.remove_from_postbox(key) {
            Ok(_) => (),
            Err(_) => {
                proof {
                    assert(false);
                }
            },
        }
        let ghost iv = item@;
        match self.insert_postbox_item(item) {
            Ok(k2) => {
                proof {
                    assert(k2@ == iv.spec_key());
                    assert(postbox_of(self@.postbox, iv.spec_key()) == Some(iv));
                    assert(self@ =~= (StateView { postbox: self@.postbox, ..old(self)@ }));
                }
                Ok(())
            },
            Err(_) => {
                proof {
                    assert(false);
                }
                Ok(())
            },
        }
    }

    /// Register the bottom-up batch a child declared: record a meta holding
    /// the content id and total value of its messages at the next bottom-up
    /// nonce, and advance that nonce.
    pub fn store_bottomup_msg(&mut self, cross_msgs: &crate::checkpoint::BatchCrossMsgs) -> (r:
        Result<(), Error>)
        requires
            old(self)@.wf(),
        ensures
            r matches Err(e) ==> final(self)@ == old(self)@ && e is IllegalState,
            r is Ok <==> old(self)@.bottomup_nonce < u64::MAX && crate::checkpoint::sum_of_values(
                cross_msgs@.msgs_or_empty(),
            ) <= u128::MAX,
            r is Ok ==> ({
                let msgs = cross_msgs@.msgs_or_empty();
                &&& 0 <= crate::checkpoint::sum_of_values(msgs) <= u128::MAX
                &&& old(self)@.bottomup_nonce < u64::MAX
                &&& final(self)@ == (StateView {
                    bottomup_msg_meta: old(self)@.bottomup_msg_meta.push(
                        crate::checkpoint::CrossMsgMetaView {
                            from: old(self)@.network_name,
                            to: if old(self)@.network_name.len() > 1 {
                                old(self)@.network_name.drop_last()
                            } else {
                                old(self)@.network_name
                            },
                            msgs_cid: cid_of(
                                crate::codec::enc_cross_msg_list(msgs),
                            ),
                            nonce: old(self)@.bottomup_nonce,
                            value: crate::checkpoint::sum_of_values(msgs) as u128,
                        },
                    ),
                    bottomup_nonce: (old(self)@.bottomup_nonce + 1) as u64,
                    ..old(self)@
                })
            }),
            final(self)@.wf(),
    {
        if self.bottomup_nonce == u64::MAX {
            return Err(Error::IllegalState("bottom-up nonce exhausted"));
        }
        let empty_msgs: Vec<CrossMsg> = Vec::new();
        let msgs: &Vec<CrossMsg> = match &cross_msgs.cross_msgs {
            Some(l) => l,
            None => &empty_msgs,
        };
        let ghost mviews = msgs@.map_values(|c: CrossMsg| c@);
        proof {
            assert(cross_msgs@.msgs_or_empty() =~= mviews);
        }
        let mut value: u128 = 0;
        let mut i: usize = 0;
        while i < msgs.len()
            invariant
                i <= msgs.len(),
                *self == *old(self),
                old(self)@.wf(),
                old(self)@.bottomup_nonce < u64::MAX,
                mviews == msgs@.map_values(|c: CrossMsg| c@),
                cross_msgs@.msgs_or_empty() == mviews,
                value == crate::checkpoint::sum_of_values(mviews.subrange(0, i as int)),
            decreases msgs.len() - i,
        {
            if value > u128::MAX - msgs[i].msg.value {
                proof {
                    let cur = mviews.subrange(0, i as int + 1);
                    assert(cur.drop_last() =~= mviews.subrange(0, i as int));
                    assert(cur.last() == mviews[i as int]);
                    assert(crate::checkpoint::sum_of_values(cur) > u128::MAX);
                    crate::checkpoint::lemma_sum_values_prefix(mviews, i as int + 1);
                    assert(cross_msgs@.msgs_or_empty() =~= mviews);
                }
                return Err(Error::IllegalState("batch value overflows"));
            }
            value = value + msgs[i].msg.value;
            i = i + 1;
            proof {
                let pre = mviews.subrange(0, i as int - 1);
                let cur = mviews.subrange(0, i as int);
                assert(cur.drop_last() =~= pre);
                assert(cur.last() == mviews[i as int - 1]);
            }
        }
        proof {
            assert(mviews.subrange(0, mviews.len() as int) =~= mviews);
        }
        let mut bytes: Vec<u8> = Vec::new();
        crate::codec::write_cross_msg_list(&mut bytes, msgs);
        proof {
            assert(bytes@ =~= crate::codec::enc_cross_msg_list(mviews));
        }
        let msgs_cid = cid_bytes(&bytes);
        let to = match self.network_name.parent() {
            Some(p) => p,
            None => self.network_name.clone(),
        };
        let ghost metav = crate::checkpoint::CrossMsgMetaView {
            from: old(self)@.network_name,
            to: if old(self)@.network_name.len() > 1 {
                old(self)@.network_name.drop_last()
            } else {
                old(self)@.network_name
            },
            msgs_cid: cid_of(crate::codec::enc_cross_msg_list(mviews)),
            nonce: old(self)@.bottomup_nonce,
            value: crate::checkpoint::sum_of_values(mviews) as u128,
        };
        let meta = CrossMsgMeta {
            from: self.network_name.clone(),
            to,
            msgs_cid,
            nonce: self.bottomup_nonce,
            value,
        };
        proof {
            assert(meta@ =~~= metav);
        }
        self.bottomup_msg_meta.push(meta);
        self.bottomup_nonce = self.bottomup_nonce + 1;
        proof {
            assert(self@.bottomup_msg_meta =~= old(self)@.bottomup_msg_meta.push(metav));
            assert(self@ =~~= (StateView {
                bottomup_msg_meta: old(self)@.bottomup_msg_meta.push(metav),
                bottomup_nonce: (old(self)@.bottomup_nonce + 1) as u64,
                ..old(self)@
            }));
            assert(cross_msgs@.msgs_or_empty() == mviews);
            assert(metav == (crate::checkpoint::CrossMsgMetaView {
                from: old(self)@.network_name,
                to: if old(self)@.network_name.len() > 1 {
                    old(self)@.network_name.drop_last()
                } else {
                    old(self)@.network_name
                },
                msgs_cid: cid_of(
                    crate::codec::enc_cross_msg_list(cross_msgs@.msgs_or_empty()),
                ),
                nonce: old(self)@.bottomup_nonce,
                value: crate::checkpoint::sum_of_values(cross_msgs@.msgs_or_empty()) as u128,
            }));
            assert(self@.subnets == old(self)@.subnets);
            assert(self@.checkpoints == old(self)@.checkpoints);
            assert(self@.postbox == old(self)@.postbox);
            assert(self@.cron_submissions == old(self)@.cron_submissions);
            assert(self@.queue_or_empty() == old(self)@.queue_or_empty());
            assert(self@.validators == old(self)@.validators);
            assert(self@.wf());
        }
        Ok(())
    }

    /// The postbox item stored under `key`; absent keys are reported.
    pub fn load_from_postbox(&self, key: &Vec<u8>) -> (r: Result<PostBoxItem, Error>)
        ensures
            match postbox_of(self@.postbox, key@) {
                Some(item) => r matches Ok(it) && it@ == item,
                None => r matches Err(e) && e is NotFound,
            },
    {
        match find_postbox(&self.postbox, key) {
            Some(k) => {
                proof {
                    lemma_postbox_of_first(self@.postbox, key@, k as int);
                }
                Ok(self.postbox[k].item.clone())
            },
            None => {
                proof {
                    lemma_postbox_of_first(self@.postbox, key@, self@.postbox.len() as int);
                }
                Err(Error::NotFound("cid not found in postbox"))
            },
        }
    }

    /// Drop the postbox entry under `key`, if one is there.
    pub fn remove_from_postbox(&mut self, key: &Vec<u8>) -> (r: Result<(), Error>)
        requires
            old(self)@.wf(),
        ensures
            r is Ok,
            postbox_of(old(self)@.postbox, key@) is None ==> final(self)@ == old(self)@,
            postbox_of(old(self)@.postbox, key@) is Some ==> exists|k: int|
                {
                    &&& 0 <= k < old(self)@.postbox.len()
                    &&& old(self)@.postbox[k].key == key@
                    &&& final(self)@ == (StateView {
                        postbox: old(self)@.postbox.remove(k),
                        ..old(self)@
                    })
                },
            final(self)@.wf(),
    {
        let ghost views0 = self@.postbox;
        match find_postbox(&self.postbox, key) {
            Some(k) => {
                proof {
                    lemma_postbox_of_first(views0, key@, k as int);
                }
                let _ = self.postbox.remove(k);
                proof {
                    assert(self@.postbox =~= views0.remove(k as int));
                    assert(self@ =~= (StateView {
                        postbox: views0.remove(k as int),
                        ..old(self)@
                    }));
                    assert forall|a: int, b: int|
                        0 <= a < b < self@.postbox.len() implies self@.postbox[a].key
                        != self@.postbox[b].key by {
                        let ra = if a < k { a } else { a + 1 };
                        let rb = if b < k { b } else { b + 1 };
                        assert(self@.postbox[a] == views0[ra]);
                        assert(self@.postbox[b] == views0[rb]);
                    }
                }
                Ok(())
            },
            None => {
                proof {
                    lemma_postbox_of_first(views0, key@, views0.len() as int);
                }
                Ok(())
            },
        }
    }

    /// Take `fee` out of `balance`; a balance too small to pay is refused.
    pub fn collect_cross_fee(&mut self, balance: &mut u128, fee: u128) -> (r: Result<(), Error>)
        ensures
            final(self)@ == old(self)@,
            *old(balance) < fee ==> (r matches Err(e) && e is IllegalState && *final(balance)
                == *old(balance)),
            *old(balance) >= fee ==> r is Ok && *final(balance) == *old(balance) - fee,
    {
        if *balance < fee {
            return Err(Error::IllegalState("not enough gas to pay cross-message"));
        }
        *balance = *balance - fee;
        Ok(())
    }

    /// Replace the validator membership as a whole.
    pub fn set_membership(&mut self, validator_set: ValidatorSet)
        requires
            old(self)@.wf(),
        ensures
            final(self)@ == (StateView { validators: final(self)@.validators, ..old(self)@ }),
            final(self)@.validators.validators == validator_set@,
            final(self)@.validators.wf(),
            final(self)@.wf(),
    {
        self.validators = Validators::new(validator_set);
        proof {
            assert(self@ =~= (StateView { validators: self@.validators, ..old(self)@ }));
        }
    }

    /// Queue `epoch` for ordered execution, keeping the queue strictly
    /// ascending; an epoch already queued stays queued once.
    pub fn insert_executable_epoch(&mut self, epoch: u64)
        requires
            old(self)@.wf(),
            epoch > old(self)@.last_cron_executed_epoch,
        ensures
            final(self)@ == (StateView {
                executable_epoch_queue: final(self)@.executable_epoch_queue,
                ..old(self)@
            }),
            final(self)@.queue_or_empty().contains(epoch),
            forall|e: u64|
                final(self)@.queue_or_empty().contains(e) <==> (old(self)@.queue_or_empty()
                    .contains(e) || e == epoch),
            final(self)@.wf(),
    {
        let ghost q0 = self@.queue_or_empty();
        match &mut self.executable_epoch_queue {
            None => {
                let mut q: Vec<u64> = Vec::new();
                q.push(epoch);
                self.executable_epoch_queue = Some(q);
                proof {
                    assert(self@.queue_or_empty() =~= seq![epoch]);
                    assert(self@ =~= (StateView {
                        executable_epoch_queue: self@.executable_epoch_queue,
                        ..old(self)@
                    }));
                    assert(self@.queue_or_empty().contains(epoch)) by {
                        assert(self@.queue_or_empty()[0] == epoch);
                    }
                    assert forall|e: u64|
                        self@.queue_or_empty().contains(e) <==> (q0.contains(e) || e
                            == epoch) by {
                        if self@.queue_or_empty().contains(e) {
                            assert(self@.queue_or_empty()[0] == epoch);
                        }
                        if q0.contains(e) {
                            let w = choose|w: int| 0 <= w < q0.len() && q0[w] == e;
                            assert(false);
                        }
                    }
                }
            },
            Some(q) => {
                let ghost qs = q@;
                let mut i: usize = 0;
                while i < q.len() && q[i] < epoch
                    invariant
                        i <= q.len(),
                        qs == q@,
                        forall|j: int| 0 <= j < i ==> qs[j] < epoch,
                    decreases q.len() - i,
                {
                    i = i + 1;
                }
                if i < q.len() && q[i] == epoch {
                    proof {
                        assert(q0 == qs);
                        assert(self@.queue_or_empty().contains(epoch)) by {
                            assert(self@.queue_or_empty()[i as int] == epoch);
                        }
                        assert(*self == *old(self));
                    }
                } else {
                    q.insert(i, epoch);
                    proof {
                        assert(q0 == qs);
                        let q1 = self@.queue_or_empty();
                        assert(q1 =~= qs.insert(i as int, epoch));
                        assert(self@ =~= (StateView {
                            executable_epoch_queue: self@.executable_epoch_queue,
                            ..old(self)@
                        }));
                        assert(q1.contains(epoch)) by {
                            assert(q1[i as int] == epoch);
                        }
                        assert(strictly_ascending(q1)) by {
                            assert forall|a: int, b: int| 0 <= a < b < q1.len() implies q1[a]
                                < q1[b] by {
                                let oa = if a < i { a } else { a - 1 };
                                let ob = if b <= i { b - 1 } else { b - 1 };
                                if a == i {
                                    assert(q1[b] == qs[b - 1]);
                                    assert(!(qs[b - 1] < epoch) && qs[b - 1] != epoch);
                                } else if b == i {
                                    assert(q1[a] == qs[a]);
                                    assert(qs[a] < epoch);
                                } else if a < i && b > i {
                                    assert(q1[a] == qs[a] && q1[b] == qs[b - 1]);
                                    assert(qs[a] < epoch);
                                    assert(!(qs[b - 1] < epoch) && qs[b - 1] != epoch);
                                } else if b < i {
                                    assert(q1[a] == qs[a] && q1[b] == qs[b]);
                                } else {
                                    assert(q1[a] == qs[a - 1] && q1[b] == qs[b - 1]);
                                }
                            }
                        }
                        assert forall|e: u64|
                            q1.contains(e) <==> (q0.contains(e) || e == epoch) by {
                            if q1.contains(e) {
                                let w = choose|w: int| 0 <= w < q1.len() && q1[w] == e;
                                if w < i {
                                    assert(q0[w] == e);
                                } else if w > i {
                                    assert(q0[w - 1] == e);
                                }
                            }
                            if q0.contains(e) {
                                let w = choose|w: int| 0 <= w < q0.len() && q0[w] == e;
                                if w < i {
                                    assert(q1[w] == e);
                                } else {
                                    assert(q1[w + 1] == e);
                                }
                            }
                            if e == epoch {
                                assert(q1[i as int] == e);
                            }
                        }
                        assert forall|j: int|
                            0 <= j < q1.len() implies #[trigger] q1[j]
                            > self@.last_cron_executed_epoch by {
                            if j < i {
                                assert(q1[j] == qs[j]);
                            } else if j > i {
                                assert(q1[j] == qs[j - 1]);
                            }
                        }
                    }
                }
            },
        }
    }
}

impl State {
    /// Drop `epoch` from the executable queue if it is waiting there.
    pub fn remove_executable_epoch(&mut self, epoch: u64)
        requires
            old(self)@.wf(),
        ensures
            final(self)@ == (StateView {
                executable_epoch_queue: final(self)@.executable_epoch_queue,
                ..old(self)@
            }),
            !final(self)@.queue_or_empty().contains(epoch),
            forall|e: u64|
                final(self)@.queue_or_empty().contains(e) <==> (old(self)@.queue_or_empty()
                    .contains(e) && e != epoch),
            final(self)@.wf(),
    {
        let ghost q0 = self@.queue_or_empty();
        let mut clear = false;
        match &mut self.executable_epoch_queue {
            None => {
                proof {
                    assert(*self == *old(self));
                    assert forall|e: u64|
                        self@.queue_or_empty().contains(e) <==> (q0.contains(e) && e
                            != epoch) by {
                        if q0.contains(e) {
                            let w = choose|w: int| 0 <= w < q0.len() && q0[w] == e;
                            assert(false);
                        }
                    }
                }
            },
            Some(q) => {
                let ghost qs = q@;
                let mut i: usize = 0;
                let mut found = false;
                let mut at: usize = 0;
                while i < q.len()
                    invariant
                        i <= q.len(),
                        qs == q@,
                        !found ==> forall|j: int| 0 <= j < i ==> qs[j] != epoch,
                        found ==> at < i && i <= qs.len() && qs[at as int] == epoch,
                    decreases q.len() - i,
                {
                    if q[i] == epoch {
                        found = true;
                        at = i;
                    }
                    i = i + 1;
                }
                if found {
                    let _ = q.remove(at);
                    proof {
                        assert(q@ =~= qs.remove(at as int));
                    }
                    if q.len() == 0 {
                        clear = true;
                    }
                } else {
                    proof {
                        assert(*self == *old(self));
                        assert forall|e: u64|
                            self@.queue_or_empty().contains(e) <==> (q0.contains(e) && e
                                != epoch) by {
                            if q0.contains(e) && e == epoch {
                                let w = choose|w: int| 0 <= w < q0.len() && q0[w] == e;
                                assert(false);
                            }
                        }
                    }
                }
            },
        }
        if clear {
            self.executable_epoch_queue = None;
        }
        proof {
            let q1 = self@.queue_or_empty();
            assert(self@ =~= (StateView {
                executable_epoch_queue: self@.executable_epoch_queue,
                ..old(self)@
            }));
            assert forall|e: u64| q1.contains(e) implies (q0.contains(e) && e != epoch) by {
                let w = choose|w: int| 0 <= w < q1.len() && q1[w] == e;
                if exists|at: int|
                    0 <= at < q0.len() && q0[at] == epoch && q1 == q0.remove(at) {
                    let at = choose|at: int|
                        0 <= at < q0.len() && q0[at] == epoch && q1 == q0.remove(at);
                    let rw = if w < at { w } else { w + 1 };
                    assert(q0[rw] == e);
                    if e == epoch {
                        assert(q0[rw] == q0[at]);
                        if rw != at {
                            assert(false);
                        }
                        assert(false);
                    }
                }
            }
            assert forall|e: u64| (q0.contains(e) && e != epoch) implies q1.contains(e) by {
                let w = choose|w: int| 0 <= w < q0.len() && q0[w] == e;
                if exists|at: int|
                    0 <= at < q0.len() && q0[at] == epoch && q1 == q0.remove(at) {
                    let at = choose|at: int|
                        0 <= at < q0.len() && q0[at] == epoch && q1 == q0.remove(at);
                    if w < at {
                        assert(q1[w] == e);
                    } else {
                        assert(w != at);
                        assert(q1[w - 1] == e);
                    }
                }
            }
            assert(!q1.contains(epoch));
            assert(strictly_ascending(q1)) by {
                if exists|at: int|
                    0 <= at < q0.len() && q0[at] == epoch && q1 == q0.remove(at) {
                    let at = choose|at: int|
                        0 <= at < q0.len() && q0[at] == epoch && q1 == q0.remove(at);
                    assert forall|a: int, b: int| 0 <= a < b < q1.len() implies q1[a]
                        < q1[b] by {
                        let ra = if a < at { a } else { a + 1 };
                        let rb = if b < at { b } else { b + 1 };
                        assert(q1[a] == q0[ra] && q1[b] == q0[rb]);
                    }
                }
            }
            assert forall|j: int|
                0 <= j < q1.len() implies #[trigger] q1[j]
                > self@.last_cron_executed_epoch by {
                assert(q1.contains(q1[j]));
            }
        }
    }
}

} // verus!

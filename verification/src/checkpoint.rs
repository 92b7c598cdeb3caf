//! Window checkpoints. A child subnet periodically commits a checkpoint into
//! its parent; the parent accumulates the commitments of all children into
//! the checkpoint of the current window, chained by content id.
use vstd::prelude::*;

use crate::codec::{enc_check_data, write_check_data};
use crate::cross::{CrossMsg, CrossMsgView};
use crate::error::Error;
use crate::hash::{cid_bytes, cid_of};
use crate::subnet_id::SubnetID;

verus! {

/// The batch of bottom-up cross-messages a child declares in a checkpoint,
/// with the fee it pays for their propagation.
#[derive(Debug)]
pub struct BatchCrossMsgs {
    pub cross_msgs: Option<Vec<CrossMsg>>,
    pub fee: u128,
}

/// The mathematical content of a `BatchCrossMsgs`.
#[verifier::ext_equal]
pub ghost struct BatchView {
    pub msgs: Option<Seq<CrossMsgView>>,
    pub fee: u128,
}

impl View for BatchCrossMsgs {
    type V = BatchView;

    open spec fn view(&self) -> BatchView {
        BatchView {
            msgs: match self.cross_msgs {
                Some(v) => Some(v@.map_values(|m: CrossMsg| m@)),
                None => None,
            },
            fee: self.fee,
        }
    }
}

impl BatchView {
    /// The messages of the batch, an empty sequence when there are none.
    pub open spec fn msgs_or_empty(&self) -> Seq<CrossMsgView> {
        match self.msgs {
            Some(s) => s,
            None => Seq::empty(),
        }
    }

    /// The total value carried by the batch.
    pub open spec fn total_value(&self) -> int {
        sum_of_values(self.msgs_or_empty())
    }
}

/// The sum of the values of a sequence of cross-messages.
pub open spec fn sum_of_values(msgs: Seq<CrossMsgView>) -> int
    decreases msgs.len(),
{
    if msgs.len() == 0 {
        0
    } else {
        sum_of_values(msgs.drop_last()) + msgs.last().msg.value
    }
}

/// The summed value is never negative.
pub proof fn lemma_sum_values_nonneg(msgs: Seq<CrossMsgView>)
    ensures
        sum_of_values(msgs) >= 0,
    decreases msgs.len(),
{
    if msgs.len() > 0 {
        lemma_sum_values_nonneg(msgs.drop_last());
    }
}

/// A prefix of the batch never carries more value than the whole batch.
pub proof fn lemma_sum_values_prefix(msgs: Seq<CrossMsgView>, k: int)
    requires
        0 <= k <= msgs.len(),
    ensures
        sum_of_values(msgs.subrange(0, k)) <= sum_of_values(msgs),
    decreases msgs.len() - k,
{
    if k == msgs.len() {
        assert(msgs.subrange(0, k) =~= msgs);
    } else {
        lemma_sum_values_prefix(msgs, k + 1);
        let cur = msgs.subrange(0, k + 1);
        assert(cur.drop_last() =~= msgs.subrange(0, k));
        assert(sum_of_values(msgs.subrange(0, k)) <= sum_of_values(cur));
    }
}

impl Default for BatchCrossMsgs {
    /// An empty batch with no fee.
    fn default() -> (r: BatchCrossMsgs)
        ensures
            r@ == (BatchView { msgs: None::<Seq<CrossMsgView>>, fee: 0u128 }),
    {
        BatchCrossMsgs { cross_msgs: None, fee: 0 }
    }
}

impl Clone for BatchCrossMsgs {
    fn clone(&self) -> (r: Self)
        ensures
            r@ == self@,
    {
        let cross_msgs = match &self.cross_msgs {
            Some(v) => {
                let c = v.clone();
                proof {
                    assert(c@.map_values(|m: CrossMsg| m@) =~= v@.map_values(
                        |m: CrossMsg| m@,
                    ));
                }
                Some(c)
            },
            None => None,
        };
        BatchCrossMsgs { cross_msgs, fee: self.fee }
    }
}

/// One child subnet's list of committed checkpoint ids within a window.
#[derive(Debug)]
pub struct ChildCheck {
    pub source: SubnetID,
    pub checks: Vec<Vec<u8>>,
}

/// The mathematical content of a `ChildCheck`.
#[verifier::ext_equal]
pub ghost struct ChildCheckView {
    pub source: Seq<u64>,
    pub checks: Seq<Seq<u8>>,
}

impl View for ChildCheck {
    type V = ChildCheckView;

    open spec fn view(&self) -> ChildCheckView {
        ChildCheckView {
            source: self.source@,
            checks: self.checks@.map_values(|c: Vec<u8>| c@),
        }
    }
}

impl Clone for ChildCheck {
    fn clone(&self) -> (r: Self)
        ensures
            r@ == self@,
    {
        let checks = self.checks.clone();
        proof {
            assert forall|i: int| 0 <= i < checks@.len() implies checks@[i]@
                == self.checks@[i]@ by {
            }
            assert(checks@.map_values(|c: Vec<u8>| c@) =~= self.checks@.map_values(
                |c: Vec<u8>| c@,
            ));
        }
        ChildCheck { source: self.source.clone(), checks }
    }
}

/// The hashed fields of a checkpoint: everything but the signature.
#[derive(Debug)]
pub struct CheckData {
    pub source: SubnetID,
    pub tip_set: Vec<u8>,
    pub epoch: u64,
    pub prev_check: Vec<u8>,
    pub children: Vec<ChildCheck>,
    pub cross_msgs: BatchCrossMsgs,
}

/// The mathematical content of a `CheckData`.
#[verifier::ext_equal]
pub ghost struct CheckDataView {
    pub source: Seq<u64>,
    pub tip_set: Seq<u8>,
    pub epoch: u64,
    pub prev_check: Seq<u8>,
    pub children: Seq<ChildCheckView>,
    pub cross_msgs: BatchView,
}

impl View for CheckData {
    type V = CheckDataView;

    open spec fn view(&self) -> CheckDataView {
        CheckDataView {
            source: self.source@,
            tip_set: self.tip_set@,
            epoch: self.epoch,
            prev_check: self.prev_check@,
            children: self.children@.map_values(|c: ChildCheck| c@),
            cross_msgs: self.cross_msgs@,
        }
    }
}

impl CheckData {
    /// Fresh check data for `id` at `epoch`: no tip set, no previous link,
    /// no children, an empty batch.
    pub fn new(id: SubnetID, epoch: u64) -> (r: CheckData)
        ensures
            r@ == (CheckDataView {
                source: id@,
                tip_set: Seq::<u8>::empty(),
                epoch: epoch,
                prev_check: Seq::<u8>::empty(),
                children: Seq::<ChildCheckView>::empty(),
                cross_msgs: BatchView { msgs: None::<Seq<CrossMsgView>>, fee: 0u128 },
            }),
    {
        let tip_set: Vec<u8> = Vec::new();
        let prev_check: Vec<u8> = Vec::new();
        let children: Vec<ChildCheck> = Vec::new();
        proof {
            assert(tip_set@ =~= Seq::<u8>::empty());
            assert(prev_check@ =~= Seq::<u8>::empty());
            assert(children@.map_values(|c: ChildCheck| c@) =~= Seq::<ChildCheckView>::empty());
        }
        CheckData {
            source: id,
            tip_set,
            epoch,
            prev_check,
            children,
            cross_msgs: BatchCrossMsgs::default(),
        }
    }
}

impl Clone for CheckData {
    fn clone(&self) -> (r: Self)
        ensures
            r@ == self@,
    {
        let tip_set = self.tip_set.clone();
        let prev_check = self.prev_check.clone();
        let children = self.children.clone();
        proof {
            assert(tip_set@ =~= self.tip_set@);
            assert(prev_check@ =~= self.prev_check@);
            assert forall|i: int| 0 <= i < children@.len() implies children@[i]@
                == self.children@[i]@ by {
            }
            assert(children@.map_values(|c: ChildCheck| c@) =~= self.children@.map_values(
                |c: ChildCheck| c@,
            ));
        }
        CheckData {
            source: self.source.clone(),
            tip_set,
            epoch: self.epoch,
            prev_check,
            children,
            cross_msgs: self.cross_msgs.clone(),
        }
    }
}

/// A checkpoint: its data and an opaque aggregate signature. Only the data
/// takes part in the checkpoint's content id.
#[derive(Debug)]
pub struct Checkpoint {
    pub data: CheckData,
    sig: Vec<u8>,
}

/// The mathematical content of a `Checkpoint`.
#[verifier::ext_equal]
pub ghost struct CheckpointView {
    pub data: CheckDataView,
    pub sig: Seq<u8>,
}

impl View for Checkpoint {
    type V = CheckpointView;

    closed spec fn view(&self) -> CheckpointView {
        CheckpointView { data: self.data@, sig: self.sig@ }
    }
}

impl Checkpoint {
    /// A fresh checkpoint for `id` at `epoch`, with an empty signature.
    pub fn new(id: SubnetID, epoch: u64) -> (r: Checkpoint)
        ensures
            r@ == (CheckpointView {
                data: CheckDataView {
                    source: id@,
                    tip_set: Seq::<u8>::empty(),
                    epoch: epoch,
                    prev_check: Seq::<u8>::empty(),
                    children: Seq::<ChildCheckView>::empty(),
                    cross_msgs: BatchView { msgs: None::<Seq<CrossMsgView>>, fee: 0u128 },
                },
                sig: Seq::<u8>::empty(),
            }),
    {
        let sig: Vec<u8> = Vec::new();
        proof {
            assert(sig@ =~= Seq::<u8>::empty());
        }
        Checkpoint { data: CheckData::new(id, epoch), sig }
    }

    /// The epoch this checkpoint stands for.
    pub fn epoch(&self) -> (r: u64)
        ensures
            r == self@.data.epoch,
    {
        self.data.epoch
    }

    /// The subnet that produced this checkpoint.
    pub fn source(&self) -> (r: &SubnetID)
        ensures
            r@ == self@.data.source,
    {
        &self.data.source
    }

    /// The opaque signature carried by the checkpoint.
    pub fn signature(&self) -> (r: &Vec<u8>)
        ensures
            r@ == self@.sig,
    {
        &self.sig
    }

    /// Replace the signature; the data and hence the content id are unchanged.
    pub fn set_signature(&mut self, sig: Vec<u8>)
        ensures
            final(self)@.data == old(self)@.data,
            final(self)@.sig == sig@,
    {
        self.sig = sig;
    }

    /// The content id of the last checkpoint this one chains to; empty bytes
    /// when this is the first of its source.
    pub fn prev_check(&self) -> (r: &Vec<u8>)
        ensures
            r@ == self@.data.prev_check,
    {
        &self.data.prev_check
    }

    /// The batch of bottom-up cross-messages declared by this checkpoint.
    pub fn cross_msgs(&self) -> (r: &BatchCrossMsgs)
        ensures
            r@ == self@.data.cross_msgs,
    {
        &self.data.cross_msgs
    }

    /// Append a cross-message to the batch and add its propagation fee.
    pub fn push_cross_msgs(&mut self, m: CrossMsg, fee: u128)
        requires
            old(self)@.data.cross_msgs.fee + fee <= u128::MAX,
        ensures
            final(self)@.data == (CheckDataView {
                cross_msgs: BatchView {
                    msgs: Some(old(self)@.data.cross_msgs.msgs_or_empty().push(m@)),
                    fee: (old(self)@.data.cross_msgs.fee + fee) as u128,
                },
                ..old(self)@.data
            }),
            final(self)@.sig == old(self)@.sig,
    {
        self.data.cross_msgs.fee = self.data.cross_msgs.fee + fee;
        match &mut self.data.cross_msgs.cross_msgs {
            Some(v) => {
                v.push(m);
                proof {
                    assert(self.data.cross_msgs@.msgs_or_empty() =~= old(
                        self,
                    )@.data.cross_msgs.msgs_or_empty().push(m@));
                }
            },
            None => {
                let mut v: Vec<CrossMsg> = Vec::new();
                v.push(m);
                self.data.cross_msgs.cross_msgs = Some(v);
                proof {
                    assert(self.data.cross_msgs@.msgs_or_empty() =~= old(
                        self,
                    )@.data.cross_msgs.msgs_or_empty().push(m@));
                }
            },
        }
        proof {
            assert(self@.data =~= (CheckDataView {
                cross_msgs: BatchView {
                    msgs: Some(old(self)@.data.cross_msgs.msgs_or_empty().push(m@)),
                    fee: (old(self)@.data.cross_msgs.fee + fee) as u128,
                },
                ..old(self)@.data
            }));
        }
    }
}

impl Clone for Checkpoint {
    fn clone(&self) -> (r: Self)
        ensures
            r@ == self@,
    {
        let sig = self.sig.clone();
        proof {
            assert(sig@ =~= self.sig@);
        }
        Checkpoint { data: self.data.clone(), sig }
    }
}

/// Is there an entry for `source` among the children?
pub open spec fn has_source(children: Seq<ChildCheckView>, source: Seq<u64>) -> bool {
    exists|i: int| 0 <= i < children.len() && children[i].source == source
}

/// Does some entry for `source` already hold the content id `c`?
pub open spec fn has_child_cid(children: Seq<ChildCheckView>, source: Seq<u64>, c: Seq<u8>) -> bool {
    exists|i: int|
        0 <= i < children.len() && children[i].source == source && children[i].checks.contains(c)
}

impl Checkpoint {
    /// The content id of this checkpoint: derived from its data fields only,
    /// so the signature never affects it.
    pub open spec fn spec_cid(&self) -> Seq<u8> {
        cid_of(enc_check_data(self@.data))
    }

    /// Compute the content id bytes of this checkpoint.
    pub fn cid(&self) -> (r: Vec<u8>)
        ensures
            r@ == self.spec_cid(),
    {
        let mut buf: Vec<u8> = Vec::new();
        write_check_data(&mut buf, &self.data);
        cid_bytes(&buf)
    }

    /// Record the commitment `commit` of a child subnet in this window
    /// checkpoint: append its content id to the child's list, creating the
    /// list on first commitment. A content id already recorded for that
    /// source is refused, and the checkpoint is left unchanged.
    pub fn add_child_check(&mut self, commit: &Checkpoint) -> (r: Result<(), Error>)
        ensures
            ({
                let c = commit.spec_cid();
                let src = commit@.data.source;
                let ch0 = old(self)@.data.children;
                let ch1 = final(self)@.data.children;
                &&& (r is Err <==> has_child_cid(ch0, src, c))
                &&& (r matches Err(e) ==> e is IllegalArgument && final(self)@ == old(self)@)
                &&& (r is Ok ==> {
                    &&& final(self)@.sig == old(self)@.sig
                    &&& final(self)@.data == (CheckDataView { children: ch1, ..old(self)@.data })
                    &&& (!has_source(ch0, src) ==> ch1 == ch0.push(
                        ChildCheckView { source: src, checks: seq![c] },
                    ))
                    &&& (has_source(ch0, src) ==> exists|i: int|
                        {
                            &&& 0 <= i < ch0.len()
                            &&& ch0[i].source == src
                            &&& (forall|j: int| 0 <= j < i ==> ch0[j].source != src)
                            &&& ch1 == ch0.update(
                                i,
                                ChildCheckView { source: src, checks: ch0[i].checks.push(c) },
                            )
                        })
                })
            }),
    {
        let cid = commit.cid();
        let src = commit.source();
        let ghost ch0 = self@.data.children;
        let ghost cg = commit.spec_cid();
        let ghost srcg = commit@.data.source;
        let mut first: Option<usize> = None;
        let mut dup = false;
        let mut i: usize = 0;
        while i < self.data.children.len()
            invariant
                i <= self.data.children.len(),
                *self == *old(self),
                ch0 == self@.data.children,
                cid@ == cg,
                src@ == srcg,
                match first {
                    None => forall|j: int| 0 <= j < i ==> ch0[j].source != srcg,
                    Some(fi) => {
                        &&& fi < i
                        &&& ch0[fi as int].source == srcg
                        &&& forall|j: int| 0 <= j < fi ==> ch0[j].source != srcg
                    },
                },
                dup <==> exists|j: int|
                    0 <= j < i && ch0[j].source == srcg && ch0[j].checks.contains(cg),
            decreases self.data.children.len() - i,
        {
            if &self.data.children[i].source == src {
                if first.is_none() {
                    first = Some(i);
                }
                let entry = &self.data.children[i];
                let mut k: usize = 0;
                let mut found = false;
                while k < entry.checks.len()
                    invariant
                        k <= entry.checks.len(),
                        cid@ == cg,
                        found <==> exists|t: int| 0 <= t < k && entry.checks@[t]@ == cg,
                    decreases entry.checks.len() - k,
                {
                    if &entry.checks[k] == &cid {
                        proof {
                            assert(entry.checks@[k as int]@ =~= cg) by {
                                assert(entry.checks@[k as int]@ =~= cid@);
                            }
                        }
                        found = true;
                    }
                    k = k + 1;
                }
                if found {
                    proof {
                        assert(ch0[i as int].checks.contains(cg)) by {
                            let t = choose|t: int|
                                0 <= t < entry.checks.len() && entry.checks@[t]@ == cg;
                            assert(ch0[i as int].checks[t] == cg);
                        }
                    }
                    dup = true;
                }
                proof {
                    if !found {
                        if ch0[i as int].checks.contains(cg) {
                            let t = choose|t: int|
                                0 <= t < ch0[i as int].checks.len() && ch0[i as int].checks[t]
                                    == cg;
                            assert(entry.checks@[t]@ == cg);
                        }
                    }
                }
            }
            i = i + 1;
        }
        if dup {
            return Err(Error::IllegalArgument(
                "child checkpoint being committed already exists for source",
            ));
        }
        match first {
            Some(fi) => {
                let mut entry = self.data.children.remove(fi);
                entry.checks.push(cid);
                proof {
                    assert(entry@ == (ChildCheckView {
                        source: srcg,
                        checks: ch0[fi as int].checks.push(cg),
                    })) by {
                        assert(entry.checks@.map_values(|b: Vec<u8>| b@) =~= ch0[
                            fi as int
                        ].checks.push(cg));
                    }
                }
                self.data.children.insert(fi, entry);
                proof {
                    assert(self@.data.children =~= ch0.update(
                        fi as int,
                        ChildCheckView { source: srcg, checks: ch0[fi as int].checks.push(cg) },
                    ));
                    assert(self@.data =~= (CheckDataView {
                        children: self@.data.children,
                        ..old(self)@.data
                    }));
                }
            },
            None => {
                let mut checks: Vec<Vec<u8>> = Vec::new();
                checks.push(cid);
                let entry = ChildCheck { source: src.clone(), checks };
                proof {
                    assert(entry@ == (ChildCheckView { source: srcg, checks: seq![cg] })) by {
                        assert(entry.checks@.map_values(|b: Vec<u8>| b@) =~= seq![cg]);
                    }
                }
                self.data.children.push(entry);
                proof {
                    assert(self@.data.children =~= ch0.push(
                        ChildCheckView { source: srcg, checks: seq![cg] },
                    ));
                    assert(self@.data =~= (CheckDataView {
                        children: self@.data.children,
                        ..old(self)@.data
                    }));
                }
            },
        }
        Ok(())
    }
}

/// Registry entry for a batch of bottom-up messages awaiting propagation
/// above: where it came from, where it goes, the content id of its messages,
/// its position in the bottom-up sequence, and the value it carries.
#[derive(Debug)]
pub struct CrossMsgMeta {
    pub from: SubnetID,
    pub to: SubnetID,
    pub msgs_cid: Vec<u8>,
    pub nonce: u64,
    pub value: u128,
}

/// The mathematical content of a `CrossMsgMeta`.
#[verifier::ext_equal]
pub ghost struct CrossMsgMetaView {
    pub from: Seq<u64>,
    pub to: Seq<u64>,
    pub msgs_cid: Seq<u8>,
    pub nonce: u64,
    pub value: u128,
}

impl View for CrossMsgMeta {
    type V = CrossMsgMetaView;

    open spec fn view(&self) -> CrossMsgMetaView {
        CrossMsgMetaView {
            from: self.from@,
            to: self.to@,
            msgs_cid: self.msgs_cid@,
            nonce: self.nonce,
            value: self.value,
        }
    }
}

impl CrossMsgMeta {
    /// A fresh meta between two subnets, with everything else zero.
    pub fn new(from: &SubnetID, to: &SubnetID) -> (r: CrossMsgMeta)
        ensures
            r@ == (CrossMsgMetaView {
                from: from@,
                to: to@,
                msgs_cid: Seq::<u8>::empty(),
                nonce: 0u64,
                value: 0u128,
            }),
    {
        let msgs_cid: Vec<u8> = Vec::new();
        proof {
            assert(msgs_cid@ =~= Seq::<u8>::empty());
        }
        CrossMsgMeta { from: from.clone(), to: to.clone(), msgs_cid, nonce: 0, value: 0 }
    }

    /// Place the meta at its position in the bottom-up sequence.
    pub fn set_nonce(&mut self, nonce: u64)
        ensures
            final(self)@ == (CrossMsgMetaView { nonce: nonce, ..old(self)@ }),
    {
        self.nonce = nonce;
    }
}

impl Clone for CrossMsgMeta {
    fn clone(&self) -> (r: Self)
        ensures
            r@ == self@,
    {
        let msgs_cid = self.msgs_cid.clone();
        proof {
            assert(msgs_cid@ =~= self.msgs_cid@);
        }
        CrossMsgMeta {
            from: self.from.clone(),
            to: self.to.clone(),
            msgs_cid,
            nonce: self.nonce,
            value: self.value,
        }
    }
}

/// The epoch of the checkpoint window that `epoch` belongs to: the last
/// multiple of `period` not above it.
pub fn checkpoint_epoch(epoch: u64, period: u64) -> (r: u64)
    requires
        period > 0,
    ensures
        r == (epoch / period) * period,
        r <= epoch,
{
    proof {
        assert((epoch / period) * period <= epoch) by (nonlinear_arith)
            requires
                period > 0,
        ;
    }
    (epoch / period) * period
}

/// The epoch at which the currently accumulating window checkpoint closes:
/// the first multiple of `period` strictly after `epoch`.
pub fn window_epoch(epoch: u64, period: u64) -> (r: u64)
    requires
        period > 0,
        epoch + period <= u64::MAX,
    ensures
        r == (epoch / period + 1) * period,
        r > epoch,
        r <= epoch + period,
        r % period == 0,
{
    proof {
        assert((epoch / period) * period <= epoch && epoch < (epoch / period) * period + period
            && (epoch / period + 1) * period == (epoch / period) * period + period
            && ((epoch / period + 1) * period) % (period as int) == 0) by (nonlinear_arith)
            requires
                period > 0,
        ;
    }
    (epoch / period + 1) * period
}

} // verus!

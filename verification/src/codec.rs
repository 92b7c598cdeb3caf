//! Canonical byte encoding of the records the gateway persists or hashes.
//! Fields are laid out in a fixed order: integers little-endian at fixed
//! width, byte strings and lists with a leading count, options with a leading
//! tag byte. The encoding is deterministic, so equal records give equal
//! bytes, and content ids derived from it are well defined.
use vstd::prelude::*;
use vstd::bytes::{
    spec_u128_to_le_bytes, spec_u64_to_le_bytes, u128_to_le_bytes, u64_to_le_bytes,
};

use crate::address::{AddrView, IPCAddress};
use crate::checkpoint::{BatchView, BatchCrossMsgs, CheckData, CheckDataView, ChildCheck,
    ChildCheckView};
use crate::cross::{CrossMsg, CrossMsgView, MsgView, StorableMsg};
use crate::subnet_id::SubnetID;

verus! {

/// A `u64` as its eight little-endian bytes.
pub open spec fn enc_u64(x: u64) -> Seq<u8> {
    spec_u64_to_le_bytes(x)
}

/// A `u128` as its sixteen little-endian bytes.
pub open spec fn enc_u128(x: u128) -> Seq<u8> {
    spec_u128_to_le_bytes(x)
}

/// A boolean as one byte.
pub open spec fn enc_bool(b: bool) -> Seq<u8> {
    seq![if b { 1u8 } else { 0u8 }]
}

/// A byte string: its length, then its bytes.
pub open spec fn enc_bytes(b: Seq<u8>) -> Seq<u8> {
    enc_u64(b.len() as u64) + b
}

/// The items of a list of `u64`, one after the other.
pub open spec fn enc_u64_items(l: Seq<u64>) -> Seq<u8>
    decreases l.len(),
{
    if l.len() == 0 {
        Seq::empty()
    } else {
        enc_u64_items(l.drop_last()) + enc_u64(l.last())
    }
}

/// A list of `u64`: its length, then its items.
pub open spec fn enc_u64_list(l: Seq<u64>) -> Seq<u8> {
    enc_u64(l.len() as u64) + enc_u64_items(l)
}

/// A subnet id: the list of its path elements.
pub open spec fn enc_subnet(s: Seq<u64>) -> Seq<u8> {
    enc_u64_list(s)
}

/// An address: its subnet, then its raw id.
pub open spec fn enc_addr(a: AddrView) -> Seq<u8> {
    enc_subnet(a.subnet) + enc_u64(a.raw)
}

/// A storable message: endpoints, method, params, value, nonce, in order.
pub open spec fn enc_msg(m: MsgView) -> Seq<u8> {
    enc_addr(m.from) + enc_addr(m.to) + enc_u64(m.method) + enc_bytes(m.params) + enc_u128(m.value)
        + enc_u64(m.nonce)
}

/// A cross-message: its message, then its wrapped flag.
pub open spec fn enc_cross_msg(c: CrossMsgView) -> Seq<u8> {
    enc_msg(c.msg) + enc_bool(c.wrapped)
}

/// The items of a list of storable messages, one after the other.
pub open spec fn enc_msg_items(l: Seq<MsgView>) -> Seq<u8>
    decreases l.len(),
{
    if l.len() == 0 {
        Seq::empty()
    } else {
        enc_msg_items(l.drop_last()) + enc_msg(l.last())
    }
}

/// A list of storable messages: its length, then its items.
pub open spec fn enc_msg_list(l: Seq<MsgView>) -> Seq<u8> {
    enc_u64(l.len() as u64) + enc_msg_items(l)
}

/// The items of a list of cross-messages, one after the other.
pub open spec fn enc_cross_msg_items(l: Seq<CrossMsgView>) -> Seq<u8>
    decreases l.len(),
{
    if l.len() == 0 {
        Seq::empty()
    } else {
        enc_cross_msg_items(l.drop_last()) + enc_cross_msg(l.last())
    }
}

/// A list of cross-messages: its length, then its items.
pub open spec fn enc_cross_msg_list(l: Seq<CrossMsgView>) -> Seq<u8> {
    enc_u64(l.len() as u64) + enc_cross_msg_items(l)
}

/// An optional owner list: a tag byte, then the list if there is one.
pub open spec fn enc_owners(o: Option<Seq<u64>>) -> Seq<u8> {
    match o {
        None => seq![0u8],
        Some(l) => seq![1u8] + enc_u64_list(l),
    }
}

/// A postbox item: the cross-message, then the optional owner list.
pub open spec fn enc_postbox_item(c: CrossMsgView, owners: Option<Seq<u64>>) -> Seq<u8> {
    enc_cross_msg(c) + enc_owners(owners)
}

/// A cron checkpoint: its epoch, then its top-down messages.
pub open spec fn enc_cron_checkpoint(epoch: u64, msgs: Seq<MsgView>) -> Seq<u8> {
    enc_u64(epoch) + enc_msg_list(msgs)
}

/// A batch of cross-messages: the optional message list, then the fee.
pub open spec fn enc_batch(b: BatchView) -> Seq<u8> {
    (match b.msgs {
        None => seq![0u8],
        Some(l) => seq![1u8] + enc_cross_msg_list(l),
    }) + enc_u128(b.fee)
}

/// The items of a list of byte strings, one after the other.
pub open spec fn enc_bytes_items(l: Seq<Seq<u8>>) -> Seq<u8>
    decreases l.len(),
{
    if l.len() == 0 {
        Seq::empty()
    } else {
        enc_bytes_items(l.drop_last()) + enc_bytes(l.last())
    }
}

/// One child's checkpoint links: the source, then the list of content ids.
pub open spec fn enc_child_check(c: ChildCheckView) -> Seq<u8> {
    enc_subnet(c.source) + enc_u64(c.checks.len() as u64) + enc_bytes_items(c.checks)
}

/// The items of a list of child checkpoint links, one after the other.
pub open spec fn enc_child_check_items(l: Seq<ChildCheckView>) -> Seq<u8>
    decreases l.len(),
{
    if l.len() == 0 {
        Seq::empty()
    } else {
        enc_child_check_items(l.drop_last()) + enc_child_check(l.last())
    }
}

/// The hashed fields of a checkpoint, in order.
pub open spec fn enc_check_data(d: CheckDataView) -> Seq<u8> {
    enc_subnet(d.source) + enc_bytes(d.tip_set) + enc_u64(d.epoch) + enc_bytes(d.prev_check)
        + enc_u64(d.children.len() as u64) + enc_child_check_items(d.children) + enc_batch(
        d.cross_msgs,
    )
}

/// Append the encoding of a `u64`.
pub fn write_u64(out: &mut Vec<u8>, x: u64)
    ensures
        final(out)@ == old(out)@ + enc_u64(x),
{
    let mut b = u64_to_le_bytes(x);
    out.append(&mut b);
}

/// Append the encoding of a `u128`.
pub fn write_u128(out: &mut Vec<u8>, x: u128)
    ensures
        final(out)@ == old(out)@ + enc_u128(x),
{
    let mut b = u128_to_le_bytes(x);
    out.append(&mut b);
}

/// Append the encoding of a boolean.
pub fn write_bool(out: &mut Vec<u8>, b: bool)
    ensures
        final(out)@ == old(out)@ + enc_bool(b),
{
    out.push(if b { 1u8 } else { 0u8 });
    proof {
        assert(out@ =~= old(out)@ + enc_bool(b));
    }
}

/// Append the encoding of a byte string.
pub fn write_bytes(out: &mut Vec<u8>, b: &Vec<u8>)
    ensures
        final(out)@ == old(out)@ + enc_bytes(b@),
{
    write_u64(out, b.len() as u64);
    let ghost mid = out@;
    let mut i: usize = 0;
    while i < b.len()
        invariant
            i <= b.len(),
            out@ == mid + b@.subrange(0, i as int),
        decreases b.len() - i,
    {
        out.push(b[i]);
        i = i + 1;
        proof {
            assert(out@ =~= mid + b@.subrange(0, i as int));
        }
    }
    proof {
        assert(b@.subrange(0, b@.len() as int) =~= b@);
        assert(out@ =~= old(out)@ + enc_bytes(b@));
    }
}

/// Append the encoding of a list of `u64`.
pub fn write_u64_list(out: &mut Vec<u8>, l: &Vec<u64>)
    ensures
        final(out)@ == old(out)@ + enc_u64_list(l@),
{
    write_u64(out, l.len() as u64);
    let ghost mid = out@;
    let mut i: usize = 0;
    while i < l.len()
        invariant
            i <= l.len(),
            out@ == mid + enc_u64_items(l@.subrange(0, i as int)),
        decreases l.len() - i,
    {
        write_u64(out, l[i]);
        i = i + 1;
        proof {
            let pre = l@.subrange(0, i as int - 1);
            let cur = l@.subrange(0, i as int);
            assert(cur.drop_last() =~= pre);
            assert(out@ =~= mid + enc_u64_items(cur));
        }
    }
    proof {
        assert(l@.subrange(0, l@.len() as int) =~= l@);
        assert(out@ =~= old(out)@ + enc_u64_list(l@));
    }
}

/// Append the encoding of a subnet id.
pub fn write_subnet(out: &mut Vec<u8>, s: &SubnetID)
    ensures
        final(out)@ == old(out)@ + enc_subnet(s@),
{
    write_u64_list(out, s.route());
}

/// Append the encoding of an address.
pub fn write_addr(out: &mut Vec<u8>, a: &IPCAddress)
    ensures
        final(out)@ == old(out)@ + enc_addr(a@),
{
    write_subnet(out, a.subnet_ref());
    write_u64(out, a.raw());
    proof {
        assert(out@ =~= old(out)@ + enc_addr(a@));
    }
}

/// Append the encoding of a storable message.
pub fn write_msg(out: &mut Vec<u8>, m: &StorableMsg)
    ensures
        final(out)@ == old(out)@ + enc_msg(m@),
{
    write_addr(out, &m.from);
    write_addr(out, &m.to);
    write_u64(out, m.method);
    write_bytes(out, &m.params);
    write_u128(out, m.value);
    write_u64(out, m.nonce);
    proof {
        assert(out@ =~= old(out)@ + enc_msg(m@));
    }
}

/// Append the encoding of a cross-message.
pub fn write_cross_msg(out: &mut Vec<u8>, c: &CrossMsg)
    ensures
        final(out)@ == old(out)@ + enc_cross_msg(c@),
{
    write_msg(out, &c.msg);
    write_bool(out, c.wrapped);
    proof {
        assert(out@ =~= old(out)@ + enc_cross_msg(c@));
    }
}

/// Append the encoding of a list of storable messages.
pub fn write_msg_list(out: &mut Vec<u8>, l: &Vec<StorableMsg>)
    ensures
        final(out)@ == old(out)@ + enc_msg_list(l@.map_values(|m: StorableMsg| m@)),
{
    let ghost views = l@.map_values(|m: StorableMsg| m@);
    write_u64(out, l.len() as u64);
    let ghost mid = out@;
    let mut i: usize = 0;
    while i < l.len()
        invariant
            i <= l.len(),
            views == l@.map_values(|m: StorableMsg| m@),
            out@ == mid + enc_msg_items(views.subrange(0, i as int)),
        decreases l.len() - i,
    {
        write_msg(out, &l[i]);
        i = i + 1;
        proof {
            let pre = views.subrange(0, i as int - 1);
            let cur = views.subrange(0, i as int);
            assert(cur.drop_last() =~= pre);
            assert(cur.last() == l@[i as int - 1]@);
            assert(out@ =~= mid + enc_msg_items(cur));
        }
    }
    proof {
        assert(views.subrange(0, views.len() as int) =~= views);
        assert(out@ =~= old(out)@ + enc_msg_list(views));
    }
}

/// Append the encoding of a list of cross-messages.
pub fn write_cross_msg_list(out: &mut Vec<u8>, l: &Vec<CrossMsg>)
    ensures
        final(out)@ == old(out)@ + enc_cross_msg_list(l@.map_values(|c: CrossMsg| c@)),
{
    let ghost views = l@.map_values(|c: CrossMsg| c@);
    write_u64(out, l.len() as u64);
    let ghost mid = out@;
    let mut i: usize = 0;
    while i < l.len()
        invariant
            i <= l.len(),
            views == l@.map_values(|c: CrossMsg| c@),
            out@ == mid + enc_cross_msg_items(views.subrange(0, i as int)),
        decreases l.len() - i,
    {
        write_cross_msg(out, &l[i]);
        i = i + 1;
        proof {
            let pre = views.subrange(0, i as int - 1);
            let cur = views.subrange(0, i as int);
            assert(cur.drop_last() =~= pre);
            assert(cur.last() == l@[i as int - 1]@);
            assert(out@ =~= mid + enc_cross_msg_items(cur));
        }
    }
    proof {
        assert(views.subrange(0, views.len() as int) =~= views);
        assert(out@ =~= old(out)@ + enc_cross_msg_list(views));
    }
}

/// Append the encoding of an optional owner list.
pub fn write_owners(out: &mut Vec<u8>, owners: &Option<Vec<u64>>)
    ensures
        final(out)@ == old(out)@ + enc_owners(
            match owners {
                Some(l) => Some(l@),
                None => None,
            },
        ),
{
    match owners {
        None => {
            out.push(0u8);
            proof {
                assert(out@ =~= old(out)@ + seq![0u8]);
            }
        },
        Some(l) => {
            out.push(1u8);
            write_u64_list(out, l);
            proof {
                assert(out@ =~= old(out)@ + (seq![1u8] + enc_u64_list(l@)));
            }
        },
    }
}

/// Append the encoding of a postbox item.
pub fn write_postbox_item(out: &mut Vec<u8>, c: &CrossMsg, owners: &Option<Vec<u64>>)
    ensures
        final(out)@ == old(out)@ + enc_postbox_item(
            c@,
            match owners {
                Some(l) => Some(l@),
                None => None,
            },
        ),
{
    write_cross_msg(out, c);
    write_owners(out, owners);
    proof {
        assert(out@ =~= old(out)@ + enc_postbox_item(
            c@,
            match owners {
                Some(l) => Some(l@),
                None => None,
            },
        ));
    }
}

/// Append the encoding of a batch of cross-messages.
pub fn write_batch(out: &mut Vec<u8>, b: &BatchCrossMsgs)
    ensures
        final(out)@ == old(out)@ + enc_batch(b@),
{
    match &b.cross_msgs {
        None => {
            out.push(0u8);
            proof {
                assert(out@ =~= old(out)@ + seq![0u8]);
            }
        },
        Some(l) => {
            out.push(1u8);
            write_cross_msg_list(out, l);
            proof {
                assert(out@ =~= old(out)@ + (seq![1u8] + enc_cross_msg_list(
                    l@.map_values(|c: CrossMsg| c@),
                )));
            }
        },
    }
    write_u128(out, b.fee);
    proof {
        assert(out@ =~= old(out)@ + enc_batch(b@));
    }
}

/// Append the encoding of one child's checkpoint links.
pub fn write_child_check(out: &mut Vec<u8>, c: &ChildCheck)
    ensures
        final(out)@ == old(out)@ + enc_child_check(c@),
{
    write_subnet(out, &c.source);
    let ghost views = c.checks@.map_values(|b: Vec<u8>| b@);
    write_u64(out, c.checks.len() as u64);
    let ghost mid = out@;
    let mut i: usize = 0;
    while i < c.checks.len()
        invariant
            i <= c.checks.len(),
            views == c.checks@.map_values(|b: Vec<u8>| b@),
            out@ == mid + enc_bytes_items(views.subrange(0, i as int)),
        decreases c.checks.len() - i,
    {
        write_bytes(out, &c.checks[i]);
        i = i + 1;
        proof {
            let pre = views.subrange(0, i as int - 1);
            let cur = views.subrange(0, i as int);
            assert(cur.drop_last() =~= pre);
            assert(cur.last() == c.checks@[i as int - 1]@);
            assert(out@ =~= mid + enc_bytes_items(cur));
        }
    }
    proof {
        assert(views.subrange(0, views.len() as int) =~= views);
        assert(out@ =~= old(out)@ + enc_child_check(c@));
    }
}

/// Append the encoding of the hashed fields of a checkpoint.
pub fn write_check_data(out: &mut Vec<u8>, d: &CheckData)
    ensures
        final(out)@ == old(out)@ + enc_check_data(d@),
{
    write_subnet(out, &d.source);
    write_bytes(out, &d.tip_set);
    write_u64(out, d.epoch);
    write_bytes(out, &d.prev_check);
    let ghost views = d.children@.map_values(|c: ChildCheck| c@);
    write_u64(out, d.children.len() as u64);
    let ghost mid = out@;
    let mut i: usize = 0;
    while i < d.children.len()
        invariant
            i <= d.children.len(),
            views == d.children@.map_values(|c: ChildCheck| c@),
            out@ == mid + enc_child_check_items(views.subrange(0, i as int)),
        decreases d.children.len() - i,
    {
        write_child_check(out, &d.children[i]);
        i = i + 1;
        proof {
            let pre = views.subrange(0, i as int - 1);
            let cur = views.subrange(0, i as int);
            assert(cur.drop_last() =~= pre);
            assert(cur.last() == d.children@[i as int - 1]@);
            assert(out@ =~= mid + enc_child_check_items(cur));
        }
    }
    proof {
        assert(views.subrange(0, views.len() as int) =~= views);
    }
    write_batch(out, &d.cross_msgs);
    proof {
        assert(out@ =~= old(out)@ + enc_check_data(d@));
    }
}

} // verus!

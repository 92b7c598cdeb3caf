//! Decoding of the canonical byte encoding, with the round-trip laws: a
//! decoder consumes exactly what the matching encoder wrote and returns the
//! value it encoded, and whatever a decoder accepts re-encodes to the very
//! bytes it read.
use vstd::prelude::*;
use vstd::bytes::{
    lemma_auto_spec_u128_to_from_le_bytes, lemma_auto_spec_u64_to_from_le_bytes,
    spec_u128_from_le_bytes, spec_u64_from_le_bytes, u64_from_le_bytes,
};

use crate::address::{AddrView, IPCAddress};
use crate::codec::{enc_addr, enc_bool, enc_bytes, enc_msg, enc_u128, enc_u64, enc_u64_items,
    enc_u64_list, enc_subnet, write_addr};
use crate::cross::MsgView;
use crate::error::Error;
use crate::subnet_id::SubnetID;

verus! {

/// Decode a `u64` from the head of `s`: the value and the bytes consumed.
pub open spec fn dec_u64(s: Seq<u8>) -> Option<(u64, int)> {
    if s.len() >= 8 {
        Some((spec_u64_from_le_bytes(s.subrange(0, 8)), 8int))
    } else {
        None
    }
}

/// Decode a `u128` from the head of `s`.
pub open spec fn dec_u128(s: Seq<u8>) -> Option<(u128, int)> {
    if s.len() >= 16 {
        Some((spec_u128_from_le_bytes(s.subrange(0, 16)), 16int))
    } else {
        None
    }
}

/// Decode a boolean; only the two tag bytes are accepted.
pub open spec fn dec_bool(s: Seq<u8>) -> Option<(bool, int)> {
    if s.len() >= 1 && (s[0] == 0u8 || s[0] == 1u8) {
        Some((s[0] == 1u8, 1int))
    } else {
        None
    }
}

/// Decode a length-prefixed byte string.
pub open spec fn dec_bytes(s: Seq<u8>) -> Option<(Seq<u8>, int)> {
    match dec_u64(s) {
        None => None,
        Some((n, p)) => {
            if s.len() >= p + n {
                Some((s.subrange(p, p + n), p + n))
            } else {
                None
            }
        },
    }
}

/// Decode `n` consecutive `u64` items.
pub open spec fn dec_u64_items(s: Seq<u8>, n: nat) -> Option<(Seq<u64>, int)>
    decreases n,
{
    if n == 0 {
        Some((Seq::empty(), 0int))
    } else {
        match dec_u64(s) {
            None => None,
            Some((x, p)) => match dec_u64_items(s.skip(p), (n - 1) as nat) {
                None => None,
                Some((rest, q)) => Some((seq![x] + rest, p + q)),
            },
        }
    }
}

/// Decode a count-prefixed list of `u64`.
pub open spec fn dec_u64_list(s: Seq<u8>) -> Option<(Seq<u64>, int)> {
    match dec_u64(s) {
        None => None,
        Some((n, p)) => match dec_u64_items(s.skip(p), n as nat) {
            None => None,
            Some((items, q)) => Some((items, p + q)),
        },
    }
}

/// Decode an address: a subnet path, then a raw id.
pub open spec fn dec_addr(s: Seq<u8>) -> Option<(AddrView, int)> {
    match dec_u64_list(s) {
        None => None,
        Some((subnet, p)) => match dec_u64(s.skip(p)) {
            None => None,
            Some((raw, q)) => Some((AddrView { subnet, raw }, p + q)),
        },
    }
}

/// Decode a storable message: endpoints, method, params, value, nonce.
pub open spec fn dec_msg(s: Seq<u8>) -> Option<(MsgView, int)> {
    match dec_addr(s) {
        None => None,
        Some((from, p1)) => match dec_addr(s.skip(p1)) {
            None => None,
            Some((to, p2)) => match dec_u64(s.skip(p1 + p2)) {
                None => None,
                Some((method, p3)) => match dec_bytes(s.skip(p1 + p2 + p3)) {
                    None => None,
                    Some((params, p4)) => match dec_u128(s.skip(p1 + p2 + p3 + p4)) {
                        None => None,
                        Some((value, p5)) => match dec_u64(s.skip(p1 + p2 + p3 + p4 + p5)) {
                            None => None,
                            Some((nonce, p6)) => Some(
                                (
                                    MsgView { from, to, method, params, value, nonce },
                                    p1 + p2 + p3 + p4 + p5 + p6,
                                ),
                            ),
                        },
                    },
                },
            },
        },
    }
}

/// A `u64` decodes back from its encoding, whatever follows it.
pub proof fn lemma_dec_enc_u64(x: u64, rest: Seq<u8>)
    ensures
        dec_u64(enc_u64(x) + rest) == Some((x, 8int)),
        (enc_u64(x) + rest).skip(8) == rest,
{
    lemma_auto_spec_u64_to_from_le_bytes();
    let s = enc_u64(x) + rest;
    assert(s.subrange(0, 8) =~= enc_u64(x));
    assert(s.skip(8) =~= rest);
}

/// A `u128` decodes back from its encoding, whatever follows it.
pub proof fn lemma_dec_enc_u128(x: u128, rest: Seq<u8>)
    ensures
        dec_u128(enc_u128(x) + rest) == Some((x, 16int)),
        (enc_u128(x) + rest).skip(16) == rest,
{
    lemma_auto_spec_u128_to_from_le_bytes();
    let s = enc_u128(x) + rest;
    assert(s.subrange(0, 16) =~= enc_u128(x));
    assert(s.skip(16) =~= rest);
}

/// A boolean decodes back from its encoding, whatever follows it.
pub proof fn lemma_dec_enc_bool(b: bool, rest: Seq<u8>)
    ensures
        dec_bool(enc_bool(b) + rest) == Some((b, 1int)),
        (enc_bool(b) + rest).skip(1) == rest,
{
    let s = enc_bool(b) + rest;
    assert(s[0] == (if b { 1u8 } else { 0u8 }));
    assert(s.skip(1) =~= rest);
}

/// A byte string decodes back from its encoding, whatever follows it.
pub proof fn lemma_dec_enc_bytes(b: Seq<u8>, rest: Seq<u8>)
    requires
        b.len() <= u64::MAX,
    ensures
        dec_bytes(enc_bytes(b) + rest) == Some((b, enc_bytes(b).len() as int)),
        (enc_bytes(b) + rest).skip(enc_bytes(b).len() as int) == rest,
{
    lemma_auto_spec_u64_to_from_le_bytes();
    let s = enc_bytes(b) + rest;
    let n = b.len() as u64;
    assert(s.subrange(0, 8) =~= enc_u64(n));
    assert(dec_u64(s) == Some((n, 8int)));
    assert(s.subrange(8, 8 + n as int) =~= b);
    assert(s.skip(enc_bytes(b).len() as int) =~= rest);
}

/// A run of `u64` items decodes back from its encoding, whatever follows it.
pub proof fn lemma_dec_enc_u64_items(l: Seq<u64>, rest: Seq<u8>)
    ensures
        dec_u64_items(enc_u64_items(l) + rest, l.len()) == Some(
            (l, enc_u64_items(l).len() as int),
        ),
        (enc_u64_items(l) + rest).skip(enc_u64_items(l).len() as int) == rest,
        enc_u64_items(l).len() == 8 * l.len(),
    decreases l.len(),
{
    lemma_auto_spec_u64_to_from_le_bytes();
    if l.len() == 0 {
        assert(enc_u64_items(l) =~= Seq::<u8>::empty());
        assert((enc_u64_items(l) + rest).skip(0) =~= rest);
        assert(dec_u64_items(enc_u64_items(l) + rest, 0) == Some((Seq::<u64>::empty(), 0int)));
        assert(l =~= Seq::<u64>::empty());
    } else {
        let head = l[0];
        let tail = l.drop_first();
        lemma_enc_u64_items_first(l);
        let s = enc_u64_items(l) + rest;
        assert(s =~= enc_u64(head) + (enc_u64_items(tail) + rest));
        lemma_dec_enc_u64(head, enc_u64_items(tail) + rest);
        lemma_dec_enc_u64_items(tail, rest);
        assert(seq![head] + tail =~= l);
        assert(s.skip(enc_u64_items(l).len() as int) =~= rest);
    }
}

/// Encoding a list of `u64` items is the head's encoding, then the tail's.
proof fn lemma_enc_u64_items_first(l: Seq<u64>)
    requires
        l.len() > 0,
    ensures
        enc_u64_items(l) == enc_u64(l[0]) + enc_u64_items(l.drop_first()),
    decreases l.len(),
{
    if l.len() == 1 {
        assert(l.drop_last() =~= Seq::<u64>::empty());
        assert(l.drop_first() =~= Seq::<u64>::empty());
        assert(enc_u64_items(l) =~= enc_u64(l[0]) + enc_u64_items(l.drop_first()));
    } else {
        lemma_enc_u64_items_first(l.drop_last());
        assert(l.drop_last()[0] == l[0]);
        assert(l.drop_last().drop_first() =~= l.drop_first().drop_last());
        assert(l.drop_first().last() == l.last());
        assert(enc_u64_items(l) == enc_u64_items(l.drop_last()) + enc_u64(l.last()));
        assert(enc_u64(l[0]) + enc_u64_items(l.drop_first()) =~= enc_u64(l[0]) + (enc_u64_items(
            l.drop_first().drop_last(),
        ) + enc_u64(l.last())));
        assert(enc_u64_items(l) =~= enc_u64(l[0]) + enc_u64_items(l.drop_first()));
    }
}

/// A list of `u64` decodes back from its encoding, whatever follows it.
pub proof fn lemma_dec_enc_u64_list(l: Seq<u64>, rest: Seq<u8>)
    requires
        l.len() <= u64::MAX,
    ensures
        dec_u64_list(enc_u64_list(l) + rest) == Some((l, enc_u64_list(l).len() as int)),
        (enc_u64_list(l) + rest).skip(enc_u64_list(l).len() as int) == rest,
{
    lemma_auto_spec_u64_to_from_le_bytes();
    let s = enc_u64_list(l) + rest;
    assert(s =~= enc_u64(l.len() as u64) + (enc_u64_items(l) + rest));
    lemma_dec_enc_u64(l.len() as u64, enc_u64_items(l) + rest);
    lemma_dec_enc_u64_items(l, rest);
    assert(s.skip(enc_u64_list(l).len() as int) =~= rest);
}

/// An address decodes back from its encoding, whatever follows it.
pub proof fn lemma_dec_enc_addr(a: AddrView, rest: Seq<u8>)
    requires
        a.subnet.len() <= u64::MAX,
    ensures
        dec_addr(enc_addr(a) + rest) == Some((a, enc_addr(a).len() as int)),
        (enc_addr(a) + rest).skip(enc_addr(a).len() as int) == rest,
{
    let s = enc_addr(a) + rest;
    assert(s =~= enc_subnet(a.subnet) + (enc_u64(a.raw) + rest));
    lemma_dec_enc_u64_list(a.subnet, enc_u64(a.raw) + rest);
    lemma_dec_enc_u64(a.raw, rest);
    assert(s.skip(enc_addr(a).len() as int) =~= rest);
}

/// A storable message decodes back from its encoding, whatever follows it.
#[verifier::rlimit(50)]
pub proof fn lemma_dec_enc_msg(m: MsgView, rest: Seq<u8>)
    requires
        m.from.subnet.len() <= u64::MAX,
        m.to.subnet.len() <= u64::MAX,
        m.params.len() <= u64::MAX,
    ensures
        dec_msg(enc_msg(m) + rest) == Some((m, enc_msg(m).len() as int)),
        (enc_msg(m) + rest).skip(enc_msg(m).len() as int) == rest,
{
    let s = enc_msg(m) + rest;
    let l1 = enc_addr(m.from).len() as int;
    let l2 = enc_addr(m.to).len() as int;
    let l3 = enc_u64(m.method).len() as int;
    let l4 = enc_bytes(m.params).len() as int;
    let l5 = enc_u128(m.value).len() as int;
    let r1 = enc_addr(m.to) + (enc_u64(m.method) + (enc_bytes(m.params) + (enc_u128(m.value)
        + (enc_u64(m.nonce) + rest))));
    assert(s =~= enc_addr(m.from) + r1);
    lemma_dec_enc_addr(m.from, r1);
    assert(s.skip(l1) == r1);
    let r2 = enc_u64(m.method) + (enc_bytes(m.params) + (enc_u128(m.value) + (enc_u64(m.nonce)
        + rest)));
    lemma_dec_enc_addr(m.to, r2);
    assert(s.skip(l1 + l2) =~= s.skip(l1).skip(l2));
    assert(s.skip(l1 + l2) == r2);
    let r3 = enc_bytes(m.params) + (enc_u128(m.value) + (enc_u64(m.nonce) + rest));
    lemma_dec_enc_u64(m.method, r3);
    assert(s.skip(l1 + l2 + l3) =~= s.skip(l1 + l2).skip(l3));
    assert(s.skip(l1 + l2 + l3) == r3);
    let r4 = enc_u128(m.value) + (enc_u64(m.nonce) + rest);
    lemma_dec_enc_bytes(m.params, r4);
    assert(s.skip(l1 + l2 + l3 + l4) =~= s.skip(l1 + l2 + l3).skip(l4));
    assert(s.skip(l1 + l2 + l3 + l4) == r4);
    let r5 = enc_u64(m.nonce) + rest;
    lemma_dec_enc_u128(m.value, r5);
    assert(s.skip(l1 + l2 + l3 + l4 + l5) =~= s.skip(l1 + l2 + l3 + l4).skip(l5));
    assert(s.skip(l1 + l2 + l3 + l4 + l5) == r5);
    lemma_dec_enc_u64(m.nonce, rest);
    assert(s.skip(enc_msg(m).len() as int) =~= rest);
}

/// Whatever `dec_u64` accepts re-encodes to the bytes it read.
pub proof fn lemma_enc_dec_u64(s: Seq<u8>)
    requires
        dec_u64(s) is Some,
    ensures
        enc_u64(dec_u64(s)->Some_0.0) == s.subrange(0, 8),
{
    lemma_auto_spec_u64_to_from_le_bytes();
    assert(s.subrange(0, 8).len() == 8);
}

/// Whatever `dec_u64_items` accepts re-encodes to the bytes it read.
#[verifier::rlimit(50)]
pub proof fn lemma_enc_dec_u64_items(s: Seq<u8>, n: nat)
    requires
        dec_u64_items(s, n) is Some,
    ensures
        ({
            let (items, q) = dec_u64_items(s, n)->Some_0;
            &&& items.len() == n
            &&& 0 <= q <= s.len()
            &&& enc_u64_items(items) == s.subrange(0, q)
        }),
    decreases n,
{
    if n == 0 {
        let (items, q) = dec_u64_items(s, n)->Some_0;
        assert(enc_u64_items(items) =~= s.subrange(0, 0));
    } else {
        let (x, p) = dec_u64(s)->Some_0;
        lemma_enc_dec_u64(s);
        lemma_enc_dec_u64_items(s.skip(8), (n - 1) as nat);
        let (rest, q) = dec_u64_items(s.skip(8), (n - 1) as nat)->Some_0;
        let items = seq![x] + rest;
        lemma_enc_u64_items_first(items);
        assert(items.drop_first() =~= rest);
        assert(enc_u64_items(items) == enc_u64(x) + enc_u64_items(rest));
        assert(s.skip(8).subrange(0, q) =~= s.subrange(8, 8 + q));
        assert(enc_u64(x) + enc_u64_items(rest) =~= s.subrange(0, 8 + q));
    }
}

/// Whatever `dec_u64_list` accepts re-encodes to the bytes it read.
pub proof fn lemma_enc_dec_u64_list(s: Seq<u8>)
    requires
        dec_u64_list(s) is Some,
    ensures
        ({
            let (items, q) = dec_u64_list(s)->Some_0;
            &&& 0 <= q <= s.len()
            &&& enc_u64_list(items) == s.subrange(0, q)
        }),
{
    let (n, p) = dec_u64(s)->Some_0;
    lemma_enc_dec_u64(s);
    lemma_enc_dec_u64_items(s.skip(8), n as nat);
    let (items, q) = dec_u64_items(s.skip(8), n as nat)->Some_0;
    assert(items.len() == n);
    assert(s.skip(8).subrange(0, q) =~= s.subrange(8, 8 + q));
    assert(enc_u64_list(items) =~= s.subrange(0, 8 + q));
}

/// Re-encoding what was decoded gives back exactly the bytes that were read:
/// an address record read from its persisted form writes back byte for byte.
pub proof fn lemma_address_round_trip(s: Seq<u8>)
    requires
        dec_addr(s) is Some,
    ensures
        ({
            let (a, q) = dec_addr(s)->Some_0;
            &&& 0 <= q <= s.len()
            &&& enc_addr(a) == s.subrange(0, q)
        }),
{
    let (subnet, p) = dec_u64_list(s)->Some_0;
    lemma_enc_dec_u64_list(s);
    let (raw, q2) = dec_u64(s.skip(p))->Some_0;
    lemma_enc_dec_u64(s.skip(p));
    assert(s.skip(p).subrange(0, 8) =~= s.subrange(p, p + 8));
    let a = dec_addr(s)->Some_0.0;
    assert(enc_addr(a) =~= s.subrange(0, p + 8));
}

/// Decode a cross-message: a message, then its wrapped flag.
pub open spec fn dec_cross_msg(s: Seq<u8>) -> Option<(crate::cross::CrossMsgView, int)> {
    match dec_msg(s) {
        None => None,
        Some((m, p)) => match dec_bool(s.skip(p)) {
            None => None,
            Some((wrapped, q)) => Some(
                (crate::cross::CrossMsgView { msg: m, wrapped }, p + q),
            ),
        },
    }
}

/// A cross-message decodes back from its encoding, whatever follows it.
pub proof fn lemma_dec_enc_cross_msg(c: crate::cross::CrossMsgView, rest: Seq<u8>)
    requires
        c.msg.from.subnet.len() <= u64::MAX,
        c.msg.to.subnet.len() <= u64::MAX,
        c.msg.params.len() <= u64::MAX,
    ensures
        dec_cross_msg(crate::codec::enc_cross_msg(c) + rest) == Some(
            (c, crate::codec::enc_cross_msg(c).len() as int),
        ),
{
    let s = crate::codec::enc_cross_msg(c) + rest;
    assert(s =~= enc_msg(c.msg) + (enc_bool(c.wrapped) + rest));
    lemma_dec_enc_msg(c.msg, enc_bool(c.wrapped) + rest);
    lemma_dec_enc_bool(c.wrapped, rest);
}

impl IPCAddress {
    /// The canonical bytes of this address.
    pub fn to_bytes(&self) -> (r: Result<Vec<u8>, Error>)
        ensures
            r matches Ok(b) && b@ == enc_addr(self@),
    {
        let mut out: Vec<u8> = Vec::new();
        write_addr(&mut out, self);
        proof {
            assert(out@ =~= enc_addr(self@));
        }
        Ok(out)
    }

    /// Decode an address from its canonical bytes; anything else is refused.
    pub fn from_bytes(bz: &Vec<u8>) -> (r: Result<Self, Error>)
        ensures
            match dec_addr(bz@) {
                Some(p) => r matches Ok(a) && a@ == p.0,
                None => r matches Err(e) && e is SerializationError,
            },
    {
        proof {
            assert(bz@.skip(0) =~= bz@);
        }
        let (route, pos) = match read_u64_list(bz, 0) {
            Some(p) => p,
            None => {
                return Err(Error::SerializationError("malformed address bytes"));
            },
        };
        let (raw, _pos2) = match read_u64(bz, pos) {
            Some(p) => p,
            None => {
                return Err(Error::SerializationError("malformed address bytes"));
            },
        };
        let id = SubnetID::from_route(route);
        match IPCAddress::new(&id, raw) {
            Ok(a) => Ok(a),
            Err(e) => Err(e),
        }
    }
}

/// Read a `u64` at `pos`, returning it with the position after it.
fn read_u64(b: &Vec<u8>, pos: usize) -> (r: Option<(u64, usize)>)
    ensures
        match dec_u64(b@.skip(pos as int)) {
            Some(p) => pos <= b@.len() ==> (r matches Some(q) && q.0 == p.0 && q.1 == pos + 8),
            None => r is None,
        },
        r matches Some(q) ==> pos + 8 <= b@.len() && q.1 == pos + 8 && dec_u64(
            b@.skip(pos as int),
        ) == Some((q.0, 8int)),
{
    if pos > b.len() || b.len() - pos < 8 {
        proof {
            if pos <= b@.len() {
                assert(b@.skip(pos as int).len() < 8);
            }
        }
        return None;
    }
    let sl = vstd::slice::slice_subrange(b.as_slice(), pos, pos + 8);
    let x = u64_from_le_bytes(sl);
    proof {
        assert(sl@ =~= b@.skip(pos as int).subrange(0, 8));
    }
    Some((x, pos + 8))
}

/// Read a count-prefixed list of `u64` at `start`.
fn read_u64_list(b: &Vec<u8>, start: usize) -> (r: Option<(Vec<u64>, usize)>)
    ensures
        r matches Some(q) ==> start <= b@.len() && dec_u64_list(b@.skip(start as int)) == Some(
            (q.0@, q.1 - start as int),
        ) && q.1 <= b@.len(),
        r is None ==> (start <= b@.len() ==> dec_u64_list(b@.skip(start as int)) is None),
{
    let ghost pos_arg = start as int;
    let (n, mut pos) = match read_u64(b, start) {
        Some(p) => p,
        None => {
            return None;
        },
    };
    let ghost pos0 = pos as int;
    proof {
        assert(b@.skip(pos_arg).skip(8) =~= b@.skip(pos0));
    }
    let mut items: Vec<u64> = Vec::new();
    let mut i: u64 = 0;
    while i < n
        invariant
            i <= n,
            items@.len() == i,
            pos_arg == start as int,
            pos_arg + 8 == pos0,
            pos0 <= pos <= b@.len(),
            dec_u64(b@.skip(pos_arg)) == Some((n, 8int)),
            b@.skip(pos_arg).skip(8) == b@.skip(pos0),
            dec_u64_items(b@.skip(pos0), n as nat) == match dec_u64_items(
                b@.skip(pos as int),
                (n - i) as nat,
            ) {
                None => None::<(Seq<u64>, int)>,
                Some((rest, q)) => Some((items@ + rest, (pos - pos0) + q)),
            },
        decreases n - i,
    {
        let (x, pos2) = match read_u64(b, pos) {
            Some(p) => p,
            None => {
                proof {
                    assert(dec_u64_items(b@.skip(pos as int), (n - i) as nat) is None);
                    assert(dec_u64_items(b@.skip(pos0), n as nat) is None);
                    assert(b@.skip(pos_arg).skip(8) =~= b@.skip(pos0));
                }
                return None;
            },
        };
        proof {
            let cur = b@.skip(pos as int);
            assert(cur.skip(8) =~= b@.skip(pos2 as int));
            assert(dec_u64(cur) == Some((x, 8int)));
            assert(dec_u64_items(cur, (n - i) as nat) == match dec_u64_items(
                b@.skip(pos2 as int),
                (n - i - 1) as nat,
            ) {
                None => None::<(Seq<u64>, int)>,
                Some((rest, q)) => Some((seq![x] + rest, 8 + q)),
            });
        }
        items.push(x);
        let ghost items_old = items@.drop_last();
        proof {
            assert(items_old.push(x) =~= items@);
            assert forall|rest: Seq<u64>| true implies (items_old + (seq![x] + rest)) =~= (items@
                + rest) by {
            }
        }
        pos = pos2;
        i = i + 1;
    }
    proof {
        assert(dec_u64_items(b@.skip(pos as int), 0nat) == Some((Seq::<u64>::empty(), 0int)));
        assert(items@ + Seq::<u64>::empty() =~= items@);
        assert(dec_u64_items(b@.skip(pos0), n as nat) == Some((items@, pos - pos0)));
        assert(b@.skip(pos_arg).skip(8) =~= b@.skip(pos0));
    }
    Some((items, pos))
}

/// A list decodes as its count, then that many items.
proof fn lemma_dec_list_shape(s: Seq<u8>)
    ensures
        dec_u64_list(s) == (match dec_u64(s) {
            None => None::<(Seq<u64>, int)>,
            Some((n, p)) => match dec_u64_items(s.skip(p), n as nat) {
                None => None,
                Some((items, q)) => Some((items, p + q)),
            },
        }),
{
}

} // verus!

use ipc_gateway::DEFAULT_CHECKPOINT_PERIOD;
use ipc_gateway::address::IPCAddress;
use ipc_gateway::checkpoint::{Checkpoint, checkpoint_epoch, window_epoch};
use ipc_gateway::cross::is_bottomup;
use ipc_gateway::subnet_id::SubnetID;

fn path(ids: &[u64]) -> SubnetID {
    let mut s = SubnetID::rootnet();
    for id in ids {
        s = SubnetID::new_from_parent(&s, *id);
    }
    s
}

fn bottom_up(a: &SubnetID, b: &SubnetID, res: bool) {
    assert_eq!(is_bottomup(a, b), res);
}

#[test]
fn test_is_bottomup() {
    bottom_up(&path(&[1]), &path(&[1, 2]), false);
    bottom_up(&path(&[1]), &path(&[]), true);
    bottom_up(&path(&[1]), &path(&[1, 2]), false);
    bottom_up(&path(&[1]), &path(&[2, 2]), true);
    bottom_up(&path(&[1, 2]), &path(&[1, 2]), false);
    bottom_up(&path(&[1, 2]), &path(&[1, 2, 3]), false);
}

#[test]
fn subnet_id_tree_walk() {
    let root = SubnetID::rootnet();
    let a = SubnetID::new_from_parent(&root, 1);
    let ab = SubnetID::new_from_parent(&a, 2);
    let ac = SubnetID::new_from_parent(&a, 3);

    assert_eq!(a.parent(), Some(root.clone()));
    assert_eq!(root.parent(), None);
    assert_eq!(ab.parent(), Some(a.clone()));
    assert_eq!(a.subnet_actor(), 1);
    assert_eq!(ab.subnet_actor(), 2);

    // down: the next hop from an ancestor toward a descendant
    assert_eq!(ab.down(&root), Some(a.clone()));
    assert_eq!(ab.down(&a), Some(ab.clone()));
    assert_eq!(ab.down(&ab), None);
    assert_eq!(a.down(&ab), None);
    assert_eq!(ac.down(&ab), None);

    // common parent: the longest shared prefix
    let (l, p) = ab.common_parent(&ac).unwrap();
    assert_eq!(l, 2);
    assert_eq!(p, a);
    let (l, p) = ab.common_parent(&root).unwrap();
    assert_eq!(l, 1);
    assert_eq!(p, root);
    assert!(ab.common_parent(&SubnetID::default()).is_none());
}

#[test]
fn ipc_address_holds_its_parts() {
    let sub = path(&[100]);
    let addr = IPCAddress::new(&sub, 101).unwrap();
    assert_eq!(addr.subnet().unwrap(), sub);
    assert_eq!(addr.raw_addr().unwrap(), 101);
    let again = IPCAddress::new(&sub, 101).unwrap();
    assert_eq!(addr, again);
    let other = IPCAddress::new(&sub, 102).unwrap();
    assert_ne!(addr, other);
}

#[test]
fn window_and_checkpoint_epochs() {
    // the checkpoint epoch is the last multiple of the period not above
    assert_eq!(checkpoint_epoch(0, 10), 0);
    assert_eq!(checkpoint_epoch(9, 10), 0);
    assert_eq!(checkpoint_epoch(10, 10), 10);
    assert_eq!(checkpoint_epoch(11, 10), 10);

    // the window epoch is the first multiple of the period strictly after
    assert_eq!(window_epoch(0, 10), 10);
    assert_eq!(window_epoch(9, 10), 10);
    assert_eq!(window_epoch(10, 10), 20);
    assert_eq!(window_epoch(11, 10), 20);
    assert_eq!(window_epoch(10, DEFAULT_CHECKPOINT_PERIOD), DEFAULT_CHECKPOINT_PERIOD);
}

#[test]
fn checkpoint_cid_ignores_signature() {
    let sub = path(&[1]);
    let mut a = Checkpoint::new(sub.clone(), 10);
    let b = Checkpoint::new(sub.clone(), 10);
    assert_eq!(a.cid(), b.cid());

    // the signature never affects the content id
    a.set_signature(vec![1, 2, 3]);
    assert_eq!(a.cid(), b.cid());
    assert_eq!(a.signature(), &vec![1u8, 2, 3]);

    // the data fields do
    let c = Checkpoint::new(sub, 11);
    assert_ne!(a.cid(), c.cid());

    // a content id is tagged: version, codec, then the multihash
    let cid = b.cid();
    assert_eq!(cid.len(), 38);
    assert_eq!(&cid[0..6], &[0x01, 0x71, 0xa0, 0xe4, 0x02, 0x20]);
}

#[test]
fn test_ipc_serialization() {
    let sub_id = SubnetID::new_from_parent(&SubnetID::rootnet(), 100);
    let addr = IPCAddress::new(&sub_id, 101).unwrap();
    let st = addr.to_bytes().unwrap();
    let addr_out = IPCAddress::from_bytes(&st).unwrap();
    assert_eq!(addr, addr_out);

    // decoding refuses truncated bytes
    let cut = st[..st.len() - 1].to_vec();
    assert!(IPCAddress::from_bytes(&cut).is_err());
}

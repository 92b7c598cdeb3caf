//! Subnet identifiers. A subnet is addressed by the path of actor ids from
//! the root network down to it; the root network itself is the one-element
//! path holding `ROOT_NET_ID`. An empty path is the undefined subnet id.
use vstd::prelude::*;
use vstd::std_specs::cmp::PartialEqSpec;

verus! {

/// The id standing for the root network in a subnet path.
pub const ROOT_NET_ID: u64 = 0;

/// An ordered path of actor ids from the root network to a subnet.
#[derive(Debug)]
pub struct SubnetID {
    path: Vec<u64>,
}

/// Does `a` stand at the start of `b`?
pub open spec fn is_prefix(a: Seq<u64>, b: Seq<u64>) -> bool {
    a.len() <= b.len() && a == b.subrange(0, a.len() as int)
}

/// Length of the longest common prefix of `a` and `b`.
pub open spec fn common_prefix_len(a: Seq<u64>, b: Seq<u64>) -> nat
    decreases a.len(),
{
    if a.len() == 0 || b.len() == 0 || a[0] != b[0] {
        0
    } else {
        1 + common_prefix_len(a.drop_first(), b.drop_first())
    }
}

/// `common_prefix_len` is exactly the first point of disagreement.
pub proof fn lemma_common_prefix_len_character(a: Seq<u64>, b: Seq<u64>, n: nat)
    requires
        n <= a.len(),
        n <= b.len(),
        forall|j: int| 0 <= j < n ==> a[j] == b[j],
        n == a.len() || n == b.len() || a[n as int] != b[n as int],
    ensures
        common_prefix_len(a, b) == n,
    decreases n,
{
    if n == 0 {
    } else {
        assert(a[0] == b[0]);
        let a1 = a.drop_first();
        let b1 = b.drop_first();
        assert(forall|j: int| 0 <= j < n - 1 ==> a1[j] == b1[j]);
        lemma_common_prefix_len_character(a1, b1, (n - 1) as nat);
    }
}

/// The longest common prefix does not depend on the order of its arguments.
pub proof fn lemma_common_prefix_len_symmetric(a: Seq<u64>, b: Seq<u64>)
    ensures
        common_prefix_len(a, b) == common_prefix_len(b, a),
    decreases a.len(),
{
    if a.len() == 0 || b.len() == 0 || a[0] != b[0] {
    } else {
        lemma_common_prefix_len_symmetric(a.drop_first(), b.drop_first());
    }
}

impl View for SubnetID {
    type V = Seq<u64>;

    closed spec fn view(&self) -> Seq<u64> {
        self.path@
    }
}

impl SubnetID {
    /// A subnet id is defined when it names at least the root network.
    pub open spec fn is_defined(&self) -> bool {
        self@.len() > 0
    }

    /// The id of the root network.
    pub fn rootnet() -> (r: SubnetID)
        ensures
            r@ == seq![ROOT_NET_ID],
    {
        let mut path: Vec<u64> = Vec::new();
        path.push(ROOT_NET_ID);
        proof {
            assert(path@ =~= seq![ROOT_NET_ID]);
        }
        SubnetID { path }
    }

    /// The id of the child of `parent` whose subnet actor is `actor`.
    pub fn new_from_parent(parent: &SubnetID, actor: u64) -> (r: SubnetID)
        ensures
            r@ == parent@.push(actor),
    {
        let mut path = parent.path.clone();
        path.push(actor);
        proof {
            assert(path@ =~= parent@.push(actor));
        }
        SubnetID { path }
    }

    /// The path of actor ids this subnet id is made of.
    pub fn route(&self) -> (r: &Vec<u64>)
        ensures
            r@ == self@,
    {
        &self.path
    }

    /// A subnet id from the full path of ids, root network first.
    pub fn from_route(path: Vec<u64>) -> (r: SubnetID)
        ensures
            r@ == path@,
    {
        SubnetID { path }
    }

    /// The number of path elements in this subnet id.
    pub fn len(&self) -> (r: usize)
        ensures
            r == self@.len(),
    {
        self.path.len()
    }

    /// The actor that governs this subnet in its parent: the last path element.
    pub fn subnet_actor(&self) -> (r: u64)
        requires
            self.is_defined(),
        ensures
            r == self@.last(),
    {
        self.path[self.path.len() - 1]
    }

    /// The parent of this subnet; the root network and the undefined id have none.
    pub fn parent(&self) -> (r: Option<SubnetID>)
        ensures
            self@.len() <= 1 ==> r is None,
            self@.len() > 1 ==> (r matches Some(p) && p@ == self@.drop_last()),
    {
        if self.path.len() <= 1 {
            None
        } else {
            let mut path: Vec<u64> = Vec::new();
            let n = self.path.len() - 1;
            let mut i: usize = 0;
            while i < n
                invariant
                    i <= n,
                    n == self@.len() - 1,
                    n < self.path.len(),
                    path@ == self@.subrange(0, i as int),
                decreases n - i,
            {
                path.push(self.path[i]);
                i = i + 1;
                proof {
                    assert(path@ =~= self@.subrange(0, i as int));
                }
            }
            proof {
                assert(self@.subrange(0, n as int) =~= self@.drop_last());
            }
            Some(SubnetID { path })
        }
    }

    /// The next hop from `from` toward this subnet: the child of `from` on the
    /// path down to `self`. None unless `from` lies strictly above `self`.
    pub fn down(&self, from: &SubnetID) -> (r: Option<SubnetID>)
        ensures
            r matches Some(d) <==> from@.len() < self@.len() && is_prefix(from@, self@),
            r matches Some(d) ==> d@ == self@.subrange(0, from@.len() as int + 1),
    {
        if from.path.len() >= self.path.len() {
            return None;
        }
        let n = from.path.len();
        let mut i: usize = 0;
        while i < n
            invariant
                i <= n,
                n == from@.len(),
                n < self@.len(),
                forall|j: int| 0 <= j < i ==> from@[j] == self@[j],
            decreases n - i,
        {
            if self.path[i] != from.path[i] {
                proof {
                    assert(from@[i as int] != self@.subrange(0, n as int)[i as int]);
                }
                return None;
            }
            i = i + 1;
        }
        proof {
            assert(from@ =~= self@.subrange(0, n as int));
        }
        let mut path: Vec<u64> = Vec::new();
        let mut i: usize = 0;
        while i <= n
            invariant
                i <= n + 1,
                n < self.path.len(),
                path@ == self@.subrange(0, i as int),
            decreases n + 1 - i,
        {
            path.push(self.path[i]);
            i = i + 1;
            proof {
                assert(path@ =~= self@.subrange(0, i as int));
            }
        }
        Some(SubnetID { path })
    }

    /// The longest shared prefix of the two subnet paths, with its length.
    /// None when the two ids share nothing, as with an undefined id.
    pub fn common_parent(&self, other: &SubnetID) -> (r: Option<(usize, SubnetID)>)
        ensures
            r matches Some(p) <==> common_prefix_len(self@, other@) > 0,
            r matches Some(p) ==> {
                &&& p.0 == common_prefix_len(self@, other@)
                &&& p.1@ == self@.subrange(0, p.0 as int)
            },
    {
        let min = if self.path.len() < other.path.len() {
            self.path.len()
        } else {
            other.path.len()
        };
        let mut i: usize = 0;
        while i < min && self.path[i] == other.path[i]
            invariant
                i <= min,
                min <= self@.len(),
                min <= other@.len(),
                min == self@.len() || min == other@.len(),
                forall|j: int| 0 <= j < i ==> self@[j] == other@[j],
            decreases min - i,
        {
            i = i + 1;
        }
        proof {
            lemma_common_prefix_len_character(self@, other@, i as nat);
        }
        if i == 0 {
            None
        } else {
            let mut path: Vec<u64> = Vec::new();
            let mut j: usize = 0;
            while j < i
                invariant
                    j <= i,
                    i <= self@.len(),
                    path@ == self@.subrange(0, j as int),
                decreases i - j,
            {
                path.push(self.path[j]);
                j = j + 1;
                proof {
                    assert(path@ =~= self@.subrange(0, j as int));
                }
            }
            Some((i, SubnetID { path }))
        }
    }
}

impl Clone for SubnetID {
    fn clone(&self) -> (r: Self)
        ensures
            r@ == self@,
    {
        let path = self.path.clone();
        proof {
            assert(path@ =~= self.path@);
        }
        SubnetID { path }
    }
}

impl PartialEq for SubnetID {
    fn eq(&self, other: &SubnetID) -> (r: bool)
    {
        let r = self.path == other.path;
        proof {
            if r {
                assert(self.path@ =~= other.path@);
            } else {
                assert(self.path@ != other.path@);
            }
        }
        r
    }
}

impl vstd::std_specs::cmp::PartialEqSpecImpl for SubnetID {
    open spec fn obeys_eq_spec() -> bool {
        true
    }

    open spec fn eq_spec(&self, other: &SubnetID) -> bool {
        self@ == other@
    }
}

impl Default for SubnetID {
    /// The undefined subnet id: an empty path.
    fn default() -> (r: SubnetID)
        ensures
            r@ == Seq::<u64>::empty(),
            !r.is_defined(),
    {
        let path: Vec<u64> = Vec::new();
        proof {
            assert(path@ =~= Seq::<u64>::empty());
        }
        SubnetID { path }
    }
}

} // verus!

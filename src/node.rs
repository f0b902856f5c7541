use crate::channel::InChannels;
use crate::content::Content;
use std::sync::Arc;
use vstd::prelude::*;

verus! {

/// The identifier of a node. Identifiers come from one counter for the
/// whole process, so no two nodes share one.
#[derive(Debug, Hash, PartialEq, Eq, Clone, Copy, Structural)]
pub struct NodeId(pub(crate) usize);

/// The name a user gives to a node.
pub type NodeName = String;

impl NodeId {
    /// The number behind this identifier.
    pub closed spec fn index(self) -> nat {
        self.0 as nat
    }

    /// The identifier with the number `n`, as the process-wide counter
    /// hands it out.
    pub fn from_index(n: usize) -> (r: NodeId)
        ensures
            r.index() == n,
    {
        NodeId(n)
    }
}

/// A mapping from node names to identifiers. The identifiers are
/// allocated outside the table, by the process-wide counter, and bound to
/// names here.
pub struct NodeTable {
    entries: Vec<(NodeName, NodeId)>,
    mapping: Ghost<Map<Seq<char>, NodeId>>,
}

impl Default for NodeTable {
    fn default() -> (r: NodeTable)
        ensures
            r@ == Map::<Seq<char>, NodeId>::empty(),
    {
        NodeTable::new()
    }
}

impl View for NodeTable {
    type V = Map<Seq<char>, NodeId>;

    closed spec fn view(&self) -> Map<Seq<char>, NodeId> {
        self.mapping@
    }
}

/// Whether some entry of `s` has the name `k`.
spec fn lists_name(s: Seq<(NodeName, NodeId)>, k: Seq<char>) -> bool {
    exists|i: int| 0 <= i < s.len() && #[trigger] s[i].0@ == k
}

impl NodeTable {
    /// Names are unique among the entries, and the entries are exactly the
    /// view.
    #[verifier::type_invariant]
    spec fn wf(self) -> bool {
        let s = self.entries@;
        let m = self.mapping@;
        &&& forall|i: int, j: int|
            0 <= i < s.len() && 0 <= j < s.len() && i != j ==> #[trigger] s[i].0@ != #[trigger] s[j].0@
        &&& forall|i: int|
            0 <= i < s.len() ==> #[trigger] m.contains_key(s[i].0@) && m[s[i].0@] == s[i].1
        &&& forall|k: Seq<char>| #[trigger] m.contains_key(k) ==> lists_name(s, k)
    }

    /// An empty table.
    pub fn new() -> (r: NodeTable)
        ensures
            r@ == Map::<Seq<char>, NodeId>::empty(),
    {
        NodeTable { entries: Vec::new(), mapping: Ghost(Map::empty()) }
    }

    /// Finds the position of `name` among the entries.
    fn position(&self, name: &String) -> (r: Option<usize>)
        requires
            self.wf(),
        ensures
            match r {
                Some(i) => i < self.entries@.len() && self.entries@[i as int].0@ == name@,
                None => !self@.contains_key(name@),
            },
    {
        let mut i: usize = 0;
        while i < self.entries.len()
            invariant
                self.wf(),
                i <= self.entries@.len(),
                forall|j: int| 0 <= j < i ==> self.entries@[j].0@ != name@,
            decreases self.entries@.len() - i,
        {
            if self.entries[i].0 == *name {
                return Some(i);
            }
            i = i + 1;
        }
        None
    }

    /// Binds `name` to `id`, the identifier just allocated for a node of
    /// that name. A name that was bound already is rebound: the identifier
    /// it led to is given back, and stays valid but can no longer be found
    /// by name.
    pub fn alloc_id_for(&mut self, name: &str, id: NodeId) -> (previous: Option<NodeId>)
        ensures
            final(self)@ == old(self)@.insert(name@, id),
            previous == if old(self)@.contains_key(name@) {
                Some(old(self)@[name@])
            } else {
                None::<NodeId>
            },
    {
        proof {
            use_type_invariant(&*self);
        }
        let key: String = name.to_owned();
        let pos = self.position(&key);
        let mut taken = NodeTable::new();
        std::mem::swap(self, &mut taken);
        let mut entries = taken.entries;
        let ghost s0 = entries@;
        let ghost m0 = taken.mapping@;
        let ghost m1 = m0.insert(name@, id);
        let previous = match pos {
            Some(i) => Some(entries[i].1),
            None => None,
        };
        match pos {
            Some(i) => {
                entries.set(i, (key, id));
                proof {
                    let s = entries@;
                    assert forall|k: Seq<char>| #[trigger] m1.contains_key(k) implies lists_name(s, k) by {
                        if k != name@ {
                            let j = choose|j: int| 0 <= j < s0.len() && #[trigger] s0[j].0@ == k;
                            assert(s[j].0@ == k);
                        } else {
                            assert(s[i as int].0@ == k);
                        }
                    }
                    assert forall|j: int| 0 <= j < s.len() implies #[trigger] m1.contains_key(s[j].0@)
                        && m1[s[j].0@] == s[j].1 by {
                        if j != i {
                            assert(s0[j].0@ != s0[i as int].0@);
                        }
                    }
                }
            },
            None => {
                entries.push((key, id));
                proof {
                    let s = entries@;
                    assert forall|k: Seq<char>| #[trigger] m1.contains_key(k) implies lists_name(s, k) by {
                        if k != name@ {
                            let j = choose|j: int| 0 <= j < s0.len() && #[trigger] s0[j].0@ == k;
                            assert(s[j].0@ == k);
                        } else {
                            assert(s[s0.len() as int].0@ == k);
                        }
                    }
                    assert forall|j: int| 0 <= j < s.len() implies #[trigger] m1.contains_key(s[j].0@)
                        && m1[s[j].0@] == s[j].1 by {
                        if j < s0.len() {
                            assert(s[j] == s0[j]);
                        }
                    }
                }
            },
        }
        proof {
            let s = entries@;
            assert forall|a: int, b: int|
                0 <= a < s.len() && 0 <= b < s.len() && a != b implies #[trigger] s[a].0@ != #[trigger] s[b].0@ by {
                if a < s0.len() && b < s0.len() {
                    assert(s0[a].0@ != s0[b].0@);
                } else if a < s0.len() {
                    assert(m0.contains_key(s0[a].0@));
                } else if b < s0.len() {
                    assert(m0.contains_key(s0[b].0@));
                }
            }
        }
        *self = NodeTable { entries, mapping: Ghost(m1) };
        previous
    }

    /// The identifier bound to `name`, if any.
    pub fn get(&self, name: &str) -> (r: Option<&NodeId>)
        ensures
            r == (if self@.contains_key(name@) { Some(&self@[name@]) } else { None::<&NodeId> }),
    {
        proof {
            use_type_invariant(self);
        }
        let key: String = name.to_owned();
        match self.position(&key) {
            Some(i) => Some(&self.entries[i].1),
            None => None,
        }
    }
}

/// Registering two nodes under the same name, each with a fresh identifier
/// (`first` bound to no name before, `second` another one): afterwards the
/// name leads only to the second identifier, and no name leads to the
/// first, which remains a valid identifier of its own.
pub proof fn lemma_rebinding_shadows(
    t0: NodeTable,
    t1: NodeTable,
    t2: NodeTable,
    name: Seq<char>,
    first: NodeId,
    second: NodeId,
)
    requires
        forall|k: Seq<char>| #[trigger] t0@.contains_key(k) ==> t0@[k] != first,
        first != second,
        t1@ == t0@.insert(name, first),
        t2@ == t1@.insert(name, second),
    ensures
        t2@.contains_key(name),
        t2@[name] == second,
        forall|k: Seq<char>| #[trigger] t2@.contains_key(k) ==> t2@[k] != first,
{
    assert forall|k: Seq<char>| #[trigger] t2@.contains_key(k) implies t2@[k] != first by {
        if k != name {
            assert(t0@.contains_key(k));
        }
    }
}

/// A unit of work that the scheduler runs: it has an identifier bound to
/// its name in a [`NodeTable`], a name, and the input channels through which other
/// nodes reach it.
pub trait Node: Send + Sync {
    /// The identifier of this node.
    fn id(&self) -> NodeId;

    /// The name of this node.
    fn name(&self) -> NodeName;

    /// The input channels of this node.
    fn input_channels(&mut self) -> &mut InChannels;

    /// Runs this node once in the shared environment, giving its output,
    /// if any.
    fn run(&mut self, env: Arc<EnvVar>) -> Option<Content>;
}

/// The run-time environment that nodes share while a graph runs, through
/// which a node finds the identifiers of others by name.
pub struct EnvVar {
    node_table: NodeTable,
}

impl EnvVar {
    /// An environment that resolves names through `node_table`.
    pub fn new(node_table: NodeTable) -> (r: EnvVar)
        ensures
            r.node_table() == node_table,
    {
        EnvVar { node_table }
    }

    /// The table of node names this environment resolves through.
    pub closed spec fn node_table(self) -> NodeTable {
        self.node_table
    }

    /// The identifier of the node called `node_name`, if there is one.
    pub fn get_node_id(&self, node_name: &str) -> (r: Option<&NodeId>)
        ensures
            r == (if self.node_table()@.contains_key(node_name@) {
                Some(&self.node_table()@[node_name@])
            } else {
                None::<&NodeId>
            }),
    {
        self.node_table.get(node_name)
    }
}

} // verus!

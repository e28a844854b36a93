//! A binary trie over address prefixes, kept in one vector of nodes.
use vstd::prelude::*;

verus! {

/// Bit `k` of `value`, counted from the least significant bit.
pub open spec fn bit(value: u128, k: int) -> bool {
    (value >> (k as u128)) & 1 == 1
}

/// The `width` low bits of `value`, most significant first.
pub open spec fn bits(value: u128, width: int) -> Seq<bool> {
    Seq::new(width as nat, |d: int| bit(value, width - 1 - d))
}

#[derive(Clone, Copy)]
pub struct TrieNode {
    zero: Option<usize>,
    one: Option<usize>,
    terminal: bool,
}

impl TrieNode {
    closed spec fn child(self, direction: bool) -> Option<usize> {
        if direction {
            self.one
        } else {
            self.zero
        }
    }
}

/// A set of bit strings of at most `BITS` bits.
pub struct IpTrie<const BITS: usize> {
    nodes: Vec<TrieNode>,
    entries: usize,
    paths: Ghost<Seq<Seq<bool>>>,
    stored: Ghost<Set<Seq<bool>>>,
}

impl<const BITS: usize> IpTrie<BITS> {
    /// The bit strings that were inserted.
    pub closed spec fn prefixes(self) -> Set<Seq<bool>> {
        self.stored@
    }

    /// Whether some inserted bit string is a prefix of the low `BITS` bits of `value`.
    pub open spec fn covers(self, value: u128) -> bool {
        exists|n: int|
            0 <= n <= BITS && self.prefixes().contains(#[trigger] bits(value, BITS as int).take(n))
    }

    closed spec fn linked(self, i: int, j: int) -> bool {
        &&& 0 <= i < self.nodes@.len()
        &&& self.paths@[j].len() > 0
        &&& self.nodes@[i].child(self.paths@[j].last()) == Some(j as usize)
        &&& self.paths@[i] == self.paths@[j].drop_last()
    }

    closed spec fn has_parent(self, j: int) -> bool {
        exists|i: int| self.linked(i, j)
    }

    /// The nodes form one tree, each node stands for the bit string on the way to it,
    /// and exactly the nodes of inserted bit strings are marked.
    pub closed spec fn wf(self) -> bool {
        let nodes = self.nodes@;
        let paths = self.paths@;
        &&& BITS <= 128
        &&& nodes.len() >= 1
        &&& paths.len() == nodes.len()
        &&& paths[0] == Seq::<bool>::empty()
        &&& forall|i: int, d: bool|
            0 <= i < nodes.len() ==> match #[trigger] nodes[i].child(d) {
                Some(j) => j < nodes.len() && paths[j as int] == paths[i].push(d),
                None => true,
            }
        &&& forall|i: int, j: int|
            0 <= i < j < paths.len() ==> #[trigger] paths[i] != #[trigger] paths[j]
        &&& forall|j: int| 0 < j < nodes.len() ==> #[trigger] self.has_parent(j)
        &&& forall|i: int|
            0 <= i < nodes.len() ==> ((#[trigger] nodes[i]).terminal <==> self.stored@.contains(
                paths[i],
            ))
        &&& forall|p: Seq<bool>| #[trigger]
            self.stored@.contains(p) ==> exists|i: int|
                0 <= i < paths.len() && #[trigger] paths[i] == p
        &&& self.stored@.finite()
        &&& self.stored@.len() == self.entries
    }

    proof fn lemma_prefix_closed(self, j: int, k: int) -> (m: int)
        requires
            self.wf(),
            0 <= j < self.nodes@.len(),
            0 <= k <= self.paths@[j].len(),
        ensures
            0 <= m < self.nodes@.len(),
            self.paths@[m] == self.paths@[j].take(k),
        decreases self.paths@[j].len() - k,
    {
        if k == self.paths@[j].len() {
            j
        } else {
            assert(self.has_parent(j));
            let i = choose|i: int| self.linked(i, j);
            self.lemma_prefix_closed(i, k)
        }
    }

    /// If node `at` has no child in the direction in which `path` goes on, then no node
    /// stands for `path` or for anything below it.
    proof fn lemma_missing_child(self, at: int, path: Seq<bool>, j: int)
        requires
            self.wf(),
            0 <= at < self.nodes@.len(),
            0 <= j < self.nodes@.len(),
            path.len() > self.paths@[at].len(),
            self.paths@[at] == path.take(self.paths@[at].len() as int),
            self.nodes@[at].child(path[self.paths@[at].len() as int]) is None,
        ensures
            self.paths@[j] != path,
    {
        if self.paths@[j] == path {
            let depth = self.paths@[at].len() as int;
            let m = self.lemma_prefix_closed(j, depth + 1);
            assert(self.paths@[m].len() == depth + 1);
            assert(self.has_parent(m));
            let i = choose|i: int| self.linked(i, m);
            assert(self.paths@[i] == path.take(depth));
        }
    }

    proof fn lemma_room_for_entry(self, at: int)
        requires
            self.wf(),
            0 <= at < self.nodes@.len(),
            !self.nodes@[at].terminal,
        ensures
            self.entries < self.nodes@.len(),
    {
        let all = self.paths@.to_set();
        vstd::seq_lib::seq_to_set_is_finite(self.paths@);
        self.paths@.lemma_cardinality_of_set();
        self.stored@.lemma_subset_not_in_lt(all, self.paths@[at]);
    }

    pub fn new() -> (trie: Self)
        requires
            BITS <= 128,
        ensures
            trie.wf(),
            trie.prefixes() == Set::<Seq<bool>>::empty(),
    {
        let mut nodes: Vec<TrieNode> = Vec::new();
        nodes.push(TrieNode { zero: None, one: None, terminal: false });
        IpTrie {
            nodes,
            entries: 0,
            paths: Ghost(Seq::<Seq<bool>>::empty().push(Seq::<bool>::empty())),
            stored: Ghost(Set::empty()),
        }
    }

    /// Adds the first `prefix` of the low `BITS` bits of `value`.
    pub fn insert(&mut self, value: u128, prefix: u8)
        requires
            old(self).wf(),
            prefix <= BITS,
        ensures
            final(self).wf(),
            final(self).prefixes() == old(self).prefixes().insert(
                bits(value, BITS as int).take(prefix as int),
            ),
    {
        let ghost target = bits(value, BITS as int);
        let mut node_index: usize = 0;
        let mut depth: usize = 0;
        while depth < prefix as usize
            invariant
                self.wf(),
                self.stored@ == old(self).stored@,
                depth <= prefix <= BITS <= 128,
                target == bits(value, BITS as int),
                node_index < self.nodes@.len(),
                self.paths@[node_index as int] == target.take(depth as int),
            decreases prefix - depth,
        {
            let shift: u128 = (BITS - 1 - depth) as u128;
            let direction: bool = (value >> shift) & 1 == 1;
            let node = self.nodes[node_index];
            let next: Option<usize> = if direction {
                node.one
            } else {
                node.zero
            };
            assert(next == self.nodes@[node_index as int].child(direction));
            node_index = match next {
                Some(next) => next,
                None => {
                    let next: usize = self.nodes.len();
                    let ghost before = *self;
                    let ghost path = target.take(depth + 1);
                    proof {
                        assert(path.take(depth as int) == target.take(depth as int));
                        assert forall|j: int| 0 <= j < before.nodes@.len() implies before.paths@[j]
                            != path by {
                            before.lemma_missing_child(node_index as int, path, j);
                        }
                    }
                    self.nodes.push(TrieNode { zero: None, one: None, terminal: false });
                    let mut parent = node;
                    if direction {
                        parent.one = Some(next);
                    } else {
                        parent.zero = Some(next);
                    }
                    self.nodes.set(node_index, parent);
                    self.paths = Ghost(self.paths@.push(path));
                    proof {
                        let nodes = self.nodes@;
                        let paths = self.paths@;
                        assert forall|i: int, d: bool|
                            0 <= i < nodes.len() implies match #[trigger] nodes[i].child(d) {
                            Some(j) => j < nodes.len() && paths[j as int] == paths[i].push(d),
                            None => true,
                        } by {
                            if i < before.nodes@.len() {
                                let _ = before.nodes@[i].child(d);
                            }
                        }
                        assert forall|j: int| 0 < j < nodes.len() implies #[trigger] self.has_parent(j) by {
                            if j < next {
                                assert(before.has_parent(j));
                                let i = choose|i: int| before.linked(i, j);
                                assert(self.linked(i, j));
                            } else {
                                assert(self.linked(node_index as int, j));
                            }
                        }
                        assert forall|p: Seq<bool>| #[trigger]
                            self.stored@.contains(p) implies exists|i: int|
                            0 <= i < paths.len() && #[trigger] paths[i] == p by {
                            let k = choose|k: int|
                                0 <= k < before.paths@.len() && #[trigger] before.paths@[k] == p;
                            assert(paths[k] == p);
                        }
                    }
                    next
                },
            };
            depth += 1;
        }

        let node = self.nodes[node_index];
        if !node.terminal {
            let ghost before = *self;
            proof {
                self.lemma_room_for_entry(node_index as int);
                assert(self.entries < self.nodes.len());
            }
            let mut marked = node;
            marked.terminal = true;
            self.nodes.set(node_index, marked);
            self.entries = self.entries + 1;
            self.stored = Ghost(self.stored@.insert(self.paths@[node_index as int]));
            proof {
                let nodes = self.nodes@;
                let paths = self.paths@;
                assert forall|i: int, d: bool| 0 <= i < nodes.len() implies match #[trigger] nodes[i].child(
                    d,
                ) {
                    Some(j) => j < nodes.len() && paths[j as int] == paths[i].push(d),
                    None => true,
                } by {
                    let _ = before.nodes@[i].child(d);
                }
                assert forall|j: int| 0 < j < nodes.len() implies #[trigger] self.has_parent(j) by {
                    assert(before.has_parent(j));
                    let i = choose|i: int| before.linked(i, j);
                    assert(self.linked(i, j));
                }
            }
        }
    }

    /// Whether some inserted bit string is a prefix of the low `BITS` bits of `value`.
    pub fn contains(&self, value: u128) -> (yes: bool)
        requires
            self.wf(),
        ensures
            yes == self.covers(value),
    {
        let ghost target = bits(value, BITS as int);
        let mut node_index: usize = 0;
        let mut depth: usize = 0;
        assert(target.take(0) == Seq::<bool>::empty());
        if self.nodes[0].terminal {
            return true;
        }
        while depth < BITS
            invariant
                self.wf(),
                depth <= BITS <= 128,
                target == bits(value, BITS as int),
                node_index < self.nodes@.len(),
                self.paths@[node_index as int] == target.take(depth as int),
                forall|n: int|
                    0 <= n <= depth ==> !self.stored@.contains(#[trigger] target.take(n)),
            decreases BITS - depth,
        {
            let shift: u128 = (BITS - 1 - depth) as u128;
            let direction: bool = (value >> shift) & 1 == 1;
            assert(target.take(depth + 1) == target.take(depth as int).push(direction));
            let node = self.nodes[node_index];
            let next: Option<usize> = if direction {
                node.one
            } else {
                node.zero
            };
            assert(next == self.nodes@[node_index as int].child(direction));
            match next {
                None => {
                    proof {
                        assert forall|n: int| 0 <= n <= BITS implies !self.stored@.contains(
                            #[trigger] target.take(n),
                        ) by {
                            if n > depth && self.stored@.contains(target.take(n)) {
                                let j = choose|j: int|
                                    0 <= j < self.paths@.len() && #[trigger] self.paths@[j]
                                        == target.take(n);
                                assert(target.take(n).take(depth as int) == target.take(
                                    depth as int,
                                ));
                                self.lemma_missing_child(node_index as int, target.take(n), j);
                            }
                        }
                    }
                    return false;
                },
                Some(next) => {
                    node_index = next;
                },
            }
            depth += 1;
            if self.nodes[node_index].terminal {
                return true;
            }
        }
        false
    }

    pub fn is_empty(&self) -> (yes: bool)
        requires
            self.wf(),
        ensures
            yes == (self.prefixes() =~= Set::empty()),
    {
        proof {
            if self.stored@.len() == 0 {
                self.stored@.lemma_len0_is_empty();
            }
        }
        self.entries == 0
    }

    /// How many different bit strings were inserted.
    pub fn len(&self) -> (count: usize)
        requires
            self.wf(),
        ensures
            self.prefixes().finite(),
            count == self.prefixes().len(),
    {
        self.entries
    }
}

/// Two numbers of at most `width` bits agree in their first `prefix` bits exactly when
/// they are equal after the remaining bits are shifted out.
pub proof fn lemma_equal_prefix_bits(a: u128, b: u128, width: int, prefix: int)
    requires
        width == 128 || (width == 32 && a < 0x1_0000_0000 && b < 0x1_0000_0000),
        0 < prefix <= width,
    ensures
        bits(a, width).take(prefix) == bits(b, width).take(prefix) <==> a >> ((width - prefix) as u128)
            == b >> ((width - prefix) as u128),
    decreases prefix,
{
    let x = bits(a, width).take(prefix);
    let y = bits(b, width).take(prefix);
    let k = (width - prefix) as u128;
    if prefix == 1 {
        if width == 128 {
            assert(a >> 127 == b >> 127 <==> ((a >> 127) & 1 == 1) == ((b >> 127) & 1 == 1))
                by (bit_vector);
        } else {
            assert(a >> 31 == b >> 31 <==> ((a >> 31) & 1 == 1) == ((b >> 31) & 1 == 1))
                by (bit_vector)
                requires
                    a < 0x1_0000_0000,
                    b < 0x1_0000_0000,
            ;
        }
        assert(x == y <==> x[0] == y[0]) by {
            if x[0] == y[0] {
                assert(x =~= y);
            }
        }
    } else {
        lemma_equal_prefix_bits(a, b, width, prefix - 1);
        let k1 = (width - prefix + 1) as u128;
        let u = a >> k;
        let v = b >> k;
        assert(a >> k1 == (a >> k) >> 1) by (bit_vector)
            requires
                k < 127,
                k1 == k + 1,
        ;
        assert(b >> k1 == (b >> k) >> 1) by (bit_vector)
            requires
                k < 127,
                k1 == k + 1,
        ;
        assert(u == v <==> u >> 1 == v >> 1 && (u & 1 == 1) == (v & 1 == 1)) by (bit_vector);
        let x1 = bits(a, width).take(prefix - 1);
        let y1 = bits(b, width).take(prefix - 1);
        assert(x == x1.push(bit(a, k as int)));
        assert(y == y1.push(bit(b, k as int)));
        assert(x == y <==> x1 == y1 && bit(a, k as int) == bit(b, k as int)) by {
            if x == y {
                assert(x.drop_last() == x1 && y.drop_last() == y1);
                assert(x.last() == bit(a, k as int) && y.last() == bit(b, k as int));
            }
        }
    }
}

} // verus!

//! A prefix tree of path segments, kept as an arena: node `k` carries a
//! segment and the index of its parent, or no index when it hangs from the
//! root. Parents come before their children, and no two children of one
//! node carry the same segment.

use vstd::prelude::*;

verus! {

/// Segments from the root down to node `k`.
pub open spec fn path_of(labels: Seq<String>, parents: Seq<Option<usize>>, k: int) -> Seq<
    Seq<char>,
>
    decreases k,
{
    if 0 <= k < labels.len() && k < parents.len() {
        match parents[k] {
            None => seq![labels[k]@],
            Some(p) => if p < k {
                path_of(labels, parents, p as int).push(labels[k]@)
            } else {
                Seq::empty()
            },
        }
    } else {
        Seq::empty()
    }
}

/// The segments of `components`, as text.
pub open spec fn segments(components: Seq<String>) -> Seq<Seq<char>> {
    components.map_values(|c: String| c@)
}

/// Whether `p` is a prefix of `full`.
pub open spec fn is_prefix_of(p: Seq<Seq<char>>, full: Seq<Seq<char>>) -> bool {
    p.len() <= full.len() && p == full.take(p.len() as int)
}

/// A tree of path segments rooted at an unnamed node.
pub struct TreeNode {
    labels: Vec<String>,
    parents: Vec<Option<usize>>,
}

proof fn lemma_path_of_extend(
    labels: Seq<String>,
    parents: Seq<Option<usize>>,
    l: String,
    q: Option<usize>,
    k: int,
)
    requires
        labels.len() == parents.len(),
        0 <= k < labels.len(),
    ensures
        path_of(labels.push(l), parents.push(q), k) == path_of(labels, parents, k),
    decreases k,
{
    match parents[k] {
        Some(p) => if p < k {
            lemma_path_of_extend(labels, parents, l, q, p as int);
        },
        None => {},
    }
}

impl TreeNode {
    /// Parents precede children; sibling segments are distinct.
    pub closed spec fn wf(&self) -> bool {
        &&& self.labels@.len() == self.parents@.len()
        &&& forall|k: int|
            0 <= k < self.parents@.len() ==> (#[trigger] self.parents@[k] matches Some(p) ==> p
                < k)
        &&& forall|a: int, b: int|
            0 <= a < b < self.labels@.len() && #[trigger] self.parents@[a]
                == #[trigger] self.parents@[b] ==> self.labels@[a]@ != self.labels@[b]@
    }

    /// Whether the tree holds the path of segments `p` from its root (the
    /// empty path is the root itself).
    pub closed spec fn has_path(&self, p: Seq<Seq<char>>) -> bool {
        p.len() == 0 || exists|k: int|
            0 <= k < self.labels@.len() && #[trigger] path_of(self.labels@, self.parents@, k) == p
    }

    /// A tree with the root alone.
    pub fn new() -> (r: TreeNode)
        ensures
            r.wf(),
            forall|p: Seq<Seq<char>>| #[trigger] r.has_path(p) <==> p.len() == 0,
    {
        TreeNode { labels: Vec::new(), parents: Vec::new() }
    }

    /// Adds the path of `components` below the root, reusing the nodes of
    /// its longest prefix already present.
    pub fn add_path(&mut self, components: &[String])
        requires
            old(self).wf(),
        ensures
            final(self).wf(),
            forall|p: Seq<Seq<char>>| #[trigger]
                final(self).has_path(p) <==> old(self).has_path(p) || is_prefix_of(
                    p,
                    segments(components@),
                ),
    {
        let ghost full = segments(components@);
        let mut cur: Option<usize> = None;
        let mut i: usize = 0;
        while i < components.len()
            invariant
                self.wf(),
                i <= components@.len(),
                full == segments(components@),
                match cur {
                    None => i == 0,
                    Some(c) => c < self.labels@.len() && path_of(
                        self.labels@,
                        self.parents@,
                        c as int,
                    ) == full.take(i as int),
                },
                forall|p: Seq<Seq<char>>| #[trigger]
                    self.has_path(p) <==> old(self).has_path(p) || (p.len() <= i && is_prefix_of(
                        p,
                        full,
                    )),
            decreases components@.len() - i,
        {
            let ghost next = full.take(i as int + 1);
            assert(next == full.take(i as int).push(components@[i as int]@));
            let mut found: Option<usize> = None;
            let mut k: usize = 0;
            while k < self.labels.len()
                invariant
                    k <= self.labels@.len(),
                    i < components@.len(),
                    self.labels@.len() == self.parents@.len(),
                    forall|j: int|
                        0 <= j < k ==> !(#[trigger] self.parents@[j] == cur && self.labels@[j]@
                            == components@[i as int]@),
                    found matches Some(f) ==> f < self.labels@.len() && self.parents@[f as int]
                        == cur && self.labels@[f as int]@ == components@[i as int]@,
                ensures
                    found is None ==> k == self.labels@.len(),
                    forall|j: int|
                        0 <= j < k ==> !(#[trigger] self.parents@[j] == cur && self.labels@[j]@
                            == components@[i as int]@),
                    found matches Some(f) ==> f < self.labels@.len() && self.parents@[f as int]
                        == cur && self.labels@[f as int]@ == components@[i as int]@,
                decreases self.labels@.len() - k,
            {
                let same_parent = match (self.parents[k], cur) {
                    (None, None) => true,
                    (Some(a), Some(b)) => a == b,
                    _ => false,
                };
                if same_parent && self.labels[k] == components[i] {
                    found = Some(k);
                    break;
                }
                k = k + 1;
            }
            match found {
                Some(f) => {
                    assert(path_of(self.labels@, self.parents@, f as int) == next);
                    proof {
                        assert forall|p: Seq<Seq<char>>| #[trigger]
                            self.has_path(p) <==> old(self).has_path(p) || (p.len() <= i + 1
                                && is_prefix_of(p, full)) by {
                            if p.len() == i + 1 && is_prefix_of(p, full) {
                                assert(p == next);
                                assert(path_of(self.labels@, self.parents@, f as int) == p);
                            }
                        }
                    }
                    cur = Some(f);
                },
                None => {
                    let ghost ls = self.labels@;
                    let ghost ps = self.parents@;
                    let ghost before = *self;
                    let n = self.labels.len();
                    let label = components[i].clone();
                    self.labels.push(label);
                    self.parents.push(cur);
                    proof {
                        assert(self.labels@[n as int]@ == components@[i as int]@);
                        assert forall|a: int, b: int|
                            0 <= a < b < self.labels@.len() && #[trigger] self.parents@[a]
                                == #[trigger] self.parents@[b] implies self.labels@[a]@
                            != self.labels@[b]@ by {
                            if b == n {
                                assert(!(ps[a] == cur && ls[a]@ == components@[i as int]@));
                            } else {
                                assert(ps[a] == ps[b]);
                            }
                        }
                        assert forall|j: int|
                            0 <= j < self.parents@.len() implies (#[trigger] self.parents@[j] matches Some(
                                q,
                            ) ==> q < j) by {
                            if j < n {
                                assert(self.parents@[j] == ps[j]);
                            }
                        }
                        assert forall|j: int| 0 <= j < n implies path_of(
                            self.labels@,
                            self.parents@,
                            j,
                        ) == path_of(ls, ps, j) by {
                            lemma_path_of_extend(ls, ps, label, cur, j);
                        }
                        assert(path_of(self.labels@, self.parents@, n as int) == next);
                        assert forall|p: Seq<Seq<char>>| #[trigger]
                            self.has_path(p) <==> before.has_path(p) || p == next by {
                            if p.len() > 0 {
                                if self.has_path(p) {
                                    let j = choose|j: int|
                                        0 <= j < self.labels@.len() && #[trigger] path_of(
                                            self.labels@,
                                            self.parents@,
                                            j,
                                        ) == p;
                                    if j < n {
                                        assert(path_of(ls, ps, j) == p);
                                        assert(before.has_path(p));
                                    }
                                }
                                if before.has_path(p) {
                                    let j = choose|j: int|
                                        0 <= j < ls.len() && #[trigger] path_of(ls, ps, j) == p;
                                    assert(path_of(self.labels@, self.parents@, j) == p);
                                }
                                if p == next {
                                    assert(path_of(self.labels@, self.parents@, n as int) == p);
                                }
                            }
                        }
                        assert forall|p: Seq<Seq<char>>| #[trigger]
                            self.has_path(p) <==> old(self).has_path(p) || (p.len() <= i + 1
                                && is_prefix_of(p, full)) by {
                            assert(before.has_path(p) <==> old(self).has_path(p) || (p.len() <= i
                                && is_prefix_of(p, full)));
                            if p.len() == i + 1 && is_prefix_of(p, full) {
                                assert(p == next);
                            }
                        }
                    }
                    cur = Some(n);
                },
            }
            i = i + 1;
        }
        assert(full.take(components@.len() as int) =~= full);
    }

    /// Number of nodes below the root.
    pub closed spec fn node_count_spec(&self) -> nat {
        self.labels@.len()
    }

    /// Segments from the root down to node `k`.
    pub closed spec fn path_to(&self, k: int) -> Seq<Seq<char>> {
        path_of(self.labels@, self.parents@, k)
    }

    /// Number of nodes below the root.
    pub fn node_count(&self) -> (r: usize)
        ensures
            r == self.node_count_spec(),
    {
        self.labels.len()
    }

    /// The segment that node `k` carries.
    pub fn segment(&self, k: usize) -> (r: &str)
        requires
            self.wf(),
            k < self.node_count_spec(),
        ensures
            r@ == self.path_to(k as int).last(),
    {
        self.labels[k].as_str()
    }

    /// The parent of node `k`, or `None` when it hangs from the root.
    pub fn parent(&self, k: usize) -> (r: Option<usize>)
        requires
            self.wf(),
            k < self.node_count_spec(),
        ensures
            match r {
                None => self.path_to(k as int).len() == 1,
                Some(p) => p < k && self.path_to(k as int) == self.path_to(p as int).push(
                    self.path_to(k as int).last(),
                ),
            },
    {
        self.parents[k]
    }
}

} // verus!

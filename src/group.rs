//! The duplicate group record and the metrics derived from it.

use vstd::prelude::*;

verus! {

/// One block of the report: files that share identical content.
#[derive(Clone, Debug)]
pub struct DuplicateGroup {
    /// Size in bytes of one instance of the shared content.
    pub per_file_bytes: usize,
    /// One entry per instance, in the order the report lists them.
    pub paths: Vec<String>,
}

/// The abstract content of a group: its size and its paths as text.
pub struct GroupModel {
    pub per_file_bytes: nat,
    pub paths: Seq<Seq<char>>,
}

impl View for DuplicateGroup {
    type V = GroupModel;

    open spec fn view(&self) -> GroupModel {
        GroupModel {
            per_file_bytes: self.per_file_bytes as nat,
            paths: self.paths@.map_values(|p: String| p@),
        }
    }
}

/// Number of redundant copies: every path but the first. A group with no
/// paths has none.
pub open spec fn duplicates_of(g: GroupModel) -> nat {
    if g.paths.len() == 0 {
        0
    } else {
        (g.paths.len() - 1) as nat
    }
}

/// Bytes that could be reclaimed by keeping one copy only.
pub open spec fn redundant_of(g: GroupModel) -> nat {
    g.per_file_bytes * duplicates_of(g)
}

impl DuplicateGroup {
    /// A group of `per_file_bytes` with no paths yet.
    pub fn new(per_file_bytes: usize) -> (r: DuplicateGroup)
        ensures
            r@.per_file_bytes == per_file_bytes,
            r@.paths == Seq::<Seq<char>>::empty(),
    {
        let r = DuplicateGroup { per_file_bytes, paths: Vec::new() };
        assert(r@.paths =~= Seq::<Seq<char>>::empty());
        r
    }

    /// Number of paths beyond the first.
    pub fn duplicate_count(&self) -> (r: usize)
        ensures
            r == duplicates_of(self@),
    {
        if self.paths.len() == 0 {
            0
        } else {
            self.paths.len() - 1
        }
    }

    /// `per_file_bytes` times the number of duplicates.
    pub fn redundant_bytes(&self) -> (r: u128)
        ensures
            r == redundant_of(self@),
    {
        let d = self.duplicate_count();
        let b = self.per_file_bytes;
        assert(b as int * d as int <= 0xffff_ffff_ffff_ffff * 0xffff_ffff_ffff_ffff)
            by (nonlinear_arith)
            requires
                b as int <= 0xffff_ffff_ffff_ffff,
                d as int <= 0xffff_ffff_ffff_ffff,
        ;
        (b as u128) * (d as u128)
    }
}

} // verus!

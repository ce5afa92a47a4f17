use vstd::prelude::*;
use crate::error::CascadeError;

verus! {

/// One declared deletion rule.
pub struct WorkflowNode {
    pub table: String,
    pub column: String,
    pub where_clause: String,
    pub params: String,
    pub parent: String,
}

pub struct NodeView {
    pub table: Seq<char>,
    pub column: Seq<char>,
    pub where_clause: Seq<char>,
    pub params: Seq<char>,
    pub parent: Seq<char>,
}

impl View for WorkflowNode {
    type V = NodeView;

    open spec fn view(&self) -> NodeView {
        NodeView {
            table: self.table@,
            column: self.column@,
            where_clause: self.where_clause@,
            params: self.params@,
            parent: self.parent@,
        }
    }
}

pub open spec fn nodes_view(nodes: Seq<WorkflowNode>) -> Seq<NodeView> {
    nodes.map_values(|n: WorkflowNode| n@)
}

pub open spec fn is_root(n: NodeView) -> bool {
    n.parent.len() == 0
}

/// Indices, in declaration order, of the first `k` nodes whose parent is `table`.
pub open spec fn child_indices_upto(nodes: Seq<NodeView>, table: Seq<char>, k: int) -> Seq<nat>
    decreases k,
{
    if k <= 0 {
        Seq::empty()
    } else {
        let prev = child_indices_upto(nodes, table, k - 1);
        if nodes[k - 1].parent == table {
            prev.push((k - 1) as nat)
        } else {
            prev
        }
    }
}

/// Indices, in declaration order, of all nodes whose parent is `table`.
pub open spec fn child_indices(nodes: Seq<NodeView>, table: Seq<char>) -> Seq<nat> {
    child_indices_upto(nodes, table, nodes.len() as int)
}

/// The configured workflow nodes with their single root.
pub struct WorkflowGraph {
    pub(crate) nodes: Vec<WorkflowNode>,
    pub(crate) root: usize,
}

impl WorkflowGraph {
    pub open(crate) spec fn spec_nodes(&self) -> Seq<NodeView> {
        nodes_view(self.nodes@)
    }

    pub open(crate) spec fn spec_root(&self) -> int {
        self.root as int
    }

    pub open(crate) spec fn wf(&self) -> bool {
        &&& self.root < self.nodes@.len()
        &&& is_root(self.spec_nodes()[self.root as int])
        &&& forall|i: int|
            0 <= i < self.nodes@.len() && i != self.root ==> !is_root(#[trigger] self.spec_nodes()[i])
    }

    /// Builds the graph; fails when no node, or more than one, has an empty parent.
    pub fn build(nodes: Vec<WorkflowNode>) -> (r: Result<WorkflowGraph, CascadeError>)
        ensures
            r matches Err(CascadeError::NoRootFound) <==> forall|i: int|
                0 <= i < nodes@.len() ==> !is_root(#[trigger] nodes_view(nodes@)[i]),
            r matches Err(CascadeError::AmbiguousRoot) <==> exists|i: int, j: int|
                0 <= i < j < nodes@.len() && is_root(#[trigger] nodes_view(nodes@)[i]) && is_root(
                    #[trigger] nodes_view(nodes@)[j],
                ),
            r is Err ==> (r matches Err(CascadeError::NoRootFound) || r matches Err(
                CascadeError::AmbiguousRoot,
            )),
            r matches Ok(g) ==> g.wf() && g.spec_nodes() == nodes_view(nodes@),
    {
        let ghost nv = nodes_view(nodes@);
        let mut found: Option<usize> = None;
        let mut i: usize = 0;
        while i < nodes.len()
            invariant
                i <= nodes@.len(),
                nv == nodes_view(nodes@),
                match found {
                    None => forall|k: int| 0 <= k < i ==> !is_root(#[trigger] nv[k]),
                    Some(f) => f < i && is_root(nv[f as int]) && forall|k: int|
                        0 <= k < i && k != f ==> !is_root(#[trigger] nv[k]),
                },
            decreases nodes@.len() - i,
        {
            if nodes[i].parent.as_str().unicode_len() == 0 {
                assert(is_root(nv[i as int]));
                match found {
                    Some(f) => {
                        assert(is_root(nv[f as int]));
                        return Err(CascadeError::AmbiguousRoot);
                    },
                    None => {
                        found = Some(i);
                    },
                }
            }
            i = i + 1;
        }
        match found {
            None => Err(CascadeError::NoRootFound),
            Some(f) => {
                let g = WorkflowGraph { nodes, root: f };
                assert(g.spec_nodes()[f as int] == nv[f as int]);
                Ok(g)
            },
        }
    }

    pub fn len(&self) -> (r: usize)
        ensures
            r == self.spec_nodes().len(),
    {
        self.nodes.len()
    }

    /// The node at index `i`.
    pub fn node(&self, i: usize) -> (r: &WorkflowNode)
        requires
            i < self.spec_nodes().len(),
        ensures
            r@ == self.spec_nodes()[i as int],
    {
        &self.nodes[i]
    }

    /// Index of the root node.
    pub fn root_index(&self) -> (r: usize)
        ensures
            r == self.spec_root(),
    {
        self.root
    }

    /// The root node: the one with an empty parent.
    pub fn root(&self) -> (r: &WorkflowNode)
        requires
            self.wf(),
        ensures
            r@ == self.spec_nodes()[self.spec_root()],
            is_root(r@),
    {
        &self.nodes[self.root]
    }

    /// Indices of the nodes whose parent is `table`, in declaration order.
    pub fn children_of(&self, table: &str) -> (r: Vec<usize>)
        ensures
            r@.map_values(|c: usize| c as nat) == child_indices(self.spec_nodes(), table@),
            forall|j: int| 0 <= j < r@.len() ==> #[trigger] r@[j] < self.spec_nodes().len(),
    {
        let ghost nv = self.spec_nodes();
        let target = String::from_str(table);
        let mut out: Vec<usize> = Vec::new();
        let mut i: usize = 0;
        while i < self.nodes.len()
            invariant
                i <= self.nodes@.len(),
                nv == self.spec_nodes(),
                target@ == table@,
                out@.map_values(|c: usize| c as nat) == child_indices_upto(nv, table@, i as int),
                forall|j: int| 0 <= j < out@.len() ==> #[trigger] out@[j] < i,
            decreases self.nodes@.len() - i,
        {
            let ghost before = out@.map_values(|c: usize| c as nat);
            assert(nv[i as int] == self.nodes@[i as int]@);
            if self.nodes[i].parent == target {
                out.push(i);
                assert(out@.map_values(|c: usize| c as nat) =~= before.push(i as nat));
            }
            i = i + 1;
        }
        out
    }
}

/// Where the files of one table live, and an optional expected fingerprint.
/// In a list of mappings the first one that names a table is the one that
/// counts; later ones for the same table are never read.
pub struct FileMapping {
    pub table: String,
    pub path: String,
    pub hash: Option<String>,
}

/// Index of the first of the first `k` mappings that names `table`.
pub open spec fn mapping_index_upto(maps: Seq<FileMapping>, table: Seq<char>, k: int) -> Option<nat>
    decreases k,
{
    if k <= 0 {
        None
    } else {
        match mapping_index_upto(maps, table, k - 1) {
            Some(i) => Some(i),
            None => if maps[k - 1].table@ == table {
                Some((k - 1) as nat)
            } else {
                None
            },
        }
    }
}

pub open spec fn mapping_index(maps: Seq<FileMapping>, table: Seq<char>) -> Option<nat> {
    mapping_index_upto(maps, table, maps.len() as int)
}

proof fn lemma_mapping_index_stable(maps: Seq<FileMapping>, table: Seq<char>, i: int, k: int)
    requires
        0 <= i < k <= maps.len(),
        mapping_index_upto(maps, table, i + 1) == Some(i as nat),
    ensures
        mapping_index_upto(maps, table, k) == Some(i as nat),
    decreases k,
{
    if k > i + 1 {
        lemma_mapping_index_stable(maps, table, i, k - 1);
    }
}

/// The first mapping for `table`, if any.
pub fn find_mapping(maps: &[FileMapping], table: &str) -> (r: Option<usize>)
    ensures
        r matches Some(i) ==> mapping_index(maps@, table@) == Some(i as nat) && i < maps@.len(),
        r is None ==> mapping_index(maps@, table@) is None,
{
    let target = String::from_str(table);
    let mut i: usize = 0;
    while i < maps.len()
        invariant
            i <= maps@.len(),
            target@ == table@,
            mapping_index_upto(maps@, table@, i as int) is None,
        decreases maps@.len() - i,
    {
        if maps[i].table == target {
            proof {
                lemma_mapping_index_stable(maps@, table@, i as int, maps@.len() as int);
            }
            return Some(i);
        }
        i = i + 1;
    }
    None
}

} // verus!

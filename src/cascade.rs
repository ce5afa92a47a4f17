use vstd::prelude::*;
use crate::error::CascadeError;
use crate::fingerprint::{check_schema, schema_fingerprint, schema_view, TableSchema};
use crate::graph::{
    child_indices, child_indices_upto, find_mapping, mapping_index, FileMapping, NodeView,
    WorkflowGraph,
};
use crate::ident::valid_identifier;
use crate::sandbox::{ensure_path_within_project, sandboxed};
use crate::store::{delete_db_entries, get_value_list_from};

verus! {

/// Progress of one frame of the depth-first walk.
pub enum Phase {
    /// The node's selection has not been asked for yet.
    Fresh,
    /// The node's selection has been asked for; its identifiers are awaited.
    Waiting,
    /// Walking the selected identifiers: `id_pos` is the identifier in hand,
    /// `child_pos` the next child workflow to descend into for it, and
    /// `file_done` whether its file has been dealt with.
    Running { ids: Vec<String>, id_pos: usize, child_pos: usize, file_done: bool },
}

/// One pending invocation: a node and the parameter bound to its predicate.
pub struct Frame {
    pub node: usize,
    pub param: String,
    pub phase: Phase,
}

pub enum PhaseView {
    Fresh,
    Waiting,
    Running { ids: Seq<Seq<char>>, id_pos: nat, child_pos: nat, file_done: bool },
}

pub struct FrameView {
    pub node: nat,
    pub param: Seq<char>,
    pub phase: PhaseView,
}

impl View for Frame {
    type V = FrameView;

    open spec fn view(&self) -> FrameView {
        FrameView {
            node: self.node as nat,
            param: self.param@,
            phase: match self.phase {
                Phase::Fresh => PhaseView::Fresh,
                Phase::Waiting => PhaseView::Waiting,
                Phase::Running { ids, id_pos, child_pos, file_done } => PhaseView::Running {
                    ids: ids@.map_values(|s: String| s@),
                    id_pos: id_pos as nat,
                    child_pos: child_pos as nat,
                    file_done,
                },
            },
        }
    }
}

/// What the caller has to carry out next.
#[derive(Debug, PartialEq, Eq)]
pub enum Action {
    /// Run the selection of workflow node `node` with `param` bound, then hand
    /// the identifiers back through `supply_ids`.
    Select { node: usize, param: String },
    /// Try to remove the file at `path`; the outcome does not matter to the walk.
    DeleteFile { path: String },
    /// Run the bulk deletion of workflow node `node` with `param` bound.
    DeleteRows { node: usize, param: String },
    /// The walk is complete.
    Finished,
}

pub enum ActionView {
    Select { node: nat, param: Seq<char> },
    DeleteFile { path: Seq<char> },
    DeleteRows { node: nat, param: Seq<char> },
    Finished,
}

impl View for Action {
    type V = ActionView;

    open spec fn view(&self) -> ActionView {
        match self {
            Action::Select { node, param } => ActionView::Select { node: *node as nat, param: param@ },
            Action::DeleteFile { path } => ActionView::DeleteFile { path: path@ },
            Action::DeleteRows { node, param } => ActionView::DeleteRows {
                node: *node as nat,
                param: param@,
            },
            Action::Finished => ActionView::Finished,
        }
    }
}

/// The file directory mapped to `table`, if any.
pub open spec fn file_dir(files: Seq<FileMapping>, table: Seq<char>) -> Option<Seq<char>> {
    match mapping_index(files, table) {
        Some(i) => Some(files[i as int].path@),
        None => None,
    }
}

/// Identifiers of the top frame not yet taken in hand.
pub open spec fn top_remaining(stack: Seq<FrameView>) -> nat {
    if stack.len() == 0 {
        0
    } else {
        match stack.last().phase {
            PhaseView::Running { ids, id_pos, .. } => if id_pos < ids.len() {
                (ids.len() - id_pos) as nat
            } else {
                0
            },
            _ => 0,
        }
    }
}

/// The walk from `stack` up to the next action: the stack after it, and the action.
pub open spec fn advance(nodes: Seq<NodeView>, files: Seq<FileMapping>, stack: Seq<FrameView>) -> (
    Seq<FrameView>,
    ActionView,
)
    decreases stack.len(), top_remaining(stack),
{
    if stack.len() == 0 {
        (stack, ActionView::Finished)
    } else {
        let top = stack.last();
        let rest = stack.drop_last();
        match top.phase {
            PhaseView::Fresh => (
                rest.push(FrameView { phase: PhaseView::Waiting, ..top }),
                ActionView::Select { node: top.node, param: top.param },
            ),
            PhaseView::Waiting => (stack, ActionView::Select { node: top.node, param: top.param }),
            PhaseView::Running { ids, id_pos, child_pos, file_done } => {
                let table = nodes[top.node as int].table;
                let children = child_indices(nodes, table);
                if id_pos < ids.len() {
                    let id = ids[id_pos as int];
                    if !file_done && file_dir(files, table) is Some {
                        (
                            rest.push(
                                FrameView {
                                    phase: PhaseView::Running { ids, id_pos, child_pos, file_done: true },
                                    ..top
                                },
                            ),
                            ActionView::DeleteFile {
                                path: sandboxed(file_dir(files, table)->Some_0, id),
                            },
                        )
                    } else if child_pos < children.len() {
                        let child = children[child_pos as int];
                        (
                            rest.push(
                                FrameView {
                                    phase: PhaseView::Running {
                                        ids,
                                        id_pos,
                                        child_pos: child_pos + 1,
                                        file_done: true,
                                    },
                                    ..top
                                },
                            ).push(FrameView { node: child, param: id, phase: PhaseView::Waiting }),
                            ActionView::Select { node: child, param: id },
                        )
                    } else {
                        advance(
                            nodes,
                            files,
                            rest.push(
                                FrameView {
                                    phase: PhaseView::Running {
                                        ids,
                                        id_pos: id_pos + 1,
                                        child_pos: 0,
                                        file_done: false,
                                    },
                                    ..top
                                },
                            ),
                        )
                    }
                } else if ids.len() > 0 {
                    (rest, ActionView::DeleteRows { node: top.node, param: top.param })
                } else {
                    advance(nodes, files, rest)
                }
            },
        }
    }
}

/// The stack once the awaited identifiers `ids` are handed to the top frame.
pub open spec fn supply(stack: Seq<FrameView>, ids: Seq<Seq<char>>) -> Seq<FrameView> {
    if stack.len() > 0 && stack.last().phase is Waiting {
        stack.drop_last().push(
            FrameView {
                phase: PhaseView::Running { ids, id_pos: 0, child_pos: 0, file_done: false },
                ..stack.last()
            },
        )
    } else {
        stack
    }
}

/// The stack a run starts from: the root with its own configured parameter.
pub open spec fn initial(nodes: Seq<NodeView>, root: int) -> Seq<FrameView> {
    seq![FrameView { node: root as nat, param: nodes[root].params, phase: PhaseView::Fresh }]
}

/// Rows are deleted children-first: when the walk deletes the rows of a node,
/// every frame that stood above that node's frame (its descendants) has been
/// finished and removed, the remaining stack is exactly what lay below it, and
/// the deletion uses that frame's own node and parameter.
pub proof fn lemma_rows_deleted_after_descendants(
    nodes: Seq<NodeView>,
    files: Seq<FileMapping>,
    stack: Seq<FrameView>,
)
    ensures
        advance(nodes, files, stack).1 is DeleteRows ==> ({
            let rest = advance(nodes, files, stack).0;
            let a = advance(nodes, files, stack).1;
            &&& rest.len() < stack.len()
            &&& rest == stack.take(rest.len() as int)
            &&& stack[rest.len() as int].node == a->DeleteRows_node
            &&& stack[rest.len() as int].param == a->DeleteRows_param
        }),
    decreases stack.len(), top_remaining(stack),
{
    if stack.len() > 0 {
        let top = stack.last();
        let rest = stack.drop_last();
        match top.phase {
            PhaseView::Running { ids, id_pos, child_pos, file_done } => {
                let table = nodes[top.node as int].table;
                if id_pos < ids.len() {
                    if !file_done && file_dir(files, table) is Some {
                    } else if child_pos < child_indices(nodes, table).len() {
                    } else {
                        let next = rest.push(
                            FrameView {
                                phase: PhaseView::Running {
                                    ids,
                                    id_pos: id_pos + 1,
                                    child_pos: 0,
                                    file_done: false,
                                },
                                ..top
                            },
                        );
                        lemma_rows_deleted_after_descendants(nodes, files, next);
                        let r = advance(nodes, files, next).0;
                        if advance(nodes, files, next).1 is DeleteRows {
                            assert(r =~= stack.take(r.len() as int));
                        }
                    }
                } else if ids.len() > 0 {
                    assert(rest =~= stack.take(rest.len() as int));
                } else {
                    lemma_rows_deleted_after_descendants(nodes, files, rest);
                    let r = advance(nodes, files, rest).0;
                    if advance(nodes, files, rest).1 is DeleteRows {
                        assert(r =~= stack.take(r.len() as int));
                    }
                }
            },
            _ => {},
        }
    }
}

/// A run against a store that has no row left for the root's parameter (one
/// already cleaned) asks for the root's selection and then finishes, without
/// any file or row deletion.
pub proof fn lemma_cleaned_store_finishes(nodes: Seq<NodeView>, files: Seq<FileMapping>, root: int)
    requires
        0 <= root < nodes.len(),
    ensures
        advance(nodes, files, initial(nodes, root)).1 == (ActionView::Select {
            node: root as nat,
            param: nodes[root].params,
        }),
        advance(nodes, files, supply(advance(nodes, files, initial(nodes, root)).0, Seq::empty()))
            == (Seq::<FrameView>::empty(), ActionView::Finished),
{
    let s0 = initial(nodes, root);
    assert(s0.drop_last() =~= Seq::<FrameView>::empty());
    let s1 = advance(nodes, files, s0).0;
    let s2 = supply(s1, Seq::empty());
    assert(s2.drop_last() =~= Seq::<FrameView>::empty());
    assert(advance(nodes, files, s2.drop_last()) == (
        Seq::<FrameView>::empty(),
        ActionView::Finished,
    ));
}

/// A selection is always asked for the frame left on top of the stack.
pub proof fn lemma_select_names_top(nodes: Seq<NodeView>, files: Seq<FileMapping>, stack: Seq<FrameView>)
    ensures
        advance(nodes, files, stack).1 is Select ==> ({
            let rest = advance(nodes, files, stack).0;
            &&& rest.len() > 0
            &&& rest.last().node == advance(nodes, files, stack).1->Select_node
            &&& rest.last().param == advance(nodes, files, stack).1->Select_param
            &&& rest.last().phase is Waiting
        }),
    decreases stack.len(), top_remaining(stack),
{
    if stack.len() > 0 {
        let top = stack.last();
        let rest = stack.drop_last();
        match top.phase {
            PhaseView::Running { ids, id_pos, child_pos, file_done } => {
                let table = nodes[top.node as int].table;
                if id_pos < ids.len() {
                    if !file_done && file_dir(files, table) is Some {
                    } else if child_pos < child_indices(nodes, table).len() {
                    } else {
                        lemma_select_names_top(
                            nodes,
                            files,
                            rest.push(
                                FrameView {
                                    phase: PhaseView::Running {
                                        ids,
                                        id_pos: id_pos + 1,
                                        child_pos: 0,
                                        file_done: false,
                                    },
                                    ..top
                                },
                            ),
                        );
                    }
                } else if ids.len() == 0 {
                    lemma_select_names_top(nodes, files, rest);
                }
            },
            _ => {},
        }
    }
}

/// A file step does not cut the walk short, whatever becomes of the file: the
/// frame it belongs to stays on the stack with its node, parameter and
/// non-empty identifiers, the current one still pending, above the frames
/// below it unchanged; so its descendants and its own rows are still to come.
pub proof fn lemma_file_step_keeps_walk(nodes: Seq<NodeView>, files: Seq<FileMapping>, stack: Seq<FrameView>)
    ensures
        advance(nodes, files, stack).1 is DeleteFile ==> ({
            let rest = advance(nodes, files, stack).0;
            &&& 0 < rest.len() <= stack.len()
            &&& rest.drop_last() == stack.take(rest.len() - 1)
            &&& rest.last().node == stack[rest.len() - 1].node
            &&& rest.last().param == stack[rest.len() - 1].param
            &&& rest.last().phase matches PhaseView::Running { ids, id_pos, file_done, .. }
                && id_pos < ids.len() && file_done
        }),
    decreases stack.len(), top_remaining(stack),
{
    if stack.len() > 0 {
        let top = stack.last();
        let rest = stack.drop_last();
        match top.phase {
            PhaseView::Running { ids, id_pos, child_pos, file_done } => {
                let table = nodes[top.node as int].table;
                if id_pos < ids.len() {
                    if !file_done && file_dir(files, table) is Some {
                    } else if child_pos < child_indices(nodes, table).len() {
                    } else {
                        let next = rest.push(
                            FrameView {
                                phase: PhaseView::Running {
                                    ids,
                                    id_pos: id_pos + 1,
                                    child_pos: 0,
                                    file_done: false,
                                },
                                ..top
                            },
                        );
                        lemma_file_step_keeps_walk(nodes, files, next);
                        let r = advance(nodes, files, next).0;
                        if advance(nodes, files, next).1 is DeleteFile {
                            assert(r.drop_last() =~= stack.take(r.len() - 1));
                        }
                    }
                } else if ids.len() == 0 {
                    lemma_file_step_keeps_walk(nodes, files, rest);
                    let r = advance(nodes, files, rest).0;
                    if advance(nodes, files, rest).1 is DeleteFile {
                        assert(r.drop_last() =~= stack.take(r.len() - 1));
                    }
                }
            },
            _ => {},
        }
    }
}

/// Each frame of `stack` names a node, and each frame above the first is for
/// a child of the node of the frame just below it.
pub open spec fn chained(nodes: Seq<NodeView>, stack: Seq<FrameView>) -> bool {
    &&& forall|k: int| 0 <= k < stack.len() ==> #[trigger] stack[k].node < nodes.len()
    &&& forall|k: int|
        0 <= k < stack.len() - 1 ==> nodes[stack[k + 1].node as int].parent == nodes[#[trigger] stack[k].node as int].table
}

/// `rank` witnesses that the child relation has no cycle: every node's rank
/// is below the node count, and every child ranks below each of its parents.
pub open spec fn ranked(nodes: Seq<NodeView>, rank: Seq<nat>) -> bool {
    &&& rank.len() == nodes.len()
    &&& forall|i: int| 0 <= i < nodes.len() ==> #[trigger] rank[i] < nodes.len()
    &&& forall|i: int, j: int|
        0 <= i < nodes.len() && 0 <= j < nodes.len() && nodes[j].parent == nodes[i].table ==> #[trigger] rank[j]
            < #[trigger] rank[i]
}

proof fn lemma_children_are_children(nodes: Seq<NodeView>, table: Seq<char>, k: int)
    requires
        0 <= k <= nodes.len(),
    ensures
        forall|j: int|
            0 <= j < child_indices_upto(nodes, table, k).len() ==> #[trigger] child_indices_upto(nodes, table, k)[j]
                < k && nodes[child_indices_upto(nodes, table, k)[j] as int].parent == table,
    decreases k,
{
    if k > 0 {
        lemma_children_are_children(nodes, table, k - 1);
        let prev = child_indices_upto(nodes, table, k - 1);
        let cur = child_indices_upto(nodes, table, k);
        assert forall|j: int| 0 <= j < cur.len() implies #[trigger] cur[j] < k && nodes[cur[j] as int].parent
            == table by {
            if j < prev.len() {
                assert(cur[j] == prev[j]);
            }
        }
    }
}

/// A run starts chained.
pub proof fn lemma_initial_chained(nodes: Seq<NodeView>, root: int)
    requires
        0 <= root < nodes.len(),
    ensures
        chained(nodes, initial(nodes, root)),
{
}

/// Handing identifiers to the walk keeps it chained.
pub proof fn lemma_supply_keeps_chain(nodes: Seq<NodeView>, stack: Seq<FrameView>, ids: Seq<Seq<char>>)
    requires
        chained(nodes, stack),
    ensures
        chained(nodes, supply(stack, ids)),
{
    let r = supply(stack, ids);
    assert forall|k: int| 0 <= k < r.len() implies #[trigger] r[k].node == stack[k].node by {}
}

/// Every step of the walk keeps it chained.
pub proof fn lemma_advance_keeps_chain(nodes: Seq<NodeView>, files: Seq<FileMapping>, stack: Seq<FrameView>)
    requires
        chained(nodes, stack),
    ensures
        chained(nodes, advance(nodes, files, stack).0),
    decreases stack.len(), top_remaining(stack),
{
    if stack.len() > 0 {
        let top = stack.last();
        let rest = stack.drop_last();
        assert forall|k: int| 0 <= k < rest.len() implies #[trigger] rest[k].node == stack[k].node by {}
        match top.phase {
            PhaseView::Fresh => {
                let r = advance(nodes, files, stack).0;
                assert forall|k: int| 0 <= k < r.len() implies #[trigger] r[k].node == stack[k].node by {}
            },
            PhaseView::Waiting => {},
            PhaseView::Running { ids, id_pos, child_pos, file_done } => {
                let table = nodes[top.node as int].table;
                let children = child_indices(nodes, table);
                if id_pos < ids.len() {
                    if !file_done && file_dir(files, table) is Some {
                        let r = advance(nodes, files, stack).0;
                        assert forall|k: int| 0 <= k < r.len() implies #[trigger] r[k].node == stack[k].node by {}
                    } else if child_pos < children.len() {
                        lemma_children_are_children(nodes, table, nodes.len() as int);
                        let r = advance(nodes, files, stack).0;
                        assert(r.len() == stack.len() + 1);
                        assert forall|k: int| 0 <= k < stack.len() implies #[trigger] r[k].node == stack[k].node by {}
                        assert(r[stack.len() as int].node == children[child_pos as int]);
                        assert(chained(nodes, r)) by {
                            assert forall|k: int| 0 <= k < r.len() - 1 implies nodes[r[k + 1].node as int].parent
                                == nodes[#[trigger] r[k].node as int].table by {
                                if k < stack.len() - 1 {
                                    assert(r[k + 1].node == stack[k + 1].node);
                                }
                            }
                        }
                    } else {
                        let next = rest.push(
                            FrameView {
                                phase: PhaseView::Running {
                                    ids,
                                    id_pos: id_pos + 1,
                                    child_pos: 0,
                                    file_done: false,
                                },
                                ..top
                            },
                        );
                        assert forall|k: int| 0 <= k < next.len() implies #[trigger] next[k].node == stack[k].node by {}
                        lemma_advance_keeps_chain(nodes, files, next);
                    }
                } else if ids.len() == 0 {
                    lemma_advance_keeps_chain(nodes, files, rest);
                }
            },
        }
    }
}

/// On a workflow graph without cycles, a chained walk (every walk, by the
/// three lemmas above) never holds more frames than there are nodes.
pub proof fn lemma_depth_bounded(nodes: Seq<NodeView>, stack: Seq<FrameView>, rank: Seq<nat>)
    requires
        chained(nodes, stack),
        ranked(nodes, rank),
    ensures
        stack.len() <= nodes.len(),
{
    if stack.len() > 0 {
        assert forall|k: int| 0 <= k < stack.len() implies #[trigger] rank[stack[k].node as int] + k
            <= rank[stack[0].node as int] by {
            lemma_rank_falls(nodes, stack, rank, k);
        }
        let last = stack.len() - 1;
        assert(rank[stack[last].node as int] + last <= rank[stack[0].node as int]);
        assert(rank[stack[0].node as int] < nodes.len());
    }
}

proof fn lemma_rank_falls(nodes: Seq<NodeView>, stack: Seq<FrameView>, rank: Seq<nat>, k: int)
    requires
        chained(nodes, stack),
        ranked(nodes, rank),
        0 <= k < stack.len(),
    ensures
        rank[stack[k].node as int] + k <= rank[stack[0].node as int],
    decreases k,
{
    if k > 0 {
        lemma_rank_falls(nodes, stack, rank, k - 1);
        let i = stack[k - 1].node as int;
        let j = stack[k].node as int;
        assert(nodes[j].parent == nodes[i].table);
        assert(rank[j] < rank[i]);
    }
}

/// A depth-first cascade over a workflow graph, driven one action at a time.
pub struct Cascade {
    pub(crate) graph: WorkflowGraph,
    pub(crate) files: Vec<FileMapping>,
    pub(crate) stack: Vec<Frame>,
}

impl Cascade {
    pub open(crate) spec fn frames(&self) -> Seq<FrameView> {
        self.stack@.map_values(|f: Frame| f@)
    }

    pub open(crate) spec fn spec_nodes(&self) -> Seq<NodeView> {
        self.graph.spec_nodes()
    }

    pub open(crate) spec fn spec_files(&self) -> Seq<FileMapping> {
        self.files@
    }

    pub open(crate) spec fn wf(&self) -> bool {
        &&& self.graph.wf()
        &&& forall|i: int|
            0 <= i < self.stack@.len() ==> #[trigger] self.stack@[i].node < self.graph.spec_nodes().len()
    }

    /// A walk that starts at the root of `graph`.
    pub fn new(graph: WorkflowGraph, files: Vec<FileMapping>) -> (r: Cascade)
        requires
            graph.wf(),
        ensures
            r.wf(),
            r.spec_nodes() == graph.spec_nodes(),
            r.spec_files() == files@,
            r.frames() == initial(graph.spec_nodes(), graph.spec_root()),
    {
        let root = graph.root_index();
        let param = graph.root().params.clone();
        let mut stack: Vec<Frame> = Vec::new();
        stack.push(Frame { node: root, param, phase: Phase::Fresh });
        let r = Cascade { graph, files, stack };
        assert(r.frames() =~= initial(r.spec_nodes(), r.graph.spec_root()));
        r
    }

    /// A walk that starts at the root of `graph`, once the store's schema has
    /// been checked against `expected_hash` when one is given.
    pub fn start(
        graph: WorkflowGraph,
        files: Vec<FileMapping>,
        schema: &[TableSchema],
        expected_hash: &Option<String>,
    ) -> (r: Result<Cascade, CascadeError>)
        requires
            graph.wf(),
        ensures
            r is Err <==> (expected_hash matches Some(h) && schema_fingerprint(schema_view(schema@))
                != h@),
            r is Err ==> r matches Err(CascadeError::SchemaMismatch { .. }),
            r matches Ok(c) ==> c.wf() && c.spec_nodes() == graph.spec_nodes() && c.spec_files()
                == files@ && c.frames() == initial(graph.spec_nodes(), graph.spec_root()),
    {
        match expected_hash {
            Some(h) => match check_schema(schema, h.as_str()) {
                Err(e) => {
                    return Err(e);
                },
                Ok(()) => {},
            },
            None => {},
        }
        Ok(Cascade::new(graph, files))
    }

    /// Whether the walk waits for the identifiers of a selection.
    pub fn awaiting_ids(&self) -> (r: bool)
        ensures
            r == (self.frames().len() > 0 && self.frames().last().phase is Waiting),
    {
        let k = self.stack.len();
        if k == 0 {
            false
        } else {
            match self.stack[k - 1].phase {
                Phase::Waiting => true,
                _ => false,
            }
        }
    }

    /// Hands the identifiers of the last selection to the walk; ignored when
    /// no selection is awaited.
    pub fn supply_ids(&mut self, ids: Vec<String>)
        requires
            old(self).wf(),
        ensures
            final(self).wf(),
            final(self).spec_nodes() == old(self).spec_nodes(),
            final(self).spec_files() == old(self).spec_files(),
            final(self).frames() == supply(old(self).frames(), ids@.map_values(|s: String| s@)),
    {
        if self.awaiting_ids() {
            let top = self.stack.pop().unwrap();
            self.stack.push(
                Frame {
                    node: top.node,
                    param: top.param,
                    phase: Phase::Running { ids, id_pos: 0, child_pos: 0, file_done: false },
                },
            );
            assert(self.frames() =~= supply(old(self).frames(), ids@.map_values(|s: String| s@)));
        }
    }

    /// Carries the walk to its next action and returns that action.
    pub fn step(&mut self) -> (a: Action)
        requires
            old(self).wf(),
        ensures
            final(self).wf(),
            final(self).spec_nodes() == old(self).spec_nodes(),
            final(self).spec_files() == old(self).spec_files(),
            (final(self).frames(), a@) == advance(
                old(self).spec_nodes(),
                old(self).spec_files(),
                old(self).frames(),
            ),
    {
        let ghost nodes = self.spec_nodes();
        let ghost files = self.spec_files();
        let ghost target = advance(nodes, files, self.frames());
        loop
            invariant
                self.wf(),
                nodes == old(self).spec_nodes(),
                files == old(self).spec_files(),
                self.graph == old(self).graph,
                target == advance(nodes, files, old(self).frames()),
                self.spec_nodes() == nodes,
                self.spec_files() == files,
                advance(nodes, files, self.frames()) == target,
            decreases self.frames().len(), top_remaining(self.frames()),
        {
            let ghost before = self.frames();
            let k = self.stack.len();
            if k == 0 {
                return Action::Finished;
            }
            let top = self.stack.pop().unwrap();
            assert(self.frames() =~= before.drop_last());
            assert(top@ == before.last());
            match top.phase {
                Phase::Fresh => {
                    let p = top.param.clone();
                    self.stack.push(Frame { node: top.node, param: top.param, phase: Phase::Waiting });
                    assert(self.frames() =~= target.0);
                    return Action::Select { node: top.node, param: p };
                },
                Phase::Waiting => {
                    let p = top.param.clone();
                    self.stack.push(Frame { node: top.node, param: top.param, phase: Phase::Waiting });
                    assert(self.frames() =~= before);
                    return Action::Select { node: top.node, param: p };
                },
                Phase::Running { ids, id_pos, child_pos, file_done } => {
                    let ghost idv = ids@.map_values(|s: String| s@);
                    if id_pos < ids.len() {
                        let table = self.graph.node(top.node).table.clone();
                        if !file_done {
                            let m = find_mapping(self.files.as_slice(), table.as_str());
                            match m {
                                Some(mi) => {
                                    let path = ensure_path_within_project(
                                        self.files[mi].path.as_str(),
                                        ids[id_pos].as_str(),
                                    );
                                    self.stack.push(
                                        Frame {
                                            node: top.node,
                                            param: top.param,
                                            phase: Phase::Running {
                                                ids,
                                                id_pos,
                                                child_pos,
                                                file_done: true,
                                            },
                                        },
                                    );
                                    assert(self.frames() =~= target.0);
                                    return Action::DeleteFile { path };
                                },
                                None => {},
                            }
                        }
                        let children = self.graph.children_of(table.as_str());
                        if child_pos < children.len() {
                            let child = children[child_pos];
                            assert(child as nat == child_indices(nodes, table@)[child_pos as int]);
                            let id = ids[id_pos].clone();
                            let id2 = ids[id_pos].clone();
                            self.stack.push(
                                Frame {
                                    node: top.node,
                                    param: top.param,
                                    phase: Phase::Running {
                                        ids,
                                        id_pos,
                                        child_pos: child_pos + 1,
                                        file_done: true,
                                    },
                                },
                            );
                            self.stack.push(Frame { node: child, param: id, phase: Phase::Waiting });
                            assert(self.frames() =~= target.0);
                            return Action::Select { node: child, param: id2 };
                        }
                        self.stack.push(
                            Frame {
                                node: top.node,
                                param: top.param,
                                phase: Phase::Running {
                                    ids,
                                    id_pos: id_pos + 1,
                                    child_pos: 0,
                                    file_done: false,
                                },
                            },
                        );
                        assert(self.frames() =~= before.drop_last().push(self.frames().last()));
                    } else if ids.len() > 0 {
                        return Action::DeleteRows { node: top.node, param: top.param };
                    }
                },
            }
        }
    }
    /// Carries the walk to its next action and performs the store's part of
    /// it: a selection is run and its identifiers handed back to the walk, a
    /// bulk deletion is run. A file deletion, or the end, is returned to the
    /// caller to carry out. Beside the action comes the number of rows a bulk
    /// deletion removed (zero for any other action). On an error the walk is
    /// left just past the failed action.
    pub fn advance_with_store(&mut self, conn: &rusqlite::Connection) -> (r: Result<
        (Action, usize),
        CascadeError,
    >)
        requires
            old(self).wf(),
        ensures
            final(self).wf(),
            final(self).spec_nodes() == old(self).spec_nodes(),
            final(self).spec_files() == old(self).spec_files(),
            ({
                let next = advance(old(self).spec_nodes(), old(self).spec_files(), old(self).frames());
                &&& r is Ok ==> r->Ok_0.0@ == next.1
                &&& r is Ok && !(next.1 is DeleteRows) ==> r->Ok_0.1 == 0
                &&& r is Err ==> final(self).frames() == next.0
                &&& r is Ok && !(next.1 is Select) ==> final(self).frames() == next.0
                &&& r is Ok && next.1 is Select ==> exists|ids: Seq<Seq<char>>|
                    final(self).frames() == #[trigger] supply(next.0, ids)
                &&& r is Err ==> (next.1 is Select || next.1 is DeleteRows)
                &&& (r matches Err(CascadeError::InvalidIdentifier(_))) <==> ((next.1 is Select && !({
                    let n = old(self).spec_nodes()[next.1->Select_node as int];
                    valid_identifier(n.table) && valid_identifier(n.column) && valid_identifier(
                        n.where_clause,
                    )
                })) || (next.1 is DeleteRows && !({
                    let n = old(self).spec_nodes()[next.1->DeleteRows_node as int];
                    valid_identifier(n.table) && valid_identifier(n.where_clause)
                })))
            }),
    {
        proof {
            lemma_select_names_top(self.spec_nodes(), self.spec_files(), self.frames());
            lemma_rows_deleted_after_descendants(self.spec_nodes(), self.spec_files(), self.frames());
        }
        let ghost start = *self;
        let a = self.step();
        match &a {
            Action::Select { node, param } => {
                assert(self.frames().last().node == *node as nat);
                assert(self.stack@[self.stack@.len() - 1].node < self.spec_nodes().len());
                let found = {
                    let n = self.graph.node(*node);
                    get_value_list_from(conn, n, n.where_clause.as_str(), param.as_str())
                };
                match found {
                    Err(e) => Err(e),
                    Ok(ids) => {
                        let ghost v = ids@.map_values(|s: String| s@);
                        self.supply_ids(ids);
                        assert(self.frames() == supply(
                            advance(start.spec_nodes(), start.spec_files(), start.frames()).0,
                            v,
                        ));
                        Ok((a, 0))
                    },
                }
            },
            Action::DeleteRows { node, param } => {
                let ghost k = self.frames().len();
                assert(start.stack@[k as int].node < start.spec_nodes().len());
                let done = {
                    let n = self.graph.node(*node);
                    delete_db_entries(conn, n.table.as_str(), n.where_clause.as_str(), param.as_str())
                };
                match done {
                    Err(e) => Err(e),
                    Ok(n) => Ok((a, n)),
                }
            },
            _ => Ok((a, 0)),
        }
    }
}

} // verus!

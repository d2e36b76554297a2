//! The predicate compiler: from a forest of predicate nodes to the cursors
//! to position and the tree of joins that binds them.
//!
//! Compilation takes two steps, with the engine between them. The first
//! lists the probes: the cursors to open and position, one for each leaf
//! of the forest. The caller runs them and reports, for each, where the
//! engine landed. The second builds the join tree from the forest and those
//! reports.

use vstd::prelude::*;
use vstd::string::*;
use crate::cursor::{
    Compare, CursorSourceView, CursorView, InternalCursor, JoinConfig, cursor_views, opened,
    probed,
};
use crate::error::{GlueError, GlueErrorCode, GlueErrorView, WT_NOTFOUND, glue_error, not_found};
use crate::query_value::{
    IndexSpecView, InternalIndexSpec, Operation, QueryValue, QueryValueView, duplicate_values,
    lemma_node_view, node_views, views,
};

verus! {

/// How a probe positions its cursor.
#[derive(PartialEq, Eq, Structural, Clone, Copy, Debug)]
pub enum SearchKind {
    /// Advance once, to the first entry.
    Next,
    /// Search for the key itself.
    Exact,
    /// Search for the key or a neighbour of it, and report on which side
    /// of the key the cursor has landed.
    Near,
}

/// A cursor to open and position before the joins are made. It is opened
/// on `uri` with an empty configuration; unless it only advances, its key
/// is set to `key` before the search.
#[derive(Clone, Debug)]
pub struct Probe {
    pub uri: String,
    pub key: Vec<QueryValue>,
    pub search: SearchKind,
}

/// A probe with sequences in place of its string and its vector.
pub struct ProbeView {
    pub uri: Seq<char>,
    pub key: Seq<QueryValueView>,
    pub search: SearchKind,
}

impl View for Probe {
    type V = ProbeView;

    open spec fn view(&self) -> ProbeView {
        ProbeView { uri: self.uri@, key: views(self.key@), search: self.search }
    }
}

/// The views of a list of probes, one for one.
pub open spec fn probe_views(probes: Seq<Probe>) -> Seq<ProbeView> {
    probes.map_values(|p: Probe| p@)
}

impl IndexSpecView {
    /// Whether the node carries query values.
    pub open spec fn has_values(self) -> bool {
        self.query_values matches Some(v) && v.len() != 0
    }

    /// Whether the node carries conditions.
    pub open spec fn has_conditions(self) -> bool {
        self.sub_conditions matches Some(v) && v.len() != 0
    }

    /// A leaf carries query values and no conditions.
    pub open spec fn is_leaf(self) -> bool {
        self.has_values() && !self.has_conditions()
    }

    /// An inner node carries conditions and no query values.
    pub open spec fn is_inner(self) -> bool {
        self.has_conditions() && !self.has_values()
    }

    /// A node is valid when it is a scan of a named index, a leaf, or an
    /// inner node whose conditions are valid.
    pub open spec fn valid(self) -> bool
        decreases self,
    {
        if self.operation == Operation::INDEX {
            self.index_name is Some
        } else {
            self.is_leaf() || (self.is_inner() && forall|i: int|
                0 <= i < self.sub_conditions->0.len() ==> (
                #[trigger] self.sub_conditions->0[i]).valid())
        }
    }

    /// The URI that a leaf's cursor is opened on: the node's index, or the
    /// primary table.
    pub open spec fn probe_uri(self, table_uri: Seq<char>) -> Seq<char> {
        match self.index_name {
            Some(name) => name,
            None => table_uri,
        }
    }

    /// The probes of the node taken as a comparison or a connective: one
    /// for a leaf, those of its conditions for an inner node.
    pub open spec fn probes_as(self, op: Operation, table_uri: Seq<char>) -> Seq<ProbeView>
        decreases self, 0nat,
    {
        if self.is_leaf() {
            seq![
                ProbeView {
                    uri: self.probe_uri(table_uri),
                    key: self.query_values->0,
                    search: search_kind(op),
                },
            ]
        } else if self.is_inner() {
            probes_upto(self.sub_conditions->0, self.sub_conditions->0.len() as int, table_uri)
        } else {
            Seq::empty()
        }
    }

    /// The probes of the node, in the order in which it is compiled. A
    /// scan of an index has one probe that advances to the first entry; an
    /// inequality is probed as "greater" and then as "less".
    pub open spec fn probes(self, table_uri: Seq<char>) -> Seq<ProbeView>
        decreases self, 1nat,
    {
        match self.operation {
            Operation::INDEX => match self.index_name {
                Some(name) => seq![
                    ProbeView { uri: name, key: Seq::empty(), search: SearchKind::Next },
                ],
                None => Seq::empty(),
            },
            Operation::NE => self.probes_as(Operation::GT, table_uri) + self.probes_as(
                Operation::LT,
                table_uri,
            ),
            op => self.probes_as(op, table_uri),
        }
    }
}

/// The probes of the first `n` nodes, in order.
pub open spec fn probes_upto(nodes: Seq<IndexSpecView>, n: int, table_uri: Seq<char>) -> Seq<
    ProbeView,
>
    decreases nodes, n,
{
    if n <= 0 || n > nodes.len() {
        Seq::empty()
    } else {
        probes_upto(nodes, n - 1, table_uri) + nodes[n - 1].probes(table_uri)
    }
}

/// The probes of a forest, in the order in which it is compiled.
pub open spec fn probes_of(nodes: Seq<IndexSpecView>, table_uri: Seq<char>) -> Seq<ProbeView> {
    probes_upto(nodes, nodes.len() as int, table_uri)
}

/// Whether every node of a forest is valid.
pub open spec fn valid_specs(nodes: Seq<IndexSpecView>) -> bool {
    forall|i: int| 0 <= i < nodes.len() ==> (#[trigger] nodes[i]).valid()
}

/// How the cursor of a leaf with the given operation is positioned: an
/// equality searches for the key itself, everything else for the key or a
/// neighbour.
pub open spec fn search_kind(op: Operation) -> SearchKind {
    if op == Operation::EQ {
        SearchKind::Exact
    } else {
        SearchKind::Near
    }
}

/// The comparison under which a compiled condition is bound into its join.
pub open spec fn compare_of(op: Operation) -> Compare {
    match op {
        Operation::EQ | Operation::NE | Operation::AND | Operation::OR => Compare::Eq,
        Operation::LE => Compare::Le,
        Operation::LT => Compare::Lt,
        Operation::GE | Operation::INDEX => Compare::Ge,
        Operation::GT => Compare::Gt,
    }
}

/// Whether a positioned leaf matches nothing: a "less than" whose cursor
/// landed before the key, or a "greater than" whose cursor landed after it.
pub open spec fn matches_nothing(op: Operation, exact: i32) -> bool {
    (op == Operation::LT && exact == -1) || (op == Operation::GT && exact == 1)
}

/// The two URIs that compilation opens cursors on, besides the indexes.
pub struct Uris {
    pub table: Seq<char>,
    pub join: Seq<char>,
}

/// A compiled condition: the operation it is bound under, and its cursor
/// unless it matches nothing.
pub struct Compiled {
    pub operation: Operation,
    pub cursor: Option<CursorView>,
}

/// The binding of a condition into a join.
pub open spec fn binding_of(op: Operation, disjunction: bool) -> JoinConfig {
    JoinConfig { compare: Some(compare_of(op)), disjunction }
}

/// The binding of a nested join into the join around it.
pub open spec fn nested_binding() -> JoinConfig {
    JoinConfig { compare: None, disjunction: true }
}

/// The conditions that have a cursor, among the first `n`, in order.
pub open spec fn kept(results: Seq<Compiled>, n: int) -> Seq<Compiled>
    decreases n,
{
    if n <= 0 {
        Seq::empty()
    } else if results[n - 1].cursor is Some {
        kept(results, n - 1).push(results[n - 1])
    } else {
        kept(results, n - 1)
    }
}

/// The cursors of a conjunction, each bound under its comparison.
pub open spec fn conjuncts(conditions: Seq<Compiled>) -> Seq<CursorView> {
    Seq::new(
        conditions.len(),
        |i: int| conditions[i].cursor->0.bound(binding_of(conditions[i].operation, false)),
    )
}

/// The joins that the first `n` conditions of a disjunction are grouped
/// into: neighbours with the same operation share a join, and a change of
/// operation starts a new one.
pub open spec fn grouped(join_uri: Seq<char>, conditions: Seq<Compiled>, n: int) -> Seq<CursorView>
    decreases n,
{
    if n <= 0 {
        Seq::empty()
    } else {
        let groups = grouped(join_uri, conditions, n - 1);
        let cursor = conditions[n - 1].cursor->0.bound(
            binding_of(conditions[n - 1].operation, true),
        );
        if n >= 2 && conditions[n - 2].operation == conditions[n - 1].operation {
            groups.update(groups.len() - 1, groups.last().owning(cursor))
        } else {
            groups.push(opened(join_uri, Some(Seq::empty())).owning(cursor))
        }
    }
}

/// The joins from the `k`-th on, each owning the next as its last cursor.
pub open spec fn nested(groups: Seq<CursorView>, k: int) -> CursorView
    decreases groups.len() - k,
{
    if k < 0 || k >= groups.len() - 1 {
        groups[k]
    } else {
        groups[k].owning(nested(groups, k + 1).bound(nested_binding()))
    }
}

/// The cursor that a list of compiled conditions is joined into.
///
/// A conjunction is one join of the conditions that have a cursor, each
/// bound under its comparison; a condition that matches nothing cannot
/// restrict the join further and is left out, unless it is the only
/// condition: then the conjunction matches nothing itself. A disjunction is
/// a join of nested joins, one for each run of conditions with the same
/// operation, every binding being a union; an alternative that matches
/// nothing adds nothing, and a disjunction without any cursor matches
/// nothing itself.
pub open spec fn joined(join_uri: Seq<char>, results: Seq<Compiled>, disjunction: bool) -> Option<
    CursorView,
> {
    let conditions = kept(results, results.len() as int);
    if !disjunction {
        if results.len() == 1 && conditions.len() == 0 {
            None
        } else {
            Some(CursorView { cursors: conjuncts(conditions), ..opened(join_uri, None) })
        }
    } else if conditions.len() == 0 {
        None
    } else {
        Some(
            opened(join_uri, None).owning(
                nested(grouped(join_uri, conditions, conditions.len() as int), 0).bound(
                    nested_binding(),
                ),
            ),
        )
    }
}

impl IndexSpecView {
    /// The cursor of the node taken as a comparison or a connective, with
    /// `at` the number of its first probe: for a leaf the cursor of its
    /// probe, unless that matches nothing; for an inner node the join of
    /// its conditions, a disjunction where the operation is `OR`.
    pub open spec fn compiled_as(self, op: Operation, uris: Uris, exacts: Seq<i32>, at: int) -> Option<
        CursorView,
    >
        decreases self, 0nat,
    {
        if self.is_leaf() {
            if matches_nothing(op, exacts[at]) {
                None
            } else {
                Some(probed(at as nat))
            }
        } else if self.is_inner() {
            joined(
                uris.join,
                compiled_upto(
                    self.sub_conditions->0,
                    self.sub_conditions->0.len() as int,
                    uris,
                    exacts,
                    at,
                ),
                op == Operation::OR,
            )
        } else {
            None
        }
    }

    /// The cursor of the node, with `at` the number of its first probe. A
    /// scan of an index is the cursor of its probe. An inequality is the
    /// disjunction of "greater" and "less" over the same values.
    pub open spec fn compiled(self, uris: Uris, exacts: Seq<i32>, at: int) -> Option<CursorView>
        decreases self, 1nat,
    {
        match self.operation {
            Operation::INDEX => Some(probed(at as nat)),
            Operation::NE => joined(
                uris.join,
                seq![
                    Compiled {
                        operation: Operation::GT,
                        cursor: self.compiled_as(Operation::GT, uris, exacts, at),
                    },
                    Compiled {
                        operation: Operation::LT,
                        cursor: self.compiled_as(
                            Operation::LT,
                            uris,
                            exacts,
                            at + self.probes_as(Operation::GT, uris.table).len(),
                        ),
                    },
                ],
                true,
            ),
            op => self.compiled_as(op, uris, exacts, at),
        }
    }
}

/// The first `n` nodes compiled, with `at` the number of the first probe
/// of the first node.
pub open spec fn compiled_upto(
    nodes: Seq<IndexSpecView>,
    n: int,
    uris: Uris,
    exacts: Seq<i32>,
    at: int,
) -> Seq<Compiled>
    decreases nodes, n,
{
    if n <= 0 || n > nodes.len() {
        Seq::empty()
    } else {
        compiled_upto(nodes, n - 1, uris, exacts, at).push(
            Compiled {
                operation: nodes[n - 1].operation,
                cursor: nodes[n - 1].compiled(
                    uris,
                    exacts,
                    at + probes_upto(nodes, n - 1, uris.table).len(),
                ),
            },
        )
    }
}

/// The cursor that a forest compiles to, given where each probe landed:
/// a plain cursor on the table for an empty forest, else the join of its
/// conditions. `None` where the forest matches nothing.
pub open spec fn compiled_specs(
    nodes: Seq<IndexSpecView>,
    disjunction: bool,
    uris: Uris,
    exacts: Seq<i32>,
) -> Option<CursorView> {
    if nodes.len() == 0 {
        Some(opened(uris.table, None))
    } else {
        joined(uris.join, compiled_upto(nodes, nodes.len() as int, uris, exacts, 0), disjunction)
    }
}

/// The error for a forest that holds an invalid node.
pub open spec fn invalid_index_spec() -> GlueErrorView {
    glue_error(GlueErrorCode::InvalidIndexSpec, Seq::empty())
}

/// Tells whether a node is valid.
pub fn is_valid(node: &InternalIndexSpec) -> (b: bool)
    ensures
        b == node@.valid(),
    decreases node,
{
    proof {
        lemma_node_view(*node);
    }
    if node.operation == Operation::INDEX {
        return node.index_name.is_some();
    }
    let has_values = match &node.query_values {
        Some(v) => v.len() != 0,
        None => false,
    };
    let has_conditions = match &node.sub_conditions {
        Some(v) => v.len() != 0,
        None => false,
    };
    if has_values {
        return !has_conditions;
    }
    match &node.sub_conditions {
        Some(conditions) => {
            if conditions.len() == 0 {
                return false;
            }
            let mut i: usize = 0;
            while i < conditions.len()
                invariant
                    i <= conditions.len(),
                    node.sub_conditions == Some(*conditions),
                    node@.sub_conditions == Some(node_views(conditions@)),
                    node@.operation != Operation::INDEX,
                    !node@.has_values(),
                    node@.has_conditions(),
                    forall|j: int| 0 <= j < i ==> (#[trigger] node_views(conditions@)[j]).valid(),
                decreases conditions.len() - i,
            {
                if !is_valid(&conditions[i]) {
                    assert(!node_views(conditions@)[i as int].valid());
                    return false;
                }
                i += 1;
            }
            true
        },
        None => false,
    }
}

/// Tells whether every node of a forest is valid.
pub fn are_valid(nodes: &Vec<InternalIndexSpec>) -> (b: bool)
    ensures
        b == valid_specs(node_views(nodes@)),
{
    let mut i: usize = 0;
    while i < nodes.len()
        invariant
            i <= nodes.len(),
            forall|j: int| 0 <= j < i ==> (#[trigger] node_views(nodes@)[j]).valid(),
        decreases nodes.len() - i,
    {
        if !is_valid(&nodes[i]) {
            assert(!node_views(nodes@)[i as int].valid());
            return false;
        }
        i += 1;
    }
    true
}

/// Appends the probes of a node taken as a comparison or a connective.
fn push_probes_as(
    node: &InternalIndexSpec,
    op: Operation,
    table_cursor_uri: &str,
    probes: &mut Vec<Probe>,
)
    requires
        node@.operation != Operation::INDEX,
        node@.valid(),
    ensures
        probe_views(final(probes)@) == probe_views(old(probes)@) + node@.probes_as(
            op,
            table_cursor_uri@,
        ),
    decreases node, 0nat,
{
    proof {
        lemma_node_view(*node);
    }
    let has_values = match &node.query_values {
        Some(v) => v.len() != 0,
        None => false,
    };
    if has_values {
        let ghost before = probes@;
        let probe = Probe {
            uri: match &node.index_name {
                Some(index_name) => index_name.clone(),
                None => String::from_str(table_cursor_uri),
            },
            key: match &node.query_values {
                Some(query_values) => duplicate_values(query_values),
                None => Vec::new(),
            },
            search: if op == Operation::EQ {
                SearchKind::Exact
            } else {
                SearchKind::Near
            },
        };
        probes.push(probe);
        proof {
            assert(probe_views(probes@) =~= probe_views(before).push(probe@));
            assert(probe_views(probes@) =~= probe_views(before) + node@.probes_as(
                op,
                table_cursor_uri@,
            ));
        }
    } else {
        match &node.sub_conditions {
            Some(conditions) => {
                push_all_probes(conditions, table_cursor_uri, probes);
            },
            None => {},
        }
    }
}

/// Appends the probes of a node.
fn push_probes(node: &InternalIndexSpec, table_cursor_uri: &str, probes: &mut Vec<Probe>)
    requires
        node@.valid(),
    ensures
        probe_views(final(probes)@) == probe_views(old(probes)@) + node@.probes(table_cursor_uri@),
    decreases node, 1nat,
{
    proof {
        lemma_node_view(*node);
    }
    match node.operation {
        Operation::INDEX => {
            let ghost before = probes@;
            let probe = Probe {
                uri: match &node.index_name {
                    Some(index_name) => index_name.clone(),
                    None => String::new(),
                },
                key: Vec::new(),
                search: SearchKind::Next,
            };
            probes.push(probe);
            proof {
                assert(views(probe.key@) =~= Seq::empty());
                assert(probe_views(probes@) =~= probe_views(before).push(probe@));
                assert(probe_views(probes@) =~= probe_views(before) + node@.probes(
                    table_cursor_uri@,
                ));
            }
        },
        Operation::NE => {
            let ghost before = probe_views(probes@);
            push_probes_as(node, Operation::GT, table_cursor_uri, probes);
            push_probes_as(node, Operation::LT, table_cursor_uri, probes);
            proof {
                assert(probe_views(probes@) =~= before + node@.probes(table_cursor_uri@));
            }
        },
        op => {
            push_probes_as(node, op, table_cursor_uri, probes);
        },
    }
}

/// Appends the probes of a forest.
fn push_all_probes(nodes: &Vec<InternalIndexSpec>, table_cursor_uri: &str, probes: &mut Vec<Probe>)
    requires
        valid_specs(node_views(nodes@)),
    ensures
        probe_views(final(probes)@) == probe_views(old(probes)@) + probes_of(
            node_views(nodes@),
            table_cursor_uri@,
        ),
    decreases nodes, 0nat,
{
    let ghost specs = node_views(nodes@);
    let mut i: usize = 0;
    assert(probe_views(probes@) =~= probe_views(old(probes)@) + probes_upto(
        specs,
        0,
        table_cursor_uri@,
    ));
    while i < nodes.len()
        invariant
            i <= nodes.len(),
            specs == node_views(nodes@),
            valid_specs(specs),
            probe_views(probes@) == probe_views(old(probes)@) + probes_upto(
                specs,
                i as int,
                table_cursor_uri@,
            ),
        decreases nodes.len() - i,
    {
        let ghost before = probe_views(probes@);
        assert(specs[i as int] == nodes@[i as int]@);
        assert(specs[i as int].valid());
        push_probes(&nodes[i], table_cursor_uri, probes);
        proof {
            assert(probe_views(probes@) =~= probe_views(old(probes)@) + probes_upto(
                specs,
                i as int + 1,
                table_cursor_uri@,
            ));
        }
        i += 1;
    }
}

/// The probes of a forest of predicates: the cursors to open and position
/// before the forest can be compiled, in the order in which compilation
/// numbers them. A forest that holds an invalid node has none.
pub fn cursor_probes(table_cursor_uri: &str, index_specs: &Vec<InternalIndexSpec>) -> (r: Result<
    Vec<Probe>,
    GlueError,
>)
    ensures
        r is Ok <==> valid_specs(node_views(index_specs@)),
        r matches Ok(probes) ==> probe_views(probes@) == probes_of(
            node_views(index_specs@),
            table_cursor_uri@,
        ),
        r matches Err(e) ==> e@ == invalid_index_spec(),
{
    if !are_valid(index_specs) {
        return Err(GlueError::for_glue(GlueErrorCode::InvalidIndexSpec));
    }
    let mut probes: Vec<Probe> = Vec::new();
    push_all_probes(index_specs, table_cursor_uri, &mut probes);
    proof {
        assert(probe_views(probes@) =~= probes_of(node_views(index_specs@), table_cursor_uri@));
    }
    Ok(probes)
}

/// The view of a cursor that may be missing.
pub open spec fn cursor_option(cursor: Option<InternalCursor>) -> Option<CursorView> {
    match cursor {
        Some(c) => Some(c@),
        None => None,
    }
}

/// The conditions with a cursor depend on the conditions counted only.
pub proof fn lemma_kept_prefix(a: Seq<Compiled>, b: Seq<Compiled>, n: int)
    requires
        n <= a.len(),
        n <= b.len(),
        forall|i: int| 0 <= i < n ==> a[i] == b[i],
    ensures
        kept(a, n) == kept(b, n),
    decreases n,
{
    if n > 0 {
        lemma_kept_prefix(a, b, n - 1);
    }
}

/// The groups of the first `n` conditions depend on those conditions only.
pub proof fn lemma_grouped_prefix(join_uri: Seq<char>, a: Seq<Compiled>, b: Seq<Compiled>, n: int)
    requires
        n <= a.len(),
        n <= b.len(),
        forall|i: int| 0 <= i < n ==> a[i] == b[i],
    ensures
        grouped(join_uri, a, n) == grouped(join_uri, b, n),
    decreases n,
{
    if n > 0 {
        lemma_grouped_prefix(join_uri, a, b, n - 1);
    }
}

/// There is a group as soon as there is a condition.
pub proof fn lemma_grouped_nonempty(join_uri: Seq<char>, conditions: Seq<Compiled>, n: int)
    requires
        1 <= n,
    ensures
        grouped(join_uri, conditions, n).len() >= 1,
    decreases n,
{
    if n > 1 {
        lemma_grouped_nonempty(join_uri, conditions, n - 1);
    }
}

/// A join that is being made of compiled conditions, one at a time.
struct JoinBuilder {
    disjunction: bool,
    /// The join itself.
    join: InternalCursor,
    /// The nested joins of a disjunction that are complete.
    groups: Vec<InternalCursor>,
    /// The nested join that the next condition goes into, if it has the
    /// same operation as the last one.
    current: Option<InternalCursor>,
    last_operation: Option<Operation>,
    /// Whether exactly one condition was added, and it has no cursor.
    alone_without_cursor: bool,
    /// Whether no condition was added yet.
    fresh: bool,
    /// The conditions added so far.
    results: Ghost<Seq<Compiled>>,
}

impl JoinBuilder {
    spec fn conditions(&self) -> Seq<Compiled> {
        kept(self.results@, self.results@.len() as int)
    }

    spec fn wf(&self, join_uri: Seq<char>) -> bool {
        let conditions = self.conditions();
        &&& self.fresh == (self.results@.len() == 0)
        &&& self.alone_without_cursor == (self.results@.len() == 1 && conditions.len() == 0)
        &&& self.shaped(join_uri)
    }

    spec fn shaped(&self, join_uri: Seq<char>) -> bool {
        let conditions = self.conditions();
        if !self.disjunction {
            &&& self.join@ == (CursorView { cursors: conjuncts(conditions), ..opened(join_uri, None) })
            &&& self.groups@.len() == 0
            &&& self.current is None
        } else {
            &&& self.join@ == opened(join_uri, None)
            &&& if conditions.len() == 0 {
                &&& self.groups@.len() == 0
                &&& self.current is None
                &&& self.last_operation is None
            } else {
                &&& self.current is Some
                &&& cursor_views(self.groups@).push(self.current->0@) == grouped(
                    join_uri,
                    conditions,
                    conditions.len() as int,
                )
                &&& self.last_operation == Some(conditions.last().operation)
            }
        }
    }

    fn new(join_cursor_uri: &str, disjunction: bool) -> (b: Self)
        ensures
            b.wf(join_cursor_uri@),
            b.disjunction == disjunction,
            b.results@ == Seq::<Compiled>::empty(),
    {
        let b = JoinBuilder {
            disjunction,
            join: InternalCursor::new(String::from_str(join_cursor_uri), None),
            groups: Vec::new(),
            current: None,
            last_operation: None,
            alone_without_cursor: false,
            fresh: true,
            results: Ghost(Seq::empty()),
        };
        proof {
            assert(conjuncts(b.conditions()) =~= Seq::empty());
        }
        b
    }

    /// Adds a compiled condition: binds its cursor, if it has one.
    fn add(&mut self, join_cursor_uri: &str, operation: Operation, cursor: Option<InternalCursor>)
        requires
            old(self).wf(join_cursor_uri@),
        ensures
            final(self).wf(join_cursor_uri@),
            final(self).disjunction == old(self).disjunction,
            final(self).results@ == old(self).results@.push(
                Compiled { operation, cursor: cursor_option(cursor) },
            ),
    {
        let ghost before = self.results@;
        let ghost added = Compiled { operation, cursor: cursor_option(cursor) };
        let ghost after = before.push(added);
        let ghost conditions = self.conditions();
        proof {
            lemma_kept_prefix(before, after, before.len() as int);
        }
        self.results = Ghost(after);
        self.alone_without_cursor = self.fresh && cursor.is_none();
        self.fresh = false;
        match cursor {
            None => {},
            Some(cursor) => {
                let ghost next = conditions.push(added);
                assert(self.conditions() == next);
                if !self.disjunction {
                    self.join.own_joined_cursor(
                        cursor,
                        JoinConfig { compare: Some(compare_for(operation)), disjunction: false },
                    );
                    proof {
                        assert(self.join@.cursors =~= conjuncts(next));
                    }
                } else {
                    let ghost join_uri = join_cursor_uri@;
                    let ghost groups = grouped(join_uri, conditions, conditions.len() as int);
                    proof {
                        lemma_grouped_prefix(join_uri, conditions, next, conditions.len() as int);
                        if conditions.len() > 0 {
                            lemma_grouped_nonempty(join_uri, conditions, conditions.len() as int);
                        }
                    }
                    let same = match self.last_operation {
                        Some(last) => last == operation,
                        None => false,
                    };
                    let ghost closed = cursor_views(self.groups@);
                    let mut group = match self.current.take() {
                        Some(group) => {
                            if same {
                                group
                            } else {
                                self.groups.push(group);
                                proof {
                                    assert(cursor_views(self.groups@) =~= closed.push(group@));
                                }
                                InternalCursor::new(
                                    String::from_str(join_cursor_uri),
                                    Some(String::new()),
                                )
                            }
                        },
                        None => InternalCursor::new(
                            String::from_str(join_cursor_uri),
                            Some(String::new()),
                        ),
                    };
                    group.own_joined_cursor(
                        cursor,
                        JoinConfig { compare: Some(compare_for(operation)), disjunction: true },
                    );
                    proof {
                        assert(cursor_views(self.groups@).push(group@) =~= grouped(
                            join_uri,
                            next,
                            next.len() as int,
                        ));
                    }
                    self.current = Some(group);
                    self.last_operation = Some(operation);
                }
            },
        }
    }

    /// The join of the conditions added.
    fn finish(self, join_cursor_uri: &str) -> (r: Option<InternalCursor>)
        requires
            self.wf(join_cursor_uri@),
        ensures
            cursor_option(r) == joined(join_cursor_uri@, self.results@, self.disjunction),
    {
        let ghost conditions = self.conditions();
        let ghost all = grouped(join_cursor_uri@, conditions, conditions.len() as int);
        let mut join = self.join;
        if !self.disjunction {
            if self.alone_without_cursor {
                return None;
            }
            return Some(join);
        }
        let mut groups = self.groups;
        match self.current {
            None => None,
            Some(current) => {
                let mut tail = current;
                while groups.len() > 0
                    invariant
                        groups@.len() < all.len(),
                        cursor_views(groups@) == all.take(groups@.len() as int),
                        tail@ == nested(all, groups@.len() as int),
                    decreases groups.len(),
                {
                    let ghost k = groups@.len() as int;
                    let ghost remaining = cursor_views(groups@);
                    let mut group = match groups.pop() {
                        Some(group) => group,
                        None => InternalCursor::empty(),
                    };
                    assert(group@ == remaining[k - 1]);
                    group.own_joined_cursor(tail, JoinConfig { compare: None, disjunction: true });
                    tail = group;
                    proof {
                        assert(cursor_views(groups@) =~= all.take(k - 1));
                    }
                }
                join.own_joined_cursor(tail, JoinConfig { compare: None, disjunction: true });
                Some(join)
            },
        }
    }
}

/// The comparison under which a compiled condition is bound into its join.
pub fn compare_for(operation: Operation) -> (c: Compare)
    ensures
        c == compare_of(operation),
{
    match operation {
        Operation::EQ | Operation::NE | Operation::AND | Operation::OR => Compare::Eq,
        Operation::LE => Compare::Le,
        Operation::LT => Compare::Lt,
        Operation::GE | Operation::INDEX => Compare::Ge,
        Operation::GT => Compare::Gt,
    }
}

/// More nodes have at least as many probes.
pub proof fn lemma_probes_upto_grow(nodes: Seq<IndexSpecView>, n: int, m: int, table_uri: Seq<char>)
    requires
        0 <= n <= m <= nodes.len(),
    ensures
        probes_upto(nodes, n, table_uri).len() <= probes_upto(nodes, m, table_uri).len(),
    decreases m - n,
{
    if n < m {
        lemma_probes_upto_grow(nodes, n, m - 1, table_uri);
    }
}

/// The number of probes of a node does not depend on what it is taken as.
pub proof fn lemma_probes_as_len(
    node: IndexSpecView,
    a: Operation,
    b: Operation,
    table_uri: Seq<char>,
)
    ensures
        node.probes_as(a, table_uri).len() == node.probes_as(b, table_uri).len(),
{
}

/// A sum of two counts, unless it is too large to be held.
fn add_counts(a: Option<usize>, b: Option<usize>) -> (r: Option<usize>)
    ensures
        r matches Some(n) ==> a is Some && b is Some && n == a->0 + b->0,
        r is None ==> a is None || b is None || a->0 + b->0 > usize::MAX,
{
    match (a, b) {
        (Some(x), Some(y)) => if x > usize::MAX - y {
            None
        } else {
            Some(x + y)
        },
        _ => None,
    }
}

/// The number of probes of a node taken as a comparison or a connective;
/// `None` where it is too large to be held.
fn count_probes_as(node: &InternalIndexSpec, table_cursor_uri: &str) -> (r: Option<usize>)
    requires
        node@.operation != Operation::INDEX,
        node@.valid(),
    ensures
        r matches Some(n) ==> n == node@.probes_as(Operation::EQ, table_cursor_uri@).len(),
        r is None ==> node@.probes_as(Operation::EQ, table_cursor_uri@).len() > usize::MAX,
    decreases node, 0nat,
{
    proof {
        lemma_node_view(*node);
    }
    let has_values = match &node.query_values {
        Some(v) => v.len() != 0,
        None => false,
    };
    if has_values {
        Some(1)
    } else {
        match &node.sub_conditions {
            Some(conditions) => count_probes(conditions, table_cursor_uri),
            None => Some(0),
        }
    }
}

/// The number of probes of a node; `None` where it is too large to be
/// held.
fn count_node_probes(node: &InternalIndexSpec, table_cursor_uri: &str) -> (r: Option<usize>)
    requires
        node@.valid(),
    ensures
        r matches Some(n) ==> n == node@.probes(table_cursor_uri@).len(),
        r is None ==> node@.probes(table_cursor_uri@).len() > usize::MAX,
    decreases node, 1nat,
{
    proof {
        lemma_node_view(*node);
        lemma_probes_as_len(node@, Operation::EQ, Operation::GT, table_cursor_uri@);
        lemma_probes_as_len(node@, Operation::EQ, Operation::LT, table_cursor_uri@);
        lemma_probes_as_len(node@, Operation::EQ, node@.operation, table_cursor_uri@);
    }
    match node.operation {
        Operation::INDEX => Some(1),
        Operation::NE => {
            let half = count_probes_as(node, table_cursor_uri);
            add_counts(half, half)
        },
        _ => count_probes_as(node, table_cursor_uri),
    }
}

/// The number of probes of a forest; `None` where it is too large to be
/// held.
fn count_probes(nodes: &Vec<InternalIndexSpec>, table_cursor_uri: &str) -> (r: Option<usize>)
    requires
        valid_specs(node_views(nodes@)),
    ensures
        r matches Some(n) ==> n == probes_of(node_views(nodes@), table_cursor_uri@).len(),
        r is None ==> probes_of(node_views(nodes@), table_cursor_uri@).len() > usize::MAX,
    decreases nodes, 0nat,
{
    let ghost specs = node_views(nodes@);
    let mut total: usize = 0;
    let mut i: usize = 0;
    while i < nodes.len()
        invariant
            i <= nodes.len(),
            specs == node_views(nodes@),
            valid_specs(specs),
            total == probes_upto(specs, i as int, table_cursor_uri@).len(),
        decreases nodes.len() - i,
    {
        assert(specs[i as int] == nodes@[i as int]@);
        assert(specs[i as int].valid());
        proof {
            lemma_probes_upto_grow(specs, i as int + 1, specs.len() as int, table_cursor_uri@);
        }
        match add_counts(Some(total), count_node_probes(&nodes[i], table_cursor_uri)) {
            Some(sum) => {
                total = sum;
            },
            None => {
                return None;
            },
        }
        i += 1;
    }
    Some(total)
}

/// Compiles a node taken as a comparison or a connective. Returns its
/// cursor, unless it matches nothing, and the number of the next probe.
fn compile_as(
    node: &InternalIndexSpec,
    op: Operation,
    table_cursor_uri: &str,
    join_cursor_uri: &str,
    exacts: &Vec<i32>,
    at: usize,
) -> (r: (Option<InternalCursor>, usize))
    requires
        node@.operation != Operation::INDEX,
        node@.valid(),
        at + node@.probes_as(op, table_cursor_uri@).len() <= exacts@.len(),
    ensures
        r.1 == at + node@.probes_as(op, table_cursor_uri@).len(),
        cursor_option(r.0) == node@.compiled_as(
            op,
            Uris { table: table_cursor_uri@, join: join_cursor_uri@ },
            exacts@,
            at as int,
        ),
    decreases node, 0nat,
{
    proof {
        lemma_node_view(*node);
    }
    let has_values = match &node.query_values {
        Some(v) => v.len() != 0,
        None => false,
    };
    if has_values {
        assert(node@.is_leaf());
        assert(node@.probes_as(op, table_cursor_uri@).len() == 1);
        let given = exacts.len();
        assert(at < given);
        let exact = exacts[at];
        if (op == Operation::LT && exact == -1) || (op == Operation::GT && exact == 1) {
            (None, at + 1)
        } else {
            (Some(InternalCursor::for_probe(at)), at + 1)
        }
    } else {
        match &node.sub_conditions {
            Some(conditions) => compile_all(
                conditions,
                op == Operation::OR,
                table_cursor_uri,
                join_cursor_uri,
                exacts,
                at,
            ),
            None => (None, at),
        }
    }
}

/// Compiles a single condition. Returns its cursor, unless it matches
/// nothing, and the number of the next probe.
fn cursor_for_index_spec(
    node: &InternalIndexSpec,
    table_cursor_uri: &str,
    join_cursor_uri: &str,
    exacts: &Vec<i32>,
    at: usize,
) -> (r: (Option<InternalCursor>, usize))
    requires
        node@.valid(),
        at + node@.probes(table_cursor_uri@).len() <= exacts@.len(),
    ensures
        r.1 == at + node@.probes(table_cursor_uri@).len(),
        cursor_option(r.0) == node@.compiled(
            Uris { table: table_cursor_uri@, join: join_cursor_uri@ },
            exacts@,
            at as int,
        ),
    decreases node, 1nat,
{
    proof {
        lemma_node_view(*node);
    }
    match node.operation {
        Operation::INDEX => {
            assert(node@.probes(table_cursor_uri@).len() == 1);
            let given = exacts.len();
            assert(at < given);
            (Some(InternalCursor::for_probe(at)), at + 1)
        },
        Operation::NE => {
            let (greater, middle) = compile_as(
                node,
                Operation::GT,
                table_cursor_uri,
                join_cursor_uri,
                exacts,
                at,
            );
            let (less, end) = compile_as(
                node,
                Operation::LT,
                table_cursor_uri,
                join_cursor_uri,
                exacts,
                middle,
            );
            let mut builder = JoinBuilder::new(join_cursor_uri, true);
            builder.add(join_cursor_uri, Operation::GT, greater);
            builder.add(join_cursor_uri, Operation::LT, less);
            proof {
                assert(builder.results@ =~= seq![
                    Compiled { operation: Operation::GT, cursor: cursor_option(greater) },
                    Compiled { operation: Operation::LT, cursor: cursor_option(less) },
                ]);
            }
            (builder.finish(join_cursor_uri), end)
        },
        op => compile_as(node, op, table_cursor_uri, join_cursor_uri, exacts, at),
    }
}

/// Compiles the conditions of an inner node, or a forest that is not
/// empty, into one join. Returns its cursor, unless it matches nothing,
/// and the number of the next probe.
fn compile_all(
    nodes: &Vec<InternalIndexSpec>,
    disjunction: bool,
    table_cursor_uri: &str,
    join_cursor_uri: &str,
    exacts: &Vec<i32>,
    at: usize,
) -> (r: (Option<InternalCursor>, usize))
    requires
        valid_specs(node_views(nodes@)),
        at + probes_of(node_views(nodes@), table_cursor_uri@).len() <= exacts@.len(),
    ensures
        r.1 == at + probes_of(node_views(nodes@), table_cursor_uri@).len(),
        cursor_option(r.0) == joined(
            join_cursor_uri@,
            compiled_upto(
                node_views(nodes@),
                nodes@.len() as int,
                Uris { table: table_cursor_uri@, join: join_cursor_uri@ },
                exacts@,
                at as int,
            ),
            disjunction,
        ),
    decreases nodes, 0nat,
{
    let ghost specs = node_views(nodes@);
    let ghost uris = Uris { table: table_cursor_uri@, join: join_cursor_uri@ };
    let mut builder = JoinBuilder::new(join_cursor_uri, disjunction);
    let mut next = at;
    let mut i: usize = 0;
    while i < nodes.len()
        invariant
            i <= nodes.len(),
            specs == node_views(nodes@),
            uris == (Uris { table: table_cursor_uri@, join: join_cursor_uri@ }),
            valid_specs(specs),
            at + probes_of(specs, table_cursor_uri@).len() <= exacts@.len(),
            next == at + probes_upto(specs, i as int, table_cursor_uri@).len(),
            builder.wf(join_cursor_uri@),
            builder.disjunction == disjunction,
            builder.results@ == compiled_upto(specs, i as int, uris, exacts@, at as int),
        decreases nodes.len() - i,
    {
        assert(specs[i as int] == nodes@[i as int]@);
        assert(specs[i as int].valid());
        proof {
            lemma_probes_upto_grow(specs, i as int + 1, specs.len() as int, table_cursor_uri@);
        }
        let (cursor, after) = cursor_for_index_spec(&nodes[i], table_cursor_uri, join_cursor_uri, exacts, next);
        builder.add(join_cursor_uri, nodes[i].operation, cursor);
        proof {
            lemma_node_view(nodes@[i as int]);
        }
        next = after;
        i += 1;
    }
    (builder.finish(join_cursor_uri), next)
}

/// What the compilation of a forest comes to, given where each probe
/// landed. A forest that holds an invalid node is rejected, and so is a
/// list of landings that is not as long as the list of probes; a forest
/// that matches nothing gives the engine's "no such row".
pub open spec fn compile_outcome(
    nodes: Seq<IndexSpecView>,
    disjunction: bool,
    uris: Uris,
    exacts: Seq<i32>,
) -> Result<CursorView, GlueErrorView> {
    if !valid_specs(nodes) {
        Err(invalid_index_spec())
    } else if exacts.len() != probes_of(nodes, uris.table).len() {
        Err(glue_error(GlueErrorCode::InvalidLength, "exacts"@))
    } else {
        match compiled_specs(nodes, disjunction, uris, exacts) {
            Some(cursor) => Ok(cursor),
            None => Err(not_found()),
        }
    }
}

/// Compiles a forest of sibling predicates into one cursor, given where
/// each of its probes landed: `exacts` holds, for each probe in order, what
/// the engine reported of its position (-1 before the key, 0 on it, 1 after
/// it; 0 for a probe that does not search near its key).
pub fn cursor_for_index_specs(
    table_cursor_uri: &str,
    join_cursor_uri: &str,
    index_specs: &Vec<InternalIndexSpec>,
    disjunction: bool,
    exacts: &Vec<i32>,
) -> (r: Result<InternalCursor, GlueError>)
    ensures
        match compile_outcome(
            node_views(index_specs@),
            disjunction,
            Uris { table: table_cursor_uri@, join: join_cursor_uri@ },
            exacts@,
        ) {
            Ok(cursor) => r matches Ok(c) && c@ == cursor,
            Err(error) => r matches Err(e) && e@ == error,
        },
{
    if !are_valid(index_specs) {
        return Err(GlueError::for_glue(GlueErrorCode::InvalidIndexSpec));
    }
    let given = exacts.len();
    let expected = match count_probes(index_specs, table_cursor_uri) {
        Some(n) => given == n,
        None => false,
    };
    if !expected {
        return Err(
            GlueError::for_glue_with_extra(GlueErrorCode::InvalidLength, String::from_str("exacts")),
        );
    }
    if index_specs.len() == 0 {
        return Ok(InternalCursor::new(String::from_str(table_cursor_uri), None));
    }
    match compile_all(index_specs, disjunction, table_cursor_uri, join_cursor_uri, exacts, 0).0 {
        Some(cursor) => Ok(cursor),
        None => Err(GlueError::for_wiredtiger(WT_NOTFOUND)),
    }
}

/// The rows that the first `n` cursors of a conjunction leave of `rows`.
pub open spec fn meet_upto<K>(
    cursors: Seq<CursorView>,
    n: int,
    probe_rows: spec_fn(nat) -> Set<K>,
    table: Set<K>,
    rows: Set<K>,
) -> Set<K>
    decreases cursors, n, 0nat,
{
    if n <= 0 || n > cursors.len() {
        rows
    } else {
        meet_upto(cursors, n - 1, probe_rows, table, rows).intersect(
            rows_of(cursors[n - 1], probe_rows, table),
        )
    }
}

/// The rows that the first `n` cursors of a disjunction yield together.
pub open spec fn union_upto<K>(
    cursors: Seq<CursorView>,
    n: int,
    probe_rows: spec_fn(nat) -> Set<K>,
    table: Set<K>,
) -> Set<K>
    decreases cursors, n, 0nat,
{
    if n <= 0 || n > cursors.len() {
        Set::empty()
    } else {
        union_upto(cursors, n - 1, probe_rows, table).union(
            rows_of(cursors[n - 1], probe_rows, table),
        )
    }
}

/// The rows that a cursor tree stands for, where `probe_rows` gives the
/// rows that the positioned cursor of each probe admits under its binding
/// and `table` the rows of the primary table. This is the reading of the
/// engine's joins that the compiler relies on: a cursor that owns nothing
/// stands for the rows of its probe, or for the whole table; a join whose
/// cursors are bound as unions stands for the union of their rows; any
/// other join for the rows of the table that all its cursors admit.
pub open spec fn rows_of<K>(
    cursor: CursorView,
    probe_rows: spec_fn(nat) -> Set<K>,
    table: Set<K>,
) -> Set<K>
    decreases cursor, 0nat, 1nat,
{
    match cursor.source {
        CursorSourceView::Probe { probe } => probe_rows(probe),
        CursorSourceView::Open { .. } => if cursor.cursors.len() == 0 {
            table
        } else if cursor.cursors[0].binding matches Some(b) && b.disjunction {
            union_upto(cursor.cursors, cursor.cursors.len() as int, probe_rows, table)
        } else {
            meet_upto(cursor.cursors, cursor.cursors.len() as int, probe_rows, table, table)
        },
    }
}

/// Whether each node of a forest is a leaf with a comparison for its
/// operation.
pub open spec fn plain_leaves(nodes: Seq<IndexSpecView>) -> bool {
    forall|i: int|
        0 <= i < nodes.len() ==> (#[trigger] nodes[i]).is_leaf() && nodes[i].operation
            != Operation::INDEX && nodes[i].operation != Operation::NE
}

/// A forest of plain leaves has one probe for each leaf.
pub proof fn lemma_leaves_probes(nodes: Seq<IndexSpecView>, n: int, table_uri: Seq<char>)
    requires
        plain_leaves(nodes),
        0 <= n <= nodes.len(),
    ensures
        probes_upto(nodes, n, table_uri).len() == n,
    decreases n,
{
    if n > 0 {
        lemma_leaves_probes(nodes, n - 1, table_uri);
        lemma_leaf(nodes[n - 1], table_uri);
    }
}

/// A plain leaf has one probe, and its cursor is that of the probe unless
/// the probe shows that it matches nothing.
pub proof fn lemma_leaf(node: IndexSpecView, table_uri: Seq<char>)
    requires
        node.is_leaf(),
        node.operation != Operation::INDEX,
        node.operation != Operation::NE,
    ensures
        node.valid(),
        node.probes(table_uri).len() == 1,
        forall|uris: Uris, exacts: Seq<i32>, at: int| #[trigger]
            node.compiled(uris, exacts, at) == (if matches_nothing(node.operation, exacts[at]) {
                None
            } else {
                Some(probed(at as nat))
            }),
{
    assert(node.probes(table_uri) == node.probes_as(node.operation, table_uri));
    assert(node.probes_as(node.operation, table_uri).len() == 1);
    assert forall|uris: Uris, exacts: Seq<i32>, at: int| #[trigger]
        node.compiled(uris, exacts, at) == (if matches_nothing(node.operation, exacts[at]) {
            None
        } else {
            Some(probed(at as nat))
        }) by {
        assert(node.compiled(uris, exacts, at) == node.compiled_as(
            node.operation,
            uris,
            exacts,
            at,
        ));
    }
}

/// A forest of plain leaves compiles leaf by leaf: each leaf has the
/// cursor of the probe with its own number, unless it matches nothing.
pub proof fn lemma_leaves_compiled(
    nodes: Seq<IndexSpecView>,
    n: int,
    uris: Uris,
    exacts: Seq<i32>,
)
    requires
        plain_leaves(nodes),
        0 <= n <= nodes.len(),
    ensures
        compiled_upto(nodes, n, uris, exacts, 0).len() == n,
        forall|i: int|
            0 <= i < n ==> #[trigger] compiled_upto(nodes, n, uris, exacts, 0)[i] == (Compiled {
                operation: nodes[i].operation,
                cursor: if matches_nothing(nodes[i].operation, exacts[i]) {
                    None
                } else {
                    Some(probed(i as nat))
                },
            }),
    decreases n,
{
    if n > 0 {
        lemma_leaves_compiled(nodes, n - 1, uris, exacts);
        lemma_leaves_probes(nodes, n - 1, uris.table);
        lemma_leaf(nodes[n - 1], uris.table);
        let now = compiled_upto(nodes, n, uris, exacts, 0);
        let before = compiled_upto(nodes, n - 1, uris, exacts, 0);
        assert(now == before.push(
            Compiled {
                operation: nodes[n - 1].operation,
                cursor: nodes[n - 1].compiled(uris, exacts, n - 1),
            },
        ));
        assert forall|i: int| 0 <= i < n implies #[trigger] now[i] == (Compiled {
            operation: nodes[i].operation,
            cursor: if matches_nothing(nodes[i].operation, exacts[i]) {
                None
            } else {
                Some(probed(i as nat))
            },
        }) by {
            if i < n - 1 {
                assert(now[i] == before[i]);
            }
        }
    }
}

/// The rows that a conjunction leaves are those that every one of its
/// conditions with a cursor admits.
pub proof fn lemma_conjunction_rows<K>(
    results: Seq<Compiled>,
    n: int,
    probe_rows: spec_fn(nat) -> Set<K>,
    table: Set<K>,
    k: K,
)
    requires
        0 <= n <= results.len(),
    ensures
        conjuncts(kept(results, n)).len() == kept(results, n).len(),
        meet_upto(
            conjuncts(kept(results, n)),
            kept(results, n).len() as int,
            probe_rows,
            table,
            table,
        ).contains(k) <==> table.contains(k) && forall|i: int|
            0 <= i < n && (#[trigger] results[i]).cursor is Some ==> rows_of(
                results[i].cursor->0.bound(binding_of(results[i].operation, false)),
                probe_rows,
                table,
            ).contains(k),
    decreases n,
{
    if n > 0 {
        lemma_conjunction_rows(results, n - 1, probe_rows, table, k);
        let before = kept(results, n - 1);
        let now = kept(results, n);
        if results[n - 1].cursor is Some {
            assert(now == before.push(results[n - 1]));
            lemma_meet_prefix(
                conjuncts(before),
                conjuncts(now),
                before.len() as int,
                probe_rows,
                table,
                table,
            );
        }
    }
}

/// The rows that the first `n` cursors of a conjunction leave depend on
/// those cursors only.
pub proof fn lemma_meet_prefix<K>(
    a: Seq<CursorView>,
    b: Seq<CursorView>,
    n: int,
    probe_rows: spec_fn(nat) -> Set<K>,
    table: Set<K>,
    rows: Set<K>,
)
    requires
        0 <= n <= a.len(),
        n <= b.len(),
        forall|i: int| 0 <= i < n ==> a[i] == b[i],
    ensures
        meet_upto(a, n, probe_rows, table, rows) == meet_upto(b, n, probe_rows, table, rows),
    decreases n,
{
    if n > 0 {
        lemma_meet_prefix(a, b, n - 1, probe_rows, table, rows);
    }
}

/// A conjunction of comparisons yields the rows of the table that every
/// comparison admits which has not been found to match nothing: a
/// comparison whose probe landed on the wrong side of its key is left out
/// of the join and narrows nothing. (A comparison that stands alone and
/// matches nothing is no such conjunction: it matches nothing.)
pub proof fn lemma_conjunction_of_leaves<K>(
    nodes: Seq<IndexSpecView>,
    uris: Uris,
    exacts: Seq<i32>,
    probe_rows: spec_fn(nat) -> Set<K>,
    table: Set<K>,
    k: K,
)
    requires
        plain_leaves(nodes),
        exacts.len() == nodes.len(),
        !(nodes.len() == 1 && matches_nothing(nodes[0].operation, exacts[0])),
    ensures
        compile_outcome(nodes, false, uris, exacts) is Ok,
        rows_of(compile_outcome(nodes, false, uris, exacts)->Ok_0, probe_rows, table).contains(k)
            <==> table.contains(k) && forall|i: int|
            0 <= i < nodes.len() && !matches_nothing((#[trigger] nodes[i]).operation, exacts[i])
                ==> probe_rows(i as nat).contains(k),
{
    let n = nodes.len() as int;
    assert forall|i: int| 0 <= i < nodes.len() implies (#[trigger] nodes[i]).valid() by {
        lemma_leaf(nodes[i], uris.table);
    }
    lemma_leaves_probes(nodes, n, uris.table);
    lemma_leaves_compiled(nodes, n, uris, exacts);
    let results = compiled_upto(nodes, n, uris, exacts, 0);
    lemma_conjunction_rows(results, n, probe_rows, table, k);
    let outcome = compile_outcome(nodes, false, uris, exacts);
    let admitted = forall|i: int|
        0 <= i < nodes.len() && !matches_nothing((#[trigger] nodes[i]).operation, exacts[i])
            ==> probe_rows(i as nat).contains(k);
    let bound_admit = forall|i: int|
        0 <= i < n && (#[trigger] results[i]).cursor is Some ==> rows_of(
            results[i].cursor->0.bound(binding_of(results[i].operation, false)),
            probe_rows,
            table,
        ).contains(k);
    if n == 0 {
        assert(outcome == Ok::<CursorView, GlueErrorView>(opened(uris.table, None)));
    } else {
        let conditions = kept(results, n);
        let join = CursorView { cursors: conjuncts(conditions), ..opened(uris.join, None) };
        assert(outcome == Ok::<CursorView, GlueErrorView>(join));
        if conditions.len() > 0 {
            assert(conjuncts(conditions)[0].binding == Some(
                binding_of(conditions[0].operation, false),
            ));
        }
        assert(rows_of(join, probe_rows, table) == meet_upto(
            conjuncts(conditions),
            conditions.len() as int,
            probe_rows,
            table,
            table,
        ));
        if admitted {
            assert forall|i: int| 0 <= i < n && (#[trigger] results[i]).cursor is Some implies rows_of(
                results[i].cursor->0.bound(binding_of(results[i].operation, false)),
                probe_rows,
                table,
            ).contains(k) by {
                assert(!matches_nothing(nodes[i].operation, exacts[i]));
                assert(results[i].cursor->0 == probed(i as nat));
            }
        }
        if bound_admit {
            assert forall|i: int|
                0 <= i < nodes.len() && !matches_nothing(
                    (#[trigger] nodes[i]).operation,
                    exacts[i],
                ) implies probe_rows(i as nat).contains(k) by {
                assert(results[i].cursor == Some(probed(i as nat)));
                assert(rows_of(
                    results[i].cursor->0.bound(binding_of(results[i].operation, false)),
                    probe_rows,
                    table,
                ).contains(k));
            }
        }
    }
}

/// A conjunction of equalities yields exactly the rows that every one of
/// them matches: the intersection of the match sets of its leaves.
pub proof fn lemma_equalities_intersect<K>(
    nodes: Seq<IndexSpecView>,
    uris: Uris,
    exacts: Seq<i32>,
    probe_rows: spec_fn(nat) -> Set<K>,
    table: Set<K>,
    k: K,
)
    requires
        forall|i: int|
            0 <= i < nodes.len() ==> (#[trigger] nodes[i]).is_leaf() && nodes[i].operation
                == Operation::EQ,
        exacts.len() == nodes.len(),
    ensures
        compile_outcome(nodes, false, uris, exacts) is Ok,
        rows_of(compile_outcome(nodes, false, uris, exacts)->Ok_0, probe_rows, table).contains(k)
            <==> table.contains(k) && forall|i: int|
            0 <= i < nodes.len() ==> (#[trigger] probe_rows(i as nat)).contains(k),
{
    assert forall|i: int| 0 <= i < nodes.len() implies (#[trigger] nodes[i]).is_leaf()
        && nodes[i].operation != Operation::INDEX && nodes[i].operation != Operation::NE by {
        assert(nodes[i].operation == Operation::EQ);
    }
    lemma_conjunction_of_leaves(nodes, uris, exacts, probe_rows, table, k);
    assert forall|i: int| 0 <= i < nodes.len() implies !matches_nothing(
        (#[trigger] nodes[i]).operation,
        exacts[i],
    ) by {}
    if forall|i: int| 0 <= i < nodes.len() ==> (#[trigger] probe_rows(i as nat)).contains(k) {
        assert forall|i: int|
            0 <= i < nodes.len() && !matches_nothing(
                (#[trigger] nodes[i]).operation,
                exacts[i],
            ) implies probe_rows(i as nat).contains(k) by {
            assert(probe_rows(i as nat).contains(k));
        }
    }
    if forall|i: int|
        0 <= i < nodes.len() && !matches_nothing((#[trigger] nodes[i]).operation, exacts[i])
            ==> probe_rows(i as nat).contains(k) {
        assert forall|i: int| 0 <= i < nodes.len() implies (#[trigger] probe_rows(
            i as nat,
        )).contains(k) by {
            assert(!matches_nothing(nodes[i].operation, exacts[i]));
        }
    }
}

/// An inequality over a leaf is the union of its two sides: its cursor
/// yields the rows that the "greater" probe admits together with those
/// that the "less" probe admits, a side that matches nothing adding none.
/// With both sides matching nothing the inequality matches nothing.
pub proof fn lemma_inequality_rows<K>(
    node: IndexSpecView,
    uris: Uris,
    exacts: Seq<i32>,
    at: int,
    probe_rows: spec_fn(nat) -> Set<K>,
    table: Set<K>,
)
    requires
        node.is_leaf(),
        node.operation == Operation::NE,
        0 <= at,
        at + 1 < exacts.len(),
    ensures
        node.probes(uris.table).len() == 2,
        node.compiled(uris, exacts, at) is None <==> exacts[at] == 1 && exacts[at + 1] == -1,
        node.compiled(uris, exacts, at) matches Some(cursor) ==> rows_of(cursor, probe_rows, table)
            == (if exacts[at] == 1 {
            Set::empty()
        } else {
            probe_rows(at as nat)
        }).union(
            if exacts[at + 1] == -1 {
                Set::empty()
            } else {
                probe_rows((at + 1) as nat)
            },
        ),
{
    reveal_with_fuel(kept, 3);
    reveal_with_fuel(grouped, 3);
    reveal_with_fuel(nested, 3);
    let greater = node.compiled_as(Operation::GT, uris, exacts, at);
    let less = node.compiled_as(Operation::LT, uris, exacts, at + 1);
    assert(node.probes_as(Operation::GT, uris.table).len() == 1);
    assert(node.probes_as(Operation::LT, uris.table).len() == 1);
    let results = seq![
        Compiled { operation: Operation::GT, cursor: greater },
        Compiled { operation: Operation::LT, cursor: less },
    ];
    assert(node.compiled(uris, exacts, at) == joined(uris.join, results, true));
    let conditions = kept(results, 2);
    let gt = probed(at as nat).bound(binding_of(Operation::GT, true));
    let lt = probed((at + 1) as nat).bound(binding_of(Operation::LT, true));
    let nb = nested_binding();
    let fresh = opened(uris.join, Some(Seq::<char>::empty()));
    assert(rows_of(gt, probe_rows, table) == probe_rows(at as nat));
    assert(rows_of(lt, probe_rows, table) == probe_rows((at + 1) as nat));
    if greater is Some && less is Some {
        assert(conditions =~= results);
        let groups = grouped(uris.join, conditions, 2);
        assert(groups =~= seq![fresh.owning(gt), fresh.owning(lt)]);
        let inner = fresh.owning(lt).bound(nb);
        let outer = fresh.owning(gt).owning(inner);
        assert(nested(groups, 0) == outer);
        assert(fresh.owning(lt).bound(nb).cursors =~= seq![lt]);
        lemma_union_one(fresh.owning(lt).bound(nb), lt, probe_rows, table);
        assert(outer.bound(nb).cursors =~= seq![gt, inner]);
        lemma_union_two(outer.bound(nb), gt, inner, probe_rows, table);
        assert(opened(uris.join, None).owning(outer.bound(nb)).cursors =~= seq![outer.bound(nb)]);
        let top = opened(uris.join, None).owning(outer.bound(nb));
        lemma_union_one(top, outer.bound(nb), probe_rows, table);
    } else if greater is Some {
        assert(conditions =~= seq![results[0]]);
        let groups = grouped(uris.join, conditions, 1);
        assert(groups =~= seq![fresh.owning(gt)]);
        assert(nested(groups, 0) == fresh.owning(gt));
        assert(fresh.owning(gt).bound(nb).cursors =~= seq![gt]);
        assert(opened(uris.join, None).owning(fresh.owning(gt).bound(nb)).cursors =~= seq![
            fresh.owning(gt).bound(nb),
        ]);
        lemma_union_one(fresh.owning(gt).bound(nb), gt, probe_rows, table);
        let top = opened(uris.join, None).owning(fresh.owning(gt).bound(nb));
        lemma_union_one(top, fresh.owning(gt).bound(nb), probe_rows, table);
        assert(probe_rows(at as nat).union(Set::empty()) =~= probe_rows(at as nat));
    } else if less is Some {
        assert(conditions =~= seq![results[1]]);
        let groups = grouped(uris.join, conditions, 1);
        assert(groups =~= seq![fresh.owning(lt)]);
        assert(nested(groups, 0) == fresh.owning(lt));
        assert(fresh.owning(lt).bound(nb).cursors =~= seq![lt]);
        assert(opened(uris.join, None).owning(fresh.owning(lt).bound(nb)).cursors =~= seq![
            fresh.owning(lt).bound(nb),
        ]);
        lemma_union_one(fresh.owning(lt).bound(nb), lt, probe_rows, table);
        let top = opened(uris.join, None).owning(fresh.owning(lt).bound(nb));
        lemma_union_one(top, fresh.owning(lt).bound(nb), probe_rows, table);
        assert(Set::<K>::empty().union(probe_rows((at + 1) as nat)) =~= probe_rows(
            (at + 1) as nat,
        ));
    } else {
        assert(conditions =~= Seq::<Compiled>::empty());
    }
}

/// A join that owns one cursor, bound as a union, yields that cursor's
/// rows.
pub proof fn lemma_union_one<K>(
    join: CursorView,
    only: CursorView,
    probe_rows: spec_fn(nat) -> Set<K>,
    table: Set<K>,
)
    requires
        join.source is Open,
        join.cursors == seq![only],
        only.binding matches Some(b) && b.disjunction,
    ensures
        rows_of(join, probe_rows, table) == rows_of(only, probe_rows, table),
{
    assert(join.cursors.len() == 1);
    assert(join.cursors[0] == only);
    assert(union_upto(join.cursors, 0, probe_rows, table) == Set::<K>::empty());
    assert(union_upto(join.cursors, 1, probe_rows, table) == union_upto(
        join.cursors,
        0,
        probe_rows,
        table,
    ).union(rows_of(only, probe_rows, table)));
    assert(rows_of(join, probe_rows, table) == union_upto(join.cursors, 1, probe_rows, table));
    assert(rows_of(join, probe_rows, table) =~= rows_of(only, probe_rows, table));
}

/// A join that owns two cursors, bound as unions, yields the rows of
/// both.
pub proof fn lemma_union_two<K>(
    join: CursorView,
    first: CursorView,
    second: CursorView,
    probe_rows: spec_fn(nat) -> Set<K>,
    table: Set<K>,
)
    requires
        join.source is Open,
        join.cursors == seq![first, second],
        first.binding matches Some(b) && b.disjunction,
    ensures
        rows_of(join, probe_rows, table) == rows_of(first, probe_rows, table).union(
            rows_of(second, probe_rows, table),
        ),
{
    assert(join.cursors.len() == 2);
    assert(join.cursors[0] == first);
    assert(join.cursors[1] == second);
    assert(union_upto(join.cursors, 0, probe_rows, table) == Set::<K>::empty());
    assert(union_upto(join.cursors, 1, probe_rows, table) == union_upto(
        join.cursors,
        0,
        probe_rows,
        table,
    ).union(rows_of(first, probe_rows, table)));
    assert(union_upto(join.cursors, 2, probe_rows, table) == union_upto(
        join.cursors,
        1,
        probe_rows,
        table,
    ).union(rows_of(second, probe_rows, table)));
    assert(rows_of(join, probe_rows, table) == union_upto(join.cursors, 2, probe_rows, table));
    assert(rows_of(join, probe_rows, table) =~= rows_of(first, probe_rows, table).union(
        rows_of(second, probe_rows, table),
    ));
}

/// An inequality yields exactly the rows whose indexed column differs from
/// the queried value. `order` gives, for each row, how its indexed column
/// compares with the queried value. The probes are taken to have done their
/// part: a side that is bound admits the rows on that side, and on a side
/// that was found to match nothing there are no rows.
pub proof fn lemma_inequality_is_not_equal<K>(
    node: IndexSpecView,
    uris: Uris,
    exacts: Seq<i32>,
    at: int,
    probe_rows: spec_fn(nat) -> Set<K>,
    table: Set<K>,
    order: spec_fn(K) -> int,
)
    requires
        node.is_leaf(),
        node.operation == Operation::NE,
        0 <= at,
        at + 1 < exacts.len(),
        node.compiled(uris, exacts, at) is Some,
        exacts[at] != 1 ==> probe_rows(at as nat) == Set::new(
            |k: K| table.contains(k) && order(k) > 0,
        ),
        exacts[at] == 1 ==> forall|k: K| table.contains(k) ==> order(k) <= 0,
        exacts[at + 1] != -1 ==> probe_rows((at + 1) as nat) == Set::new(
            |k: K| table.contains(k) && order(k) < 0,
        ),
        exacts[at + 1] == -1 ==> forall|k: K| table.contains(k) ==> order(k) >= 0,
    ensures
        rows_of(node.compiled(uris, exacts, at)->0, probe_rows, table) == Set::new(
            |k: K| table.contains(k) && order(k) != 0,
        ),
{
    lemma_inequality_rows(node, uris, exacts, at, probe_rows, table);
    assert(rows_of(node.compiled(uris, exacts, at)->0, probe_rows, table) =~= Set::new(
        |k: K| table.contains(k) && order(k) != 0,
    ));
}

/// The numbers of the probes whose cursors a cursor tree holds, in the
/// order in which the cursors are joined.
pub open spec fn probes_in(cursor: CursorView) -> Seq<nat>
    decreases cursor, 0nat, 1nat,
{
    match cursor.source {
        CursorSourceView::Probe { probe } => seq![probe],
        CursorSourceView::Open { .. } => probes_in_upto(cursor.cursors, cursor.cursors.len() as int),
    }
}

/// The numbers of the probes in the first `n` trees of a list.
pub open spec fn probes_in_upto(cursors: Seq<CursorView>, n: int) -> Seq<nat>
    decreases cursors, n, 0nat,
{
    if n <= 0 || n > cursors.len() {
        Seq::empty()
    } else {
        probes_in_upto(cursors, n - 1) + probes_in(cursors[n - 1])
    }
}

/// Whether the numbers rise from one to the next and lie from `lo` up to,
/// but not including, `hi`.
pub open spec fn rising(numbers: Seq<nat>, lo: int, hi: int) -> bool {
    &&& forall|i: int| 0 <= i < numbers.len() ==> lo <= #[trigger] numbers[i] < hi
    &&& forall|i: int, j: int|
        0 <= i < j < numbers.len() ==> #[trigger] numbers[i] < #[trigger] numbers[j]
}

/// The numbers of the probes of the first `n` compiled conditions, in
/// order.
pub open spec fn flat(results: Seq<Compiled>, n: int) -> Seq<nat>
    decreases n,
{
    if n <= 0 {
        Seq::empty()
    } else if results[n - 1].cursor is Some {
        flat(results, n - 1) + probes_in(results[n - 1].cursor->0)
    } else {
        flat(results, n - 1)
    }
}

/// Rising numbers below rising numbers are rising together.
pub proof fn lemma_rising_concat(a: Seq<nat>, b: Seq<nat>, lo: int, mid: int, hi: int)
    requires
        rising(a, lo, mid),
        rising(b, mid, hi),
        lo <= mid <= hi,
    ensures
        rising(a + b, lo, hi),
{
    let c = a + b;
    assert forall|i: int| 0 <= i < c.len() implies lo <= #[trigger] c[i] < hi by {
        if i < a.len() {
            assert(c[i] == a[i]);
        } else {
            assert(c[i] == b[i - a.len()]);
        }
    }
    assert forall|i: int, j: int| 0 <= i < j < c.len() implies #[trigger] c[i] < #[trigger] c[j] by {
        if j < a.len() {
            assert(c[i] == a[i] && c[j] == a[j]);
        } else if i < a.len() {
            assert(c[i] == a[i] && c[j] == b[j - a.len()]);
        } else {
            assert(c[i] == b[i - a.len()] && c[j] == b[j - a.len()]);
        }
    }
}

/// The probes in the first `n` trees depend on those trees only.
pub proof fn lemma_probes_in_prefix(a: Seq<CursorView>, b: Seq<CursorView>, n: int)
    requires
        0 <= n <= a.len(),
        n <= b.len(),
        forall|i: int| 0 <= i < n ==> a[i] == b[i],
    ensures
        probes_in_upto(a, n) == probes_in_upto(b, n),
    decreases n,
{
    if n > 0 {
        lemma_probes_in_prefix(a, b, n - 1);
    }
}

/// A binding does not change the probes of a cursor, and a join that takes
/// ownership of a cursor holds its probes after its own.
pub proof fn lemma_probes_in_owning(join: CursorView, cursor: CursorView, binding: JoinConfig)
    requires
        join.source is Open,
    ensures
        probes_in(cursor.bound(binding)) == probes_in(cursor),
        probes_in(join.bound(binding)) == probes_in(join),
        probes_in(join.owning(cursor)) == probes_in(join) + probes_in(cursor),
{
    let after = join.owning(cursor);
    lemma_probes_in_prefix(join.cursors, after.cursors, join.cursors.len() as int);
    assert(after.cursors[join.cursors.len() as int] == cursor);
}

/// The probes of a conjunction are those of its conditions, in order.
pub proof fn lemma_conjuncts_flat(results: Seq<Compiled>, n: int)
    requires
        0 <= n <= results.len(),
    ensures
        probes_in_upto(conjuncts(kept(results, n)), kept(results, n).len() as int) == flat(
            results,
            n,
        ),
    decreases n,
{
    if n > 0 {
        lemma_conjuncts_flat(results, n - 1);
        let before = kept(results, n - 1);
        let now = kept(results, n);
        if results[n - 1].cursor is Some {
            assert(now == before.push(results[n - 1]));
            lemma_probes_in_prefix(conjuncts(before), conjuncts(now), before.len() as int);
            lemma_probes_in_owning(
                opened(Seq::empty(), None),
                results[n - 1].cursor->0,
                binding_of(results[n - 1].operation, false),
            );
        }
    }
}

/// The probes of the groups of a disjunction, taken together, are those
/// of its conditions, in order; and every group is a join.
pub proof fn lemma_grouped_flat(join_uri: Seq<char>, conditions: Seq<Compiled>, n: int)
    requires
        0 <= n <= conditions.len(),
        forall|i: int| 0 <= i < conditions.len() ==> (#[trigger] conditions[i]).cursor is Some,
    ensures
        probes_in_upto(
            grouped(join_uri, conditions, n),
            grouped(join_uri, conditions, n).len() as int,
        ) == flat(conditions, n),
        forall|g: int|
            0 <= g < grouped(join_uri, conditions, n).len() ==> (#[trigger] grouped(
                join_uri,
                conditions,
                n,
            )[g]).source is Open,
        n >= 1 ==> grouped(join_uri, conditions, n).len() >= 1,
    decreases n,
{
    if n > 0 {
        lemma_grouped_flat(join_uri, conditions, n - 1);
        let before = grouped(join_uri, conditions, n - 1);
        let now = grouped(join_uri, conditions, n);
        let inner = conditions[n - 1].cursor->0;
        let binding = binding_of(conditions[n - 1].operation, true);
        let cursor = inner.bound(binding);
        assert(conditions[n - 1].cursor is Some);
        if n >= 2 && conditions[n - 2].operation == conditions[n - 1].operation {
            let last = before.len() - 1;
            lemma_probes_in_owning(before[last], inner, binding);
            lemma_probes_in_owning(before[last], cursor, binding);
            assert(now == before.update(last, before[last].owning(cursor)));
            lemma_probes_in_prefix(before, now, last);
            assert(probes_in_upto(now, last + 1) == probes_in_upto(now, last) + probes_in(
                now[last],
            ));
            assert(probes_in_upto(before, last + 1) == probes_in_upto(before, last) + probes_in(
                before[last],
            ));
            assert(probes_in_upto(now, last + 1) =~= probes_in_upto(before, last + 1) + probes_in(
                inner,
            ));
        } else {
            let fresh = opened(join_uri, Some(Seq::<char>::empty()));
            lemma_probes_in_owning(fresh, inner, binding);
            lemma_probes_in_owning(fresh, cursor, binding);
            assert(now == before.push(fresh.owning(cursor)));
            lemma_probes_in_prefix(before, now, before.len() as int);
            assert(probes_in(fresh) =~= Seq::<nat>::empty());
            assert(probes_in(fresh.owning(cursor)) =~= probes_in(inner));
        }
    }
}

/// The probes of nested joins are those of the joins, in order.
pub proof fn lemma_nested_flat(groups: Seq<CursorView>, k: int)
    requires
        0 <= k < groups.len(),
        forall|g: int| 0 <= g < groups.len() ==> (#[trigger] groups[g]).source is Open,
    ensures
        nested(groups, k).source is Open,
        probes_in_upto(groups, k) + probes_in(nested(groups, k)) == probes_in_upto(
            groups,
            groups.len() as int,
        ),
    decreases groups.len() - k,
{
    if k < groups.len() - 1 {
        lemma_nested_flat(groups, k + 1);
        lemma_probes_in_owning(groups[k], nested(groups, k + 1), nested_binding());
        lemma_probes_in_owning(
            groups[k],
            nested(groups, k + 1).bound(nested_binding()),
            nested_binding(),
        );
        lemma_probes_in_owning(nested(groups, k + 1), groups[k], nested_binding());
        assert(probes_in_upto(groups, k + 1) == probes_in_upto(groups, k) + probes_in(groups[k]));
        assert(probes_in_upto(groups, k) + probes_in(nested(groups, k)) =~= probes_in_upto(
            groups,
            k + 1,
        ) + probes_in(nested(groups, k + 1)));
    } else {
        assert(probes_in_upto(groups, k + 1) == probes_in_upto(groups, k) + probes_in(groups[k]));
    }
}

/// The conditions that are kept all have a cursor, and their probes are
/// those of the conditions they are kept from.
pub proof fn lemma_kept_flat(results: Seq<Compiled>, n: int)
    requires
        0 <= n <= results.len(),
    ensures
        forall|i: int|
            0 <= i < kept(results, n).len() ==> (#[trigger] kept(results, n)[i]).cursor is Some,
        flat(kept(results, n), kept(results, n).len() as int) == flat(results, n),
    decreases n,
{
    if n > 0 {
        lemma_kept_flat(results, n - 1);
        let before = kept(results, n - 1);
        let now = kept(results, n);
        if results[n - 1].cursor is Some {
            assert(now == before.push(results[n - 1]));
            lemma_flat_prefix(before, now, before.len() as int);
        }
    }
}

/// The probes of the first `n` conditions depend on those conditions only.
pub proof fn lemma_flat_prefix(a: Seq<Compiled>, b: Seq<Compiled>, n: int)
    requires
        0 <= n <= a.len(),
        n <= b.len(),
        forall|i: int| 0 <= i < n ==> a[i] == b[i],
    ensures
        flat(a, n) == flat(b, n),
    decreases n,
{
    if n > 0 {
        lemma_flat_prefix(a, b, n - 1);
    }
}

/// The probes of a join of conditions are those of the conditions, in
/// order: every cursor that a condition has compiled to is joined in once,
/// and nothing else is.
pub proof fn lemma_joined_flat(join_uri: Seq<char>, results: Seq<Compiled>, disjunction: bool)
    ensures
        joined(join_uri, results, disjunction) matches Some(cursor) ==> probes_in(cursor) == flat(
            results,
            results.len() as int,
        ) && cursor.source is Open,
{
    let n = results.len() as int;
    let conditions = kept(results, n);
    lemma_kept_flat(results, n);
    if joined(join_uri, results, disjunction) is Some {
        let cursor = joined(join_uri, results, disjunction)->0;
        if !disjunction {
            lemma_conjuncts_flat(results, n);
            assert(cursor.cursors == conjuncts(conditions));
        } else {
            let m = conditions.len() as int;
            let groups = grouped(join_uri, conditions, m);
            lemma_grouped_flat(join_uri, conditions, m);
            lemma_nested_flat(groups, 0);
            let inner = nested(groups, 0);
            lemma_probes_in_owning(opened(join_uri, None), inner, nested_binding());
            lemma_probes_in_owning(
                opened(join_uri, None),
                inner.bound(nested_binding()),
                nested_binding(),
            );
            assert(probes_in(opened(join_uri, None)) =~= Seq::<nat>::empty());
            assert(probes_in_upto(groups, 0) =~= Seq::<nat>::empty());
            assert(probes_in(cursor) =~= probes_in(inner));
            assert(probes_in(inner) =~= probes_in_upto(groups, groups.len() as int));
        }
    }
}

/// A node that is taken as a comparison or a connective holds the cursors
/// of its own probes only, each once and in the order of their numbers.
pub proof fn lemma_compiled_as_probes(
    node: IndexSpecView,
    op: Operation,
    uris: Uris,
    exacts: Seq<i32>,
    at: int,
)
    requires
        node.operation != Operation::INDEX,
        node.valid(),
        0 <= at,
    ensures
        node.compiled_as(op, uris, exacts, at) matches Some(cursor) ==> rising(
            probes_in(cursor),
            at,
            at + node.probes_as(op, uris.table).len(),
        ),
    decreases node, 0nat,
{
    if node.is_leaf() {
    } else if node.is_inner() {
        let conditions = node.sub_conditions->0;
        let n = conditions.len() as int;
        lemma_compiled_upto_probes(conditions, n, uris, exacts, at);
        lemma_joined_flat(
            uris.join,
            compiled_upto(conditions, n, uris, exacts, at),
            op == Operation::OR,
        );
    }
}

/// A compiled node holds the cursors of its own probes only, each once
/// and in the order of their numbers.
pub proof fn lemma_compiled_probes(node: IndexSpecView, uris: Uris, exacts: Seq<i32>, at: int)
    requires
        node.valid(),
        0 <= at,
    ensures
        node.compiled(uris, exacts, at) matches Some(cursor) ==> rising(
            probes_in(cursor),
            at,
            at + node.probes(uris.table).len(),
        ),
    decreases node, 1nat,
{
    match node.operation {
        Operation::INDEX => {},
        Operation::NE => {
            let m = node.probes_as(Operation::GT, uris.table).len() as int;
            lemma_probes_as_len(node, Operation::GT, Operation::LT, uris.table);
            lemma_compiled_as_probes(node, Operation::GT, uris, exacts, at);
            lemma_compiled_as_probes(node, Operation::LT, uris, exacts, at + m);
            let greater = node.compiled_as(Operation::GT, uris, exacts, at);
            let less = node.compiled_as(Operation::LT, uris, exacts, at + m);
            let results = seq![
                Compiled { operation: Operation::GT, cursor: greater },
                Compiled { operation: Operation::LT, cursor: less },
            ];
            reveal_with_fuel(flat, 3);
            let first = if greater is Some {
                probes_in(greater->0)
            } else {
                Seq::<nat>::empty()
            };
            let second = if less is Some {
                probes_in(less->0)
            } else {
                Seq::<nat>::empty()
            };
            assert(flat(results, 2) =~= first + second);
            lemma_rising_concat(first, second, at, at + m, at + 2 * m);
            lemma_joined_flat(uris.join, results, true);
        },
        op => {
            lemma_compiled_as_probes(node, op, uris, exacts, at);
        },
    }
}

/// The first `n` compiled nodes hold the cursors of their own probes only,
/// each once and in the order of their numbers.
pub proof fn lemma_compiled_upto_probes(
    nodes: Seq<IndexSpecView>,
    n: int,
    uris: Uris,
    exacts: Seq<i32>,
    at: int,
)
    requires
        valid_specs(nodes),
        0 <= n <= nodes.len(),
        0 <= at,
    ensures
        compiled_upto(nodes, n, uris, exacts, at).len() == n,
        rising(
            flat(compiled_upto(nodes, n, uris, exacts, at), n),
            at,
            at + probes_upto(nodes, n, uris.table).len(),
        ),
    decreases nodes, n,
{
    if n > 0 {
        lemma_compiled_upto_probes(nodes, n - 1, uris, exacts, at);
        let before = compiled_upto(nodes, n - 1, uris, exacts, at);
        let now = compiled_upto(nodes, n, uris, exacts, at);
        let start = at + probes_upto(nodes, n - 1, uris.table).len();
        assert(nodes[n - 1].valid());
        lemma_compiled_probes(nodes[n - 1], uris, exacts, start);
        lemma_flat_prefix(before, now, n - 1);
        let last = nodes[n - 1].compiled(uris, exacts, start);
        let added = if last is Some {
            probes_in(last->0)
        } else {
            Seq::<nat>::empty()
        };
        assert(flat(now, n) =~= flat(before, n - 1) + added);
        lemma_rising_concat(
            flat(before, n - 1),
            added,
            at,
            start,
            start + nodes[n - 1].probes(uris.table).len(),
        );
    }
}

/// Every cursor of a probe that the compiled forest holds is the cursor
/// of one of the forest's probes, and none is held twice: the numbers of
/// the probes in the compiled cursor rise from one to the next and are
/// numbers of probes of the forest. So each cursor that was positioned is
/// owned by one join at most, and the cursors that no join owns are those
/// of the conditions that were left out.
pub proof fn lemma_every_probe_owned_once(
    nodes: Seq<IndexSpecView>,
    disjunction: bool,
    uris: Uris,
    exacts: Seq<i32>,
)
    ensures
        compile_outcome(nodes, disjunction, uris, exacts) matches Ok(cursor) ==> rising(
            probes_in(cursor),
            0,
            probes_of(nodes, uris.table).len() as int,
        ),
{
    if compile_outcome(nodes, disjunction, uris, exacts) is Ok {
        let n = nodes.len() as int;
        if n > 0 {
            lemma_compiled_upto_probes(nodes, n, uris, exacts, 0);
            lemma_joined_flat(uris.join, compiled_upto(nodes, n, uris, exacts, 0), disjunction);
        }
    }
}

} // verus!

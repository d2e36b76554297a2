//! Cursors as the planner describes them, and the reading of the engine's
//! status codes.

use vstd::prelude::*;
use vstd::string::*;
use crate::error::{GlueError, GlueErrorView, WT_NOTFOUND, wiredtiger_error};

verus! {

/// The comparison under which a positioned cursor bounds a join.
#[derive(PartialEq, Eq, Structural, Clone, Copy, Debug)]
pub enum Compare {
    Eq,
    Le,
    Lt,
    Ge,
    Gt,
}

/// How a cursor is bound into the join that owns it.
#[derive(PartialEq, Eq, Structural, Clone, Copy, Debug)]
pub struct JoinConfig {
    /// The comparison; a nested join is bound without one.
    pub compare: Option<Compare>,
    /// Whether the cursor adds rows to the join (a union) or restricts it
    /// (an intersection).
    pub disjunction: bool,
}

/// The name of a comparison in a join configuration.
pub open spec fn compare_text(compare: Compare) -> Seq<char> {
    match compare {
        Compare::Eq => "compare=eq"@,
        Compare::Le => "compare=le"@,
        Compare::Lt => "compare=lt"@,
        Compare::Ge => "compare=ge"@,
        Compare::Gt => "compare=gt"@,
    }
}

/// The configuration string of a binding: the comparison, then
/// `operation=or` for a union, separated by a comma. A binding that says
/// neither has no string.
pub open spec fn join_config_text(config: JoinConfig) -> Option<Seq<char>> {
    match config.compare {
        Some(c) => Some(
            if config.disjunction {
                compare_text(c) + ",operation=or"@
            } else {
                compare_text(c)
            },
        ),
        None => if config.disjunction {
            Some("operation=or"@)
        } else {
            None
        },
    }
}

/// The view of an optional string.
pub open spec fn option_text(text: Option<String>) -> Option<Seq<char>> {
    match text {
        Some(t) => Some(t@),
        None => None,
    }
}

impl JoinConfig {
    /// The configuration string to hand to the engine's join.
    pub fn config(&self) -> (text: Option<String>)
        ensures
            option_text(text) == join_config_text(*self),
    {
        match self.compare {
            Some(c) => {
                let head = String::from_str(
                    match c {
                        Compare::Eq => "compare=eq",
                        Compare::Le => "compare=le",
                        Compare::Lt => "compare=lt",
                        Compare::Ge => "compare=ge",
                        Compare::Gt => "compare=gt",
                    },
                );
                if self.disjunction {
                    Some(head.concat(",operation=or"))
                } else {
                    Some(head)
                }
            },
            None => if self.disjunction {
                Some(String::from_str("operation=or"))
            } else {
                None
            },
        }
    }
}

/// Where a cursor comes from.
#[derive(Clone, Debug)]
pub enum CursorSource {
    /// It is opened on this URI, with this configuration.
    Open { uri: String, config: Option<String> },
    /// It is the cursor that the probe with this number has positioned.
    Probe { probe: usize },
}

/// Where a cursor comes from, with sequences of characters for its
/// strings.
pub enum CursorSourceView {
    Open { uri: Seq<char>, config: Option<Seq<char>> },
    Probe { probe: nat },
}

impl View for CursorSource {
    type V = CursorSourceView;

    open spec fn view(&self) -> CursorSourceView {
        match self {
            CursorSource::Open { uri, config } => CursorSourceView::Open {
                uri: uri@,
                config: option_text(*config),
            },
            CursorSource::Probe { probe } => CursorSourceView::Probe { probe: *probe as nat },
        }
    }
}

/// A cursor of a join tree: where it comes from, how it is bound into the
/// join that owns it, and the cursors that it owns itself, in the order in
/// which they are joined into it. A cursor is owned by one join only, and
/// closing a cursor closes what it owns first.
#[derive(Debug)]
pub struct InternalCursor {
    pub source: CursorSource,
    pub binding: Option<JoinConfig>,
    pub cursors: Vec<InternalCursor>,
}

/// A cursor tree with sequences in place of its vectors.
pub struct CursorView {
    pub source: CursorSourceView,
    pub binding: Option<JoinConfig>,
    pub cursors: Seq<CursorView>,
}

impl View for InternalCursor {
    type V = CursorView;

    open spec fn view(&self) -> CursorView
        decreases self,
    {
        CursorView {
            source: self.source@,
            binding: self.binding,
            cursors: views_upto(self.cursors, self.cursors.len() as int),
        }
    }
}

/// The views of the first `n` cursors of a list.
pub open spec fn views_upto(cursors: Vec<InternalCursor>, n: int) -> Seq<CursorView>
    decreases cursors, n,
{
    if n <= 0 || n > cursors.len() {
        Seq::empty()
    } else {
        views_upto(cursors, n - 1).push(cursors[n - 1]@)
    }
}

/// The views of the first `n` cursors are the views of each of them.
pub proof fn lemma_views_upto(cursors: Vec<InternalCursor>, n: int)
    requires
        0 <= n <= cursors.len(),
    ensures
        views_upto(cursors, n) == cursor_views(cursors@.take(n)),
    decreases n,
{
    if n > 0 {
        lemma_views_upto(cursors, n - 1);
        assert(cursor_views(cursors@.take(n)) =~= cursor_views(cursors@.take(n - 1)).push(
            cursors[n - 1]@,
        ));
    } else {
        assert(cursor_views(cursors@.take(n)) =~= Seq::empty());
    }
}

/// The views of a list of cursors, one for one.
pub open spec fn cursor_views(cursors: Seq<InternalCursor>) -> Seq<CursorView> {
    Seq::new(cursors.len(), |i: int| cursors[i]@)
}

/// A cursor opened on `uri` that owns nothing and is bound nowhere.
pub open spec fn opened(uri: Seq<char>, config: Option<Seq<char>>) -> CursorView {
    CursorView {
        source: CursorSourceView::Open { uri, config },
        binding: None,
        cursors: Seq::empty(),
    }
}

/// The cursor of a probe, bound nowhere.
pub open spec fn probed(probe: nat) -> CursorView {
    CursorView {
        source: CursorSourceView::Probe { probe },
        binding: None,
        cursors: Seq::empty(),
    }
}

impl CursorView {
    /// The cursor, bound into a join in the given way.
    pub open spec fn bound(self, binding: JoinConfig) -> CursorView {
        CursorView { binding: Some(binding), ..self }
    }

    /// The cursor after it has joined and taken ownership of one more.
    pub open spec fn owning(self, cursor: CursorView) -> CursorView {
        CursorView { cursors: self.cursors.push(cursor), ..self }
    }

    /// The number of cursors in the tree.
    pub open spec fn size(self) -> nat
        decreases self,
    {
        1 + Self::size_upto(self.cursors, self.cursors.len() as int)
    }

    /// The number of cursors in the first `n` trees.
    pub open spec fn size_upto(cursors: Seq<CursorView>, n: int) -> nat
        decreases cursors, n,
    {
        if n <= 0 || n > cursors.len() {
            0
        } else {
            Self::size_upto(cursors, n - 1) + cursors[n - 1].size()
        }
    }
}

/// What a cursor's view is made of.
pub proof fn lemma_cursor_view(cursor: InternalCursor)
    ensures
        cursor@.source == cursor.source@,
        cursor@.binding == cursor.binding,
        cursor@.cursors == cursor_views(cursor.cursors@),
{
    lemma_views_upto(cursor.cursors, cursor.cursors.len() as int);
    assert(cursor.cursors@.take(cursor.cursors.len() as int) =~= cursor.cursors@);
}

impl InternalCursor {
    /// A cursor to open on `uri`.
    pub fn new(uri: String, config: Option<String>) -> (c: Self)
        ensures
            c@ == opened(uri@, option_text(config)),
    {
        let c = InternalCursor {
            source: CursorSource::Open { uri, config },
            binding: None,
            cursors: Vec::new(),
        };
        proof {
            lemma_cursor_view(c);
            assert(c@.cursors =~= Seq::empty());
        }
        c
    }

    /// The cursor of a probe.
    pub fn for_probe(probe: usize) -> (c: Self)
        ensures
            c@ == probed(probe as nat),
    {
        let c = InternalCursor {
            source: CursorSource::Probe { probe },
            binding: None,
            cursors: Vec::new(),
        };
        proof {
            lemma_cursor_view(c);
            assert(c@.cursors =~= Seq::empty());
        }
        c
    }

    /// A cursor on nothing: the one the executor holds before it is
    /// initialised.
    pub fn empty() -> (c: Self)
        ensures
            c@ == opened(Seq::empty(), None),
    {
        InternalCursor::new(String::new(), None)
    }

    /// Tells when the cursor is joined into the join that owns it: the
    /// nested join of a union, which is opened with a configuration, is
    /// joined as soon as it is opened, before anything is joined into it;
    /// every other cursor once all that it owns is joined into it.
    pub fn joined_when_opened(&self) -> (early: bool)
        ensures
            early == (self.source matches CursorSource::Open { config, .. } && config is Some),
    {
        match &self.source {
            CursorSource::Open { config, .. } => config.is_some(),
            CursorSource::Probe { .. } => false,
        }
    }

    /// Joins `cursor` into this one in the given way and takes ownership of
    /// it.
    pub fn own_joined_cursor(&mut self, cursor: InternalCursor, binding: JoinConfig)
        ensures
            final(self)@ == old(self)@.owning(cursor@.bound(binding)),
    {
        let mut cursor = cursor;
        let ghost inner = cursor;
        cursor.binding = Some(binding);
        proof {
            lemma_cursor_view(inner);
            lemma_cursor_view(cursor);
            lemma_cursor_view(*self);
        }
        let ghost before = self@;
        self.cursors.push(cursor);
        proof {
            lemma_cursor_view(*self);
            assert(cursor_views(self.cursors@) =~= before.cursors.push(cursor@));
        }
    }
}

/// What a status code says of a step or a search: 0 is a row, the engine's
/// "no such row" is no row and no error, and every other code is an error.
pub open spec fn found_of(status: i32) -> Result<bool, GlueErrorView> {
    if status == 0 {
        Ok(true)
    } else if status == WT_NOTFOUND {
        Ok(false)
    } else {
        Err(wiredtiger_error(status))
    }
}

/// What a status code says of a call that yields nothing: 0 is success and
/// every other code is an error.
pub open spec fn done_of(status: i32) -> Result<(), GlueErrorView> {
    if status == 0 {
        Ok(())
    } else {
        Err(wiredtiger_error(status))
    }
}

/// What a status code says of a call that yields a number.
pub open spec fn number_of(status: i32, number: i32) -> Result<i32, GlueErrorView> {
    if status == 0 {
        Ok(number)
    } else {
        Err(wiredtiger_error(status))
    }
}

impl InternalCursor {
    /// Reads the status of a call that yields nothing.
    pub fn passthrough(status: i32) -> (r: Result<(), GlueError>)
        ensures
            r is Ok <==> done_of(status) is Ok,
            r matches Err(e) ==> Err::<(), GlueErrorView>(e@) == done_of(status),
    {
        if status == 0 {
            return Ok(());
        }
        Err(GlueError::for_wiredtiger(status))
    }

    /// Reads the status of a step or a search.
    fn found(status: i32) -> (r: Result<bool, GlueError>)
        ensures
            match found_of(status) {
                Ok(found) => r == Ok::<bool, GlueError>(found),
                Err(error) => r matches Err(e) && e@ == error,
            },
    {
        match InternalCursor::passthrough(status) {
            Err(err) => {
                if err.is_not_found() {
                    return Ok(false);
                }
                Err(err)
            },
            Ok(()) => Ok(true),
        }
    }

    /// Reads the status of a step forward.
    pub fn next(status: i32) -> (r: Result<bool, GlueError>)
        ensures
            match found_of(status) {
                Ok(found) => r == Ok::<bool, GlueError>(found),
                Err(error) => r matches Err(e) && e@ == error,
            },
    {
        InternalCursor::found(status)
    }

    /// Reads the status of a step backward.
    pub fn prev(status: i32) -> (r: Result<bool, GlueError>)
        ensures
            match found_of(status) {
                Ok(found) => r == Ok::<bool, GlueError>(found),
                Err(error) => r matches Err(e) && e@ == error,
            },
    {
        InternalCursor::found(status)
    }

    /// Reads the status of a search for a key.
    pub fn search(status: i32) -> (r: Result<bool, GlueError>)
        ensures
            match found_of(status) {
                Ok(found) => r == Ok::<bool, GlueError>(found),
                Err(error) => r matches Err(e) && e@ == error,
            },
    {
        InternalCursor::found(status)
    }

    /// Reads the status of a search near a key: on success, where the
    /// cursor landed (-1 before the key, 0 on it, 1 after it).
    pub fn search_near(status: i32, exact: i32) -> (r: Result<i32, GlueError>)
        ensures
            match number_of(status, exact) {
                Ok(n) => r == Ok::<i32, GlueError>(n),
                Err(error) => r matches Err(e) && e@ == error,
            },
    {
        if status == 0 {
            return Ok(exact);
        }
        Err(GlueError::for_wiredtiger(status))
    }

    /// Reads the status of a comparison of two cursors' positions.
    pub fn compare(status: i32, compare: i32) -> (r: Result<i32, GlueError>)
        ensures
            match number_of(status, compare) {
                Ok(n) => r == Ok::<i32, GlueError>(n),
                Err(error) => r matches Err(e) && e@ == error,
            },
    {
        if status == 0 {
            return Ok(compare);
        }
        Err(GlueError::for_wiredtiger(status))
    }

    /// Reads the status of a test of two cursors' positions for equality.
    pub fn equals(status: i32, equals: i32) -> (r: Result<bool, GlueError>)
        ensures
            match number_of(status, equals) {
                Ok(n) => r == Ok::<bool, GlueError>(n == 1),
                Err(error) => r matches Err(e) && e@ == error,
            },
    {
        if status == 0 {
            return Ok(equals == 1);
        }
        Err(GlueError::for_wiredtiger(status))
    }

    /// Reads the status of an insert.
    pub fn insert(status: i32) -> (r: Result<(), GlueError>)
        ensures
            r is Ok <==> done_of(status) is Ok,
            r matches Err(e) ==> Err::<(), GlueErrorView>(e@) == done_of(status),
    {
        InternalCursor::passthrough(status)
    }

    /// Reads the status of an update.
    pub fn update(status: i32) -> (r: Result<(), GlueError>)
        ensures
            r is Ok <==> done_of(status) is Ok,
            r matches Err(e) ==> Err::<(), GlueErrorView>(e@) == done_of(status),
    {
        InternalCursor::passthrough(status)
    }

    /// Reads the status of a removal.
    pub fn remove(status: i32) -> (r: Result<(), GlueError>)
        ensures
            r is Ok <==> done_of(status) is Ok,
            r matches Err(e) ==> Err::<(), GlueErrorView>(e@) == done_of(status),
    {
        InternalCursor::passthrough(status)
    }

    /// Reads the status of a reset.
    pub fn reset(status: i32) -> (r: Result<(), GlueError>)
        ensures
            r is Ok <==> done_of(status) is Ok,
            r matches Err(e) ==> Err::<(), GlueErrorView>(e@) == done_of(status),
    {
        InternalCursor::passthrough(status)
    }

    /// Reads the status of the closing of a cursor.
    pub fn close(status: i32) -> (r: Result<(), GlueError>)
        ensures
            r is Ok <==> done_of(status) is Ok,
            r matches Err(e) ==> Err::<(), GlueErrorView>(e@) == done_of(status),
    {
        InternalCursor::passthrough(status)
    }

    /// Reads the status of the setting of a bound.
    pub fn bound(status: i32) -> (r: Result<(), GlueError>)
        ensures
            r is Ok <==> done_of(status) is Ok,
            r matches Err(e) ==> Err::<(), GlueErrorView>(e@) == done_of(status),
    {
        InternalCursor::passthrough(status)
    }
}

/// A path with one more step in front.
pub open spec fn under(child: nat, paths: Seq<Seq<nat>>) -> Seq<Seq<nat>> {
    Seq::new(paths.len(), |i: int| seq![child] + paths[i])
}

impl CursorView {
    /// The cursors of the tree in the order in which they are closed, each
    /// named by its path from the root (the positions to follow among the
    /// owned cursors): every cursor comes after all that it owns, and the
    /// root comes last.
    pub open spec fn close_order(self) -> Seq<Seq<nat>>
        decreases self,
    {
        Self::close_order_upto(self.cursors, self.cursors.len() as int).push(Seq::empty())
    }

    /// The closing order of the first `n` trees of a list.
    pub open spec fn close_order_upto(cursors: Seq<CursorView>, n: int) -> Seq<Seq<nat>>
        decreases cursors, n,
    {
        if n <= 0 || n > cursors.len() {
            Seq::empty()
        } else {
            Self::close_order_upto(cursors, n - 1) + under(
                (n - 1) as nat,
                cursors[n - 1].close_order(),
            )
        }
    }

    /// The cursor at the end of a path, if the path leads to one.
    pub open spec fn at(self, path: Seq<nat>) -> Option<CursorView>
        decreases path.len(),
    {
        if path.len() == 0 {
            Some(self)
        } else if path[0] < self.cursors.len() {
            self.cursors[path[0] as int].at(path.drop_first())
        } else {
            None
        }
    }
}

/// The closing order names every cursor of the tree once: it has as many
/// paths as the tree has cursors, each path leads to a cursor, and no path
/// occurs twice. The root is closed last.
pub proof fn lemma_close_order(cursor: CursorView)
    ensures
        cursor.close_order().len() == cursor.size(),
        cursor.close_order().last() == Seq::<nat>::empty(),
        forall|i: int|
            0 <= i < cursor.close_order().len() ==> cursor.at(#[trigger] cursor.close_order()[i])
                is Some,
        forall|i: int, j: int|
            0 <= i < j < cursor.close_order().len() ==> cursor.close_order()[i]
                != cursor.close_order()[j],
        forall|i: int|
            0 <= i < cursor.close_order().len() - 1 ==> (#[trigger] cursor.close_order()[i]).len()
                > 0,
    decreases cursor, 1nat, 0nat,
{
    let n = cursor.cursors.len() as int;
    lemma_close_order_upto(cursor, n);
    let children = CursorView::close_order_upto(cursor.cursors, n);
    let order = cursor.close_order();
    assert forall|i: int| 0 <= i < order.len() implies cursor.at(#[trigger] order[i]) is Some by {
        if i < children.len() {
            assert(order[i] == children[i]);
        }
    }
    assert forall|i: int, j: int| 0 <= i < j < order.len() implies order[i] != order[j] by {
        assert(order[i] == children[i]);
        if j < children.len() {
            assert(order[j] == children[j]);
        }
    }
    assert forall|i: int| 0 <= i < order.len() - 1 implies (#[trigger] order[i]).len() > 0 by {
        assert(order[i] == children[i]);
    }
}

/// The closing order of the first `n` owned cursors of a cursor: as many
/// paths as those trees have cursors, each a path into one of them, no path
/// twice.
pub proof fn lemma_close_order_upto(cursor: CursorView, n: int)
    requires
        0 <= n <= cursor.cursors.len(),
    ensures
        CursorView::close_order_upto(cursor.cursors, n).len() == CursorView::size_upto(
            cursor.cursors,
            n,
        ),
        forall|i: int|
            0 <= i < CursorView::close_order_upto(cursor.cursors, n).len() ==> {
                let path = #[trigger] CursorView::close_order_upto(cursor.cursors, n)[i];
                &&& path.len() > 0
                &&& path[0] < n
                &&& cursor.at(path) is Some
            },
        forall|i: int, j: int|
            0 <= i < j < CursorView::close_order_upto(cursor.cursors, n).len()
                ==> CursorView::close_order_upto(cursor.cursors, n)[i]
                != CursorView::close_order_upto(cursor.cursors, n)[j],
    decreases cursor, 0nat, n,
{
    if n > 0 {
        lemma_close_order_upto(cursor, n - 1);
        let child = cursor.cursors[n - 1];
        lemma_close_order_child(cursor, n - 1);
        let before = CursorView::close_order_upto(cursor.cursors, n - 1);
        let inner = child.close_order();
        let added = under((n - 1) as nat, inner);
        let now = CursorView::close_order_upto(cursor.cursors, n);
        assert(now == before + added);
        assert forall|i: int| 0 <= i < now.len() implies ({
            let path = #[trigger] now[i];
            &&& path.len() > 0
            &&& path[0] < n
            &&& cursor.at(path) is Some
        }) by {
            if i < before.len() {
                assert(now[i] == before[i]);
            } else {
                let k = i - before.len();
                assert(now[i] == added[k]);
                assert(added[k] == seq![(n - 1) as nat] + inner[k]);
                assert(added[k].drop_first() =~= inner[k]);
                assert(child.at(inner[k]) is Some);
            }
        }
        assert forall|i: int, j: int| 0 <= i < j < now.len() implies now[i] != now[j] by {
            if j < before.len() {
                assert(now[i] == before[i]);
                assert(now[j] == before[j]);
            } else if i < before.len() {
                assert(now[i] == before[i]);
                assert(now[j] == added[j - before.len()]);
                assert(before[i][0] < n - 1);
                assert(added[j - before.len()][0] == n - 1);
            } else {
                let a = i - before.len();
                let b = j - before.len();
                assert(now[i] == added[a]);
                assert(now[j] == added[b]);
                assert(added[a].drop_first() =~= inner[a]);
                assert(added[b].drop_first() =~= inner[b]);
                assert(inner[a] != inner[b]);
            }
        }
    }
}

/// The closing order of one owned cursor.
proof fn lemma_close_order_child(cursor: CursorView, k: int)
    requires
        0 <= k < cursor.cursors.len(),
    ensures
        cursor.cursors[k].close_order().len() == cursor.cursors[k].size(),
        forall|i: int|
            0 <= i < cursor.cursors[k].close_order().len() ==> cursor.cursors[k].at(
                #[trigger] cursor.cursors[k].close_order()[i],
            ) is Some,
        forall|i: int, j: int|
            0 <= i < j < cursor.cursors[k].close_order().len()
                ==> cursor.cursors[k].close_order()[i] != cursor.cursors[k].close_order()[j],
    decreases cursor, 0nat, 0nat,
{
    lemma_close_order(cursor.cursors[k]);
}

impl InternalCursor {
    /// The cursors of the tree in the order in which to close them, each
    /// named by its path from the root.
    pub fn close_order(&self) -> (order: Vec<Vec<usize>>)
        ensures
            path_views(order@) == self@.close_order(),
        decreases self,
    {
        proof {
            lemma_cursor_view(*self);
        }
        let mut order: Vec<Vec<usize>> = Vec::new();
        let mut n: usize = 0;
        assert(path_views(order@) =~= CursorView::close_order_upto(self@.cursors, 0));
        while n < self.cursors.len()
            invariant
                n <= self.cursors.len(),
                self@.cursors == cursor_views(self.cursors@),
                path_views(order@) == CursorView::close_order_upto(self@.cursors, n as int),
            decreases self.cursors.len() - n,
        {
            let inner = self.cursors[n].close_order();
            let ghost before = path_views(order@);
            let ghost added = under(n as nat, self@.cursors[n as int].close_order());
            let mut k: usize = 0;
            while k < inner.len()
                invariant
                    k <= inner.len(),
                    n < self.cursors.len(),
                    self@.cursors == cursor_views(self.cursors@),
                    path_views(inner@) == self@.cursors[n as int].close_order(),
                    added == under(n as nat, self@.cursors[n as int].close_order()),
                    path_views(order@) == before + added.take(k as int),
                decreases inner.len() - k,
            {
                let mut path: Vec<usize> = Vec::new();
                path.push(n);
                let mut j: usize = 0;
                while j < inner[k].len()
                    invariant
                        j <= inner@[k as int]@.len(),
                        k < inner.len(),
                        path@.len() == j + 1,
                        path@[0] == n,
                        forall|i: int| 0 <= i < j ==> path@[i + 1] == inner@[k as int]@[i],
                    decreases inner@[k as int]@.len() - j,
                {
                    path.push(inner[k][j]);
                    j += 1;
                }
                let ghost inner_order = path_views(order@);
                assert(path_view(path@) =~= seq![n as nat] + path_views(inner@)[k as int]);
                order.push(path);
                proof {
                    assert(path_views(order@) =~= inner_order.push(path_view(path@)));
                    assert(path_views(order@) =~= before + added.take(k as int + 1));
                }
                k += 1;
            }
            proof {
                assert(added.take(k as int) =~= added);
            }
            n += 1;
        }
        let ghost children = path_views(order@);
        order.push(Vec::new());
        proof {
            assert(path_view(Seq::<usize>::empty()) =~= Seq::<nat>::empty());
            assert(path_views(order@) =~= children.push(Seq::empty()));
        }
        order
    }
}

/// A path as a sequence of natural numbers.
pub open spec fn path_view(path: Seq<usize>) -> Seq<nat> {
    Seq::new(path.len(), |i: int| path[i] as nat)
}

/// The views of a list of paths, one for one.
pub open spec fn path_views(paths: Seq<Vec<usize>>) -> Seq<Seq<nat>> {
    Seq::new(paths.len(), |i: int| path_view(paths[i]@))
}

} // verus!

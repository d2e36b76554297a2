//! The join executor: it owns the compiled cursor of a forest of
//! predicates and yields each matching row once.
//!
//! The executor decides; the caller moves the engine's cursor. Before the
//! executor is initialised the caller runs its probes. For each row the
//! caller advances the compiled cursor, reads the key at the new position
//! and hands it to the executor, which says whether the row is to be
//! yielded, is a repetition, or whether the scan has ended.

use vstd::prelude::*;
use vstd::string::*;
use crate::cursor::{CursorView, InternalCursor, found_of, opened, option_text};
use crate::error::{GlueError, GlueErrorCode, GlueErrorView, glue_error};
use crate::index_spec::{
    Probe, Uris, compile_outcome, cursor_for_index_specs, cursor_probes, invalid_index_spec,
    probe_views, probes_of, valid_specs,
};
use crate::query_value::{
    IndexSpecView, InternalIndexSpec, QueryValue, QueryValueView, key_views, keys_equal,
    lemma_materialized, lemma_same_key_symmetric, lemma_same_key_transitive, materialize,
    materialized, node_views, same_key, views,
};

verus! {

/// Where an executor is in its life.
#[derive(PartialEq, Eq, Structural, Clone, Copy, Debug)]
pub enum CursorState {
    Uninitialized,
    Initialized,
    Positioned,
    Exhausted,
    Closed,
}

/// What the executor makes of one step of the compiled cursor.
#[derive(PartialEq, Eq, Structural, Clone, Copy, Debug)]
pub enum ScanStep {
    /// The row is new: yield it.
    Row,
    /// The row was yielded before in this scan: advance again.
    Duplicate,
    /// The engine has no more rows.
    Exhausted,
}

/// Whether a key structurally equals one of the keys seen.
pub open spec fn seen_before(seen: Seq<Seq<QueryValueView>>, key: Seq<QueryValueView>) -> bool {
    exists|i: int| 0 <= i < seen.len() && same_key(#[trigger] seen[i], key)
}

/// The executor for one forest of predicates over one table.
#[derive(Debug)]
pub struct MultiCursor {
    pub initted: bool,
    pub multikey: bool,
    pub state: CursorState,
    pub cursor: InternalCursor,
    pub index_specs: Vec<InternalIndexSpec>,
    pub table_name: String,
    /// The materialized keys of the rows yielded in this scan.
    pub seen_keys: Vec<Vec<QueryValue>>,
    pub columns_joined: Option<String>,
}

/// An executor with sequences in place of its strings and vectors.
pub struct MultiCursorView {
    pub initted: bool,
    pub multikey: bool,
    pub state: CursorState,
    pub cursor: CursorView,
    pub index_specs: Seq<IndexSpecView>,
    pub table_name: Seq<char>,
    pub seen_keys: Seq<Seq<QueryValueView>>,
    pub columns_joined: Option<Seq<char>>,
}

impl View for MultiCursor {
    type V = MultiCursorView;

    open spec fn view(&self) -> MultiCursorView {
        MultiCursorView {
            initted: self.initted,
            multikey: self.multikey,
            state: self.state,
            cursor: self.cursor@,
            index_specs: node_views(self.index_specs@),
            table_name: self.table_name@,
            seen_keys: key_views(self.seen_keys@),
            columns_joined: option_text(self.columns_joined),
        }
    }
}

/// The error of an operation on an executor that was not initialised.
pub open spec fn not_initialised() -> GlueErrorView {
    glue_error(GlueErrorCode::NotInitialised, "unknown"@)
}

impl MultiCursorView {
    /// The columns appended to the table's URIs; nothing where none are
    /// chosen.
    pub open spec fn columns(self) -> Seq<char> {
        match self.columns_joined {
            Some(c) => c,
            None => Seq::empty(),
        }
    }

    /// The URIs that the forest is compiled over: a plain cursor on
    /// `table:<name><columns>`, joins on `join:table:<name><columns>`.
    pub open spec fn uris(self) -> Uris {
        Uris {
            table: "table:"@ + self.table_name + self.columns(),
            join: "join:table:"@ + self.table_name + self.columns(),
        }
    }

    /// The executor after it was initialised with the landings of its
    /// probes, and the error of the compilation, if any. An executor is
    /// initialised once: a second time changes nothing and succeeds. The
    /// first time counts even where the compilation fails.
    pub open spec fn initialised(self, exacts: Seq<i32>) -> (MultiCursorView, Option<GlueErrorView>) {
        if self.initted {
            (self, None)
        } else {
            match compile_outcome(self.index_specs, false, self.uris(), exacts) {
                Ok(cursor) => (
                    MultiCursorView {
                        initted: true,
                        state: CursorState::Initialized,
                        cursor,
                        ..self
                    },
                    None,
                ),
                Err(e) => (
                    MultiCursorView { initted: true, state: CursorState::Initialized, ..self },
                    Some(e),
                ),
            }
        }
    }

    /// The executor after one step of the compiled cursor, and what it
    /// makes of the step. `row` is the key read at the new position, or
    /// nothing where the engine had no more rows. The key is materialized
    /// and looked up among the keys seen in this scan: a key seen before
    /// is a repetition, a new one is remembered and yielded.
    pub open spec fn stepped(self, row: Option<Seq<QueryValueView>>) -> (
        MultiCursorView,
        Result<ScanStep, GlueErrorView>,
    ) {
        if !self.initted {
            (self, Err(not_initialised()))
        } else {
            match row {
                None => (
                    MultiCursorView { state: CursorState::Exhausted, ..self },
                    Ok(ScanStep::Exhausted),
                ),
                Some(key) => if !self.multikey {
                    (MultiCursorView { state: CursorState::Positioned, ..self }, Ok(ScanStep::Row))
                } else {
                    match materialized(key) {
                        None => (
                            self,
                            Err(glue_error(GlueErrorCode::AccessEmptyBox, " while copying"@)),
                        ),
                        Some(m) => if seen_before(self.seen_keys, m) {
                            (
                                MultiCursorView { state: CursorState::Positioned, ..self },
                                Ok(ScanStep::Duplicate),
                            )
                        } else {
                            (
                                MultiCursorView {
                                    state: CursorState::Positioned,
                                    seen_keys: self.seen_keys.push(m),
                                    ..self
                                },
                                Ok(ScanStep::Row),
                            )
                        },
                    }
                },
            }
        }
    }

    /// The executor after a plain step of the compiled cursor, forward or
    /// backward, and what the step has found. `status` is the status that
    /// the engine gave for the step: a row positions the executor, the end
    /// of the rows exhausts it and is no error, and an error leaves it as
    /// it was.
    pub open spec fn moved(self, status: i32) -> (MultiCursorView, Result<bool, GlueErrorView>) {
        if !self.initted {
            (self, Err(not_initialised()))
        } else {
            match found_of(status) {
                Ok(true) => (MultiCursorView { state: CursorState::Positioned, ..self }, Ok(true)),
                Ok(false) => (MultiCursorView { state: CursorState::Exhausted, ..self }, Ok(false)),
                Err(e) => (self, Err(e)),
            }
        }
    }

    /// The executor after a reset: back before the first row, with no key
    /// seen. The keys are forgotten even where the reset is refused.
    pub open spec fn reset(self) -> (MultiCursorView, Option<GlueErrorView>) {
        if !self.initted {
            (MultiCursorView { seen_keys: Seq::empty(), ..self }, Some(not_initialised()))
        } else {
            (
                MultiCursorView {
                    seen_keys: Seq::empty(),
                    state: CursorState::Initialized,
                    ..self
                },
                None,
            )
        }
    }

    /// The executor after it was closed.
    pub open spec fn closed(self) -> (MultiCursorView, Option<GlueErrorView>) {
        if !self.initted {
            (MultiCursorView { seen_keys: Seq::empty(), ..self }, Some(not_initialised()))
        } else {
            (
                MultiCursorView { seen_keys: Seq::empty(), state: CursorState::Closed, ..self },
                None,
            )
        }
    }
}

impl MultiCursor {
    /// An executor for the given forest over the given table. It is not
    /// initialised.
    pub fn new(
        table_name: String,
        index_specs: Vec<InternalIndexSpec>,
        columns_joined: Option<String>,
    ) -> (r: Result<Self, GlueError>)
        ensures
            r matches Ok(c) && c@ == (MultiCursorView {
                initted: false,
                multikey: true,
                state: CursorState::Uninitialized,
                cursor: opened(Seq::empty(), None),
                index_specs: node_views(index_specs@),
                table_name: table_name@,
                seen_keys: Seq::empty(),
                columns_joined: option_text(columns_joined),
            }),
    {
        let cursor = InternalCursor::empty();
        let internal_cursor = MultiCursor {
            initted: false,
            state: CursorState::Uninitialized,
            cursor,
            index_specs,
            table_name,
            columns_joined,
            seen_keys: Vec::new(),
            multikey: true,
        };
        assert(internal_cursor@.seen_keys =~= Seq::empty());
        Ok(internal_cursor)
    }

    /// The table name followed by the columns chosen.
    fn uri(&self, prefix: &str) -> (uri: String)
        ensures
            uri@ == prefix@ + self@.table_name + self@.columns(),
    {
        let named = String::from_str(prefix).concat(self.table_name.as_str());
        match &self.columns_joined {
            Some(columns) => named.concat(columns.as_str()),
            None => {
                assert(named@ + Seq::<char>::empty() =~= named@);
                named
            },
        }
    }

    /// The URI of a plain cursor on the table.
    pub fn table_cursor_uri(&self) -> (uri: String)
        ensures
            uri@ == self@.uris().table,
    {
        self.uri("table:")
    }

    /// The URI of a join on the table.
    pub fn table_join_uri(&self) -> (uri: String)
        ensures
            uri@ == self@.uris().join,
    {
        self.uri("join:table:")
    }

    /// The probes to run before the executor is initialised.
    pub fn probes(&self) -> (r: Result<Vec<Probe>, GlueError>)
        ensures
            r is Ok <==> valid_specs(self@.index_specs),
            r matches Ok(probes) ==> probe_views(probes@) == probes_of(
                self@.index_specs,
                self@.uris().table,
            ),
            r matches Err(e) ==> e@ == invalid_index_spec(),
    {
        let table_cursor_uri = self.table_cursor_uri();
        cursor_probes(table_cursor_uri.as_str(), &self.index_specs)
    }

    /// Initialises the executor: compiles its forest, given where each of
    /// its probes landed.
    pub fn init(&mut self, exacts: &Vec<i32>) -> (r: Result<(), GlueError>)
        ensures
            final(self)@ == old(self)@.initialised(exacts@).0,
            r is Ok <==> old(self)@.initialised(exacts@).1 is None,
            r matches Err(e) ==> Some(e@) == old(self)@.initialised(exacts@).1,
    {
        if self.initted {
            return Ok(());
        }
        self.initted = true;
        self.state = CursorState::Initialized;
        let table_join_uri = self.table_join_uri();
        let table_cursor_uri = self.table_cursor_uri();
        self.cursor = cursor_for_index_specs(
            table_cursor_uri.as_str(),
            table_join_uri.as_str(),
            &self.index_specs,
            false,
            exacts,
        )?;
        Ok(())
    }

    /// Records that the initialisation has failed before the forest could
    /// be compiled, because a probe could not be run. The initialisation
    /// counts all the same, and the error is handed back.
    pub fn init_failed(&mut self, error: GlueError) -> (r: Result<(), GlueError>)
        ensures
            final(self)@ == (if old(self).initted {
                old(self)@
            } else {
                MultiCursorView { initted: true, state: CursorState::Initialized, ..old(self)@ }
            }),
            r matches Err(e) && e == error,
    {
        if !self.initted {
            self.initted = true;
            self.state = CursorState::Initialized;
        }
        Err(error)
    }

    /// The compiled cursor, once the executor is initialised.
    pub fn get_cursor_impl(&self) -> (r: Result<&InternalCursor, GlueError>)
        ensures
            r is Ok <==> self.initted,
            r matches Ok(c) ==> *c == self.cursor,
            r matches Err(e) ==> e@ == not_initialised(),
    {
        if !self.initted {
            return Err(
                GlueError::for_glue_with_extra(
                    GlueErrorCode::NotInitialised,
                    String::from_str("unknown"),
                ),
            );
        }
        Ok(&self.cursor)
    }

    /// Takes a plain step: the caller has advanced the compiled cursor and
    /// hands over the status that the engine gave.
    fn step(&mut self, status: i32) -> (r: Result<bool, GlueError>)
        ensures
            final(self)@ == old(self)@.moved(status).0,
            match old(self)@.moved(status).1 {
                Ok(found) => r == Ok::<bool, GlueError>(found),
                Err(error) => r matches Err(e) && e@ == error,
            },
    {
        if !self.initted {
            return Err(
                GlueError::for_glue_with_extra(
                    GlueErrorCode::NotInitialised,
                    String::from_str("unknown"),
                ),
            );
        }
        let found = InternalCursor::next(status)?;
        self.state = if found {
            CursorState::Positioned
        } else {
            CursorState::Exhausted
        };
        Ok(found)
    }

    /// Takes a step forward, without a look at the keys seen.
    pub fn next(&mut self, status: i32) -> (r: Result<bool, GlueError>)
        ensures
            final(self)@ == old(self)@.moved(status).0,
            match old(self)@.moved(status).1 {
                Ok(found) => r == Ok::<bool, GlueError>(found),
                Err(error) => r matches Err(e) && e@ == error,
            },
    {
        self.step(status)
    }

    /// Takes a step backward, without a look at the keys seen.
    pub fn prev(&mut self, status: i32) -> (r: Result<bool, GlueError>)
        ensures
            final(self)@ == old(self)@.moved(status).0,
            match old(self)@.moved(status).1 {
                Ok(found) => r == Ok::<bool, GlueError>(found),
                Err(error) => r matches Err(e) && e@ == error,
            },
    {
        self.step(status)
    }

    /// Tells whether a materialized key was seen in this scan.
    fn seen(&self, key: &Vec<QueryValue>) -> (b: bool)
        ensures
            b == seen_before(self@.seen_keys, views(key@)),
    {
        let mut i: usize = 0;
        while i < self.seen_keys.len()
            invariant
                i <= self.seen_keys.len(),
                forall|j: int| 0 <= j < i ==> !same_key(#[trigger] self@.seen_keys[j], views(key@)),
            decreases self.seen_keys.len() - i,
        {
            assert(self@.seen_keys[i as int] == views(self.seen_keys@[i as int]@));
            if keys_equal(&self.seen_keys[i], key) {
                return true;
            }
            i += 1;
        }
        false
    }

    /// Takes one step of the scan: the caller has advanced the compiled
    /// cursor and hands over the key read at the new position, or nothing
    /// where the engine had no more rows.
    pub fn next_with_multikey_check(&mut self, row: Option<Vec<QueryValue>>) -> (r: Result<
        ScanStep,
        GlueError,
    >)
        ensures
            final(self)@ == old(self)@.stepped(
                match row {
                    Some(key) => Some(views(key@)),
                    None => None,
                },
            ).0,
            match old(self)@.stepped(
                match row {
                    Some(key) => Some(views(key@)),
                    None => None,
                },
            ).1 {
                Ok(step) => r == Ok::<ScanStep, GlueError>(step),
                Err(error) => r matches Err(e) && e@ == error,
            },
    {
        if !self.initted {
            return Err(
                GlueError::for_glue_with_extra(
                    GlueErrorCode::NotInitialised,
                    String::from_str("unknown"),
                ),
            );
        }
        match row {
            None => {
                self.state = CursorState::Exhausted;
                Ok(ScanStep::Exhausted)
            },
            Some(key) => {
                if !self.multikey {
                    self.state = CursorState::Positioned;
                    return Ok(ScanStep::Row);
                }
                let key = materialize(&key)?;
                self.state = CursorState::Positioned;
                if self.seen(&key) {
                    return Ok(ScanStep::Duplicate);
                }
                let ghost before = self@.seen_keys;
                self.seen_keys.push(key);
                assert(self@.seen_keys =~= before.push(views(key@)));
                Ok(ScanStep::Row)
            },
        }
    }

    /// Starts the scan over: the caller resets the compiled cursor, and the
    /// executor forgets the keys it has seen.
    pub fn reset(&mut self) -> (r: Result<(), GlueError>)
        ensures
            final(self)@ == old(self)@.reset().0,
            r is Ok <==> old(self)@.reset().1 is None,
            r matches Err(e) ==> Some(e@) == old(self)@.reset().1,
    {
        self.seen_keys.clear();
        assert(self@.seen_keys =~= Seq::empty());
        if !self.initted {
            return Err(
                GlueError::for_glue_with_extra(
                    GlueErrorCode::NotInitialised,
                    String::from_str("unknown"),
                ),
            );
        }
        self.state = CursorState::Initialized;
        Ok(())
    }

    /// Ends the life of the executor: the caller closes the compiled
    /// cursor, each cursor after those it owns.
    pub fn close(&mut self) -> (r: Result<(), GlueError>)
        ensures
            final(self)@ == old(self)@.closed().0,
            r is Ok <==> old(self)@.closed().1 is None,
            r matches Err(e) ==> Some(e@) == old(self)@.closed().1,
    {
        self.seen_keys.clear();
        assert(self@.seen_keys =~= Seq::empty());
        if !self.initted {
            return Err(
                GlueError::for_glue_with_extra(
                    GlueErrorCode::NotInitialised,
                    String::from_str("unknown"),
                ),
            );
        }
        self.state = CursorState::Closed;
        Ok(())
    }
}

impl MultiCursorView {
    /// The executor after the first `n` rows of a scan, and the keys of
    /// the rows that it has yielded, in order. `rows` holds the keys that
    /// the compiled cursor is positioned on, step after step.
    pub open spec fn scanned(self, rows: Seq<Seq<QueryValueView>>, n: int) -> (
        MultiCursorView,
        Seq<Seq<QueryValueView>>,
    )
        decreases n,
    {
        if n <= 0 {
            (self, Seq::empty())
        } else {
            let (before, yielded) = self.scanned(rows, n - 1);
            let (after, step) = before.stepped(Some(rows[n - 1]));
            (
                after,
                if step == Ok::<ScanStep, GlueErrorView>(ScanStep::Row) {
                    yielded.push(rows[n - 1])
                } else {
                    yielded
                },
            )
        }
    }
}

/// Whether every row of a scan was read in full, so that its key can be
/// materialized.
pub open spec fn readable(rows: Seq<Seq<QueryValueView>>) -> bool {
    forall|i: int| 0 <= i < rows.len() ==> materialized(#[trigger] rows[i]) is Some
}

/// What a scan that starts with no key seen has done after `n` rows: the
/// keys seen are those of the rows yielded, no two of them equal, and every
/// row so far equals one of them.
pub proof fn lemma_scan_yields_once(
    start: MultiCursorView,
    rows: Seq<Seq<QueryValueView>>,
    n: int,
)
    requires
        start.initted,
        start.multikey,
        start.seen_keys.len() == 0,
        readable(rows),
        0 <= n <= rows.len(),
    ensures
        ({
            let (after, yielded) = start.scanned(rows, n);
            &&& after.initted
            &&& after.multikey
            &&& after.seen_keys.len() == yielded.len()
            &&& forall|j: int|
                0 <= j < yielded.len() ==> #[trigger] after.seen_keys[j] == materialized(
                    yielded[j],
                )->0 && materialized(yielded[j]) is Some
            &&& forall|i: int, j: int|
                0 <= i < j < yielded.len() ==> !same_key(
                    #[trigger] after.seen_keys[i],
                    #[trigger] after.seen_keys[j],
                )
            &&& forall|i: int|
                0 <= i < n ==> seen_before(after.seen_keys, materialized(#[trigger] rows[i])->0)
        }),
    decreases n,
{
    if n > 0 {
        lemma_scan_yields_once(start, rows, n - 1);
        let (before, yielded) = start.scanned(rows, n - 1);
        let (after, step) = before.stepped(Some(rows[n - 1]));
        let m = materialized(rows[n - 1])->0;
        assert(materialized(rows[n - 1]) is Some);
        lemma_materialized(rows[n - 1]);
        if seen_before(before.seen_keys, m) {
            assert(after.seen_keys == before.seen_keys);
        } else {
            assert(after.seen_keys == before.seen_keys.push(m));
            let last = before.seen_keys.len() as int;
            assert(after.seen_keys[last] == m);
            assert forall|i: int, j: int| 0 <= i < j < after.seen_keys.len() implies !same_key(
                #[trigger] after.seen_keys[i],
                #[trigger] after.seen_keys[j],
            ) by {
                if j == last {
                    assert(before.seen_keys[i] == after.seen_keys[i]);
                    assert(!same_key(before.seen_keys[i], m));
                } else {
                    assert(before.seen_keys[i] == after.seen_keys[i]);
                    assert(before.seen_keys[j] == after.seen_keys[j]);
                }
            }
            assert(same_key(after.seen_keys[last], m));
        }
        assert forall|i: int| 0 <= i < n implies seen_before(
            after.seen_keys,
            materialized(#[trigger] rows[i])->0,
        ) by {
            if i < n - 1 {
                let w = choose|w: int|
                    0 <= w < before.seen_keys.len() && same_key(
                        #[trigger] before.seen_keys[w],
                        materialized(rows[i])->0,
                    );
                assert(after.seen_keys[w] == before.seen_keys[w]);
            } else if seen_before(before.seen_keys, m) {
                let w = choose|w: int|
                    0 <= w < before.seen_keys.len() && same_key(#[trigger] before.seen_keys[w], m);
                assert(after.seen_keys[w] == before.seen_keys[w]);
            } else {
                assert(same_key(after.seen_keys[before.seen_keys.len() as int], m));
            }
        }
    }
}

/// Every row that a scan meets is yielded exactly once: among the rows
/// yielded there is one, and only one, whose key equals the row's, however
/// often the engine has stepped on the row.
pub proof fn lemma_each_row_once(start: MultiCursorView, rows: Seq<Seq<QueryValueView>>, i: int)
    requires
        start.initted,
        start.multikey,
        start.seen_keys.len() == 0,
        readable(rows),
        0 <= i < rows.len(),
    ensures
        ({
            let yielded = start.scanned(rows, rows.len() as int).1;
            let key = materialized(rows[i])->0;
            &&& exists|j: int|
                0 <= j < yielded.len() && same_key(materialized(#[trigger] yielded[j])->0, key)
            &&& forall|j: int, k: int|
                0 <= j < yielded.len() && 0 <= k < yielded.len() && same_key(
                    materialized(#[trigger] yielded[j])->0,
                    key,
                ) && same_key(materialized(#[trigger] yielded[k])->0, key) ==> j == k
        }),
{
    lemma_scan_yields_once(start, rows, rows.len() as int);
    let (after, yielded) = start.scanned(rows, rows.len() as int);
    let key = materialized(rows[i])->0;
    assert(seen_before(after.seen_keys, key));
    let w = choose|w: int| 0 <= w < after.seen_keys.len() && same_key(
        #[trigger] after.seen_keys[w],
        key,
    );
    assert(after.seen_keys[w] == materialized(yielded[w])->0);
    assert forall|j: int, k: int|
        0 <= j < yielded.len() && 0 <= k < yielded.len() && same_key(
            materialized(#[trigger] yielded[j])->0,
            key,
        ) && same_key(materialized(#[trigger] yielded[k])->0, key) implies j == k by {
        let a = after.seen_keys[j];
        let b = after.seen_keys[k];
        lemma_same_key_symmetric(b, key);
        lemma_same_key_transitive(a, key, b);
        if j < k {
            assert(!same_key(after.seen_keys[j], after.seen_keys[k]));
        }
        if k < j {
            lemma_same_key_symmetric(a, b);
            assert(!same_key(after.seen_keys[k], after.seen_keys[j]));
        }
    }
}

/// What a scan yields depends on the keys seen at its start, and on
/// nothing else that a scan changes.
pub proof fn lemma_scan_from_seen(
    a: MultiCursorView,
    b: MultiCursorView,
    rows: Seq<Seq<QueryValueView>>,
    n: int,
)
    requires
        a.initted == b.initted,
        a.multikey == b.multikey,
        a.seen_keys == b.seen_keys,
    ensures
        a.scanned(rows, n).1 == b.scanned(rows, n).1,
        a.scanned(rows, n).0.seen_keys == b.scanned(rows, n).0.seen_keys,
        a.scanned(rows, n).0.initted == b.scanned(rows, n).0.initted,
        a.scanned(rows, n).0.multikey == b.scanned(rows, n).0.multikey,
    decreases n,
{
    if n > 0 {
        lemma_scan_from_seen(a, b, rows, n - 1);
    }
}

/// A reset makes the scan repeatable: after a scan of any length and a
/// reset, the same rows are yielded again in the same order, the same
/// repetitions being left out, as in a scan that starts with no key seen.
pub proof fn lemma_reset_repeats_scan(
    start: MultiCursorView,
    first: Seq<Seq<QueryValueView>>,
    n: int,
    rows: Seq<Seq<QueryValueView>>,
)
    requires
        start.initted,
        start.seen_keys.len() == 0,
    ensures
        start.scanned(first, n).0.reset().1 is None,
        start.scanned(first, n).0.reset().0.scanned(rows, rows.len() as int).1 == start.scanned(
            rows,
            rows.len() as int,
        ).1,
{
    lemma_scan_keeps_initted(start, first, n);
    let again = start.scanned(first, n).0.reset().0;
    assert(again.seen_keys =~= start.seen_keys);
    lemma_scan_from_seen(again, start, rows, rows.len() as int);
}

/// A scan leaves an executor initialised, and in the same mode.
pub proof fn lemma_scan_keeps_initted(
    start: MultiCursorView,
    rows: Seq<Seq<QueryValueView>>,
    n: int,
)
    requires
        start.initted,
    ensures
        start.scanned(rows, n).0.initted,
        start.scanned(rows, n).0.multikey == start.multikey,
    decreases n,
{
    if n > 0 {
        lemma_scan_keeps_initted(start, rows, n - 1);
    }
}

} // verus!

//! A cursor over the rows that match a forest of predicates, read in
//! batches.

use vstd::prelude::*;
use crate::cursor::{InternalCursor, opened, option_text};
use crate::error::{GlueError, GlueErrorView};
use crate::index_spec::{Probe, invalid_index_spec, probe_views, probes_of, valid_specs};
use crate::multi_cursor::{CursorState, MultiCursor, MultiCursorView, ScanStep, not_initialised};
use crate::query_value::{
    DocumentView, InternalDocument, InternalIndexSpec, document_views, duplicate_values,
    node_views,
};

verus! {

/// The number of rows of a batch where the caller names none.
pub const DEFAULT_BATCH_SIZE: i32 = 100;

/// A cursor over the rows that match a forest of predicates.
#[derive(Debug)]
pub struct InternalFindCursor {
    pub initted: bool,
    pub cursor: MultiCursor,
}

/// A find cursor with the view of its executor.
pub struct FindCursorView {
    pub initted: bool,
    pub cursor: MultiCursorView,
}

impl View for InternalFindCursor {
    type V = FindCursorView;

    open spec fn view(&self) -> FindCursorView {
        FindCursorView { initted: self.initted, cursor: self.cursor@ }
    }
}

/// The number of rows that completes a batch: the size asked for, or 100.
/// A size that is not positive is never reached, so that the batch ends
/// with the scan.
pub open spec fn batch_limit(batch_size_opt: Option<i32>) -> int {
    match batch_size_opt {
        Some(bs) => bs as int,
        None => 100,
    }
}

impl FindCursorView {
    /// The cursor after it was initialised, and the error of the
    /// compilation, if any. A second initialisation changes nothing.
    pub open spec fn initialised(self, exacts: Seq<i32>) -> (FindCursorView, Option<GlueErrorView>) {
        if self.initted {
            (self, None)
        } else {
            (
                FindCursorView { initted: true, cursor: self.cursor.initialised(exacts).0 },
                self.cursor.initialised(exacts).1,
            )
        }
    }

    /// The cursor and the batch after one step of the scan, and whether
    /// the batch is complete. A new row is appended to the batch, which is
    /// complete when it has reached its size; a repetition changes nothing;
    /// the end of the scan completes the batch.
    pub open spec fn batched(
        self,
        limit: int,
        docs: Seq<DocumentView>,
        row: Option<DocumentView>,
    ) -> (FindCursorView, Seq<DocumentView>, Result<bool, GlueErrorView>) {
        let (cursor, step) = self.cursor.stepped(
            match row {
                Some(doc) => Some(doc.key),
                None => None,
            },
        );
        let after = FindCursorView { cursor, ..self };
        match step {
            Err(e) => (after, docs, Err(e)),
            Ok(ScanStep::Exhausted) => (after, docs, Ok(true)),
            Ok(ScanStep::Duplicate) => (after, docs, Ok(false)),
            Ok(ScanStep::Row) => (after, docs.push(row->0), Ok(docs.len() + 1 == limit)),
        }
    }
}

impl InternalFindCursor {
    /// A cursor over the rows of a table that match a forest. It is not
    /// initialised.
    pub fn new(
        table_name: String,
        index_specs: Vec<InternalIndexSpec>,
        columns_joined: Option<String>,
    ) -> (r: Result<Self, GlueError>)
        ensures
            r matches Ok(c) && c@ == (FindCursorView {
                initted: false,
                cursor: MultiCursorView {
                    initted: false,
                    multikey: true,
                    state: CursorState::Uninitialized,
                    cursor: opened(Seq::empty(), None),
                    index_specs: node_views(index_specs@),
                    table_name: table_name@,
                    seen_keys: Seq::empty(),
                    columns_joined: option_text(columns_joined),
                },
            }),
    {
        let cursor = MultiCursor::new(table_name, index_specs, columns_joined)?;
        let internal_cursor = InternalFindCursor { initted: false, cursor };
        Ok(internal_cursor)
    }

    /// The probes to run before the cursor is initialised.
    pub fn probes(&self) -> (r: Result<Vec<Probe>, GlueError>)
        ensures
            r is Ok <==> valid_specs(self@.cursor.index_specs),
            r matches Ok(probes) ==> probe_views(probes@) == probes_of(
                self@.cursor.index_specs,
                self@.cursor.uris().table,
            ),
            r matches Err(e) ==> e@ == invalid_index_spec(),
    {
        self.cursor.probes()
    }

    /// Initialises the cursor, given where each of its probes landed.
    pub fn init(&mut self, exacts: &Vec<i32>) -> (r: Result<(), GlueError>)
        ensures
            final(self)@ == old(self)@.initialised(exacts@).0,
            r is Ok <==> old(self)@.initialised(exacts@).1 is None,
            r matches Err(e) ==> Some(e@) == old(self)@.initialised(exacts@).1,
    {
        if self.initted {
            return Ok(());
        }
        self.initted = true;
        self.cursor.init(exacts)
    }

    /// Records that the initialisation has failed before the forest could
    /// be compiled, because a probe could not be run. The initialisation
    /// counts all the same, and the error is handed back.
    pub fn init_failed(&mut self, error: GlueError) -> (r: Result<(), GlueError>)
        ensures
            final(self)@ == (if old(self).initted {
                old(self)@
            } else {
                FindCursorView {
                    initted: true,
                    cursor: if old(self).cursor.initted {
                        old(self)@.cursor
                    } else {
                        MultiCursorView {
                            initted: true,
                            state: CursorState::Initialized,
                            ..old(self)@.cursor
                        }
                    },
                }
            }),
            r matches Err(e) && e == error,
    {
        if self.initted {
            return Err(error);
        }
        self.initted = true;
        self.cursor.init_failed(error)
    }

    /// The compiled cursor, once the cursor is initialised.
    pub fn get_cursor_impl(&self) -> (r: Result<&InternalCursor, GlueError>)
        ensures
            r is Ok <==> self.cursor.initted,
            r matches Ok(c) ==> *c == self.cursor.cursor,
            r matches Err(e) ==> e@ == not_initialised(),
    {
        self.cursor.get_cursor_impl()
    }

    /// Takes one step in the filling of a batch: the caller has advanced
    /// the compiled cursor and hands over the row read at the new
    /// position, or nothing where the engine had no more rows. Tells
    /// whether the batch is complete.
    pub fn next_batch(
        &mut self,
        batch_size_opt: Option<i32>,
        docs: &mut Vec<InternalDocument>,
        row: Option<InternalDocument>,
    ) -> (r: Result<bool, GlueError>)
        ensures
            ({
                let (after, batch, outcome) = old(self)@.batched(
                    batch_limit(batch_size_opt),
                    document_views(old(docs)@),
                    match row {
                        Some(doc) => Some(doc@),
                        None => None,
                    },
                );
                &&& final(self)@ == after
                &&& document_views(final(docs)@) == batch
                &&& match outcome {
                    Ok(complete) => r == Ok::<bool, GlueError>(complete),
                    Err(error) => r matches Err(e) && e@ == error,
                }
            }),
    {
        let batch_size = match batch_size_opt {
            Some(bs) => bs,
            None => DEFAULT_BATCH_SIZE,
        };
        match row {
            None => {
                let step = self.cursor.next_with_multikey_check(None)?;
                Ok(true)
            },
            Some(doc) => {
                let step = self.cursor.next_with_multikey_check(
                    Some(duplicate_values(&doc.key)),
                )?;
                match step {
                    ScanStep::Exhausted => Ok(true),
                    ScanStep::Duplicate => Ok(false),
                    ScanStep::Row => {
                        let ghost before = document_views(docs@);
                        docs.push(doc);
                        assert(document_views(docs@) =~= before.push(doc@));
                        Ok(batch_size > 0 && docs.len() == batch_size as usize)
                    },
                }
            },
        }
    }
}

} // verus!

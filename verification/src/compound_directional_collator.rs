//! A collator for composite index keys whose columns sort each in its own
//! direction.

use vstd::prelude::*;
use vstd::std_specs::convert::FromSpecImpl;
use crate::error::{GlueError, GlueErrorCode, GlueErrorView, glue_error};
use crate::query_value::{
    Format, InternalValueView, QueryValue, QueryValueView, nul_from, until_nul, views,
};
use crate::utils::{field_is_wt_item, format_error, is_wt_item, parse_format, parsed_format};
use crate::wt_item::WT_ITEM;

verus! {

/// The direction in which a column sorts.
#[derive(PartialEq, Eq, Structural, Copy, Clone, Debug)]
pub enum CollatorDirection {
    REVERSE,
    NONE,
    FORWARD,
}

/// The direction that a configured number stands for: 1 is forward, -1 is
/// reverse, and every other number leaves the direction unspecified.
pub open spec fn direction_of(value: i32) -> CollatorDirection {
    if value == 1 {
        CollatorDirection::FORWARD
    } else if value == -1 {
        CollatorDirection::REVERSE
    } else {
        CollatorDirection::NONE
    }
}

/// The number that stands for a direction.
pub open spec fn direction_number(value: CollatorDirection) -> i32 {
    match value {
        CollatorDirection::FORWARD => 1i32,
        CollatorDirection::NONE => 0i32,
        CollatorDirection::REVERSE => -1i32,
    }
}

impl From<CollatorDirection> for i32 {
    fn from(value: CollatorDirection) -> (n: i32) {
        match value {
            CollatorDirection::FORWARD => 1,
            CollatorDirection::NONE => 0,
            CollatorDirection::REVERSE => -1,
        }
    }
}

impl FromSpecImpl<CollatorDirection> for i32 {
    open spec fn obeys_from_spec() -> bool {
        true
    }

    open spec fn from_spec(value: CollatorDirection) -> i32 {
        direction_number(value)
    }
}

impl From<i32> for CollatorDirection {
    fn from(value: i32) -> (d: CollatorDirection) {
        if value == 1 {
            CollatorDirection::FORWARD
        } else if value == -1 {
            CollatorDirection::REVERSE
        } else {
            CollatorDirection::NONE
        }
    }
}

impl FromSpecImpl<i32> for CollatorDirection {
    open spec fn obeys_from_spec() -> bool {
        true
    }

    open spec fn from_spec(value: i32) -> CollatorDirection {
        direction_of(value)
    }
}

/// The sign of a difference: -1, 0 or 1.
pub open spec fn sign(a: int, b: int) -> int {
    if a < b {
        -1
    } else if a > b {
        1
    } else {
        0
    }
}

/// The byte-wise lexicographic order of `a[i..]` and `b[i..]`: decided by
/// the first position where they differ; where one is a prefix of the
/// other, the shorter comes first.
pub open spec fn lex_from(a: Seq<u8>, b: Seq<u8>, i: int) -> int
    decreases a.len() - i,
{
    if i < 0 || i >= a.len() || i >= b.len() {
        sign(a.len() as int, b.len() as int)
    } else if a[i] != b[i] {
        sign(a[i] as int, b[i] as int)
    } else {
        lex_from(a, b, i + 1)
    }
}

/// The byte-wise lexicographic order of two byte strings, as the engine
/// orders raw items.
pub open spec fn lex_order(a: Seq<u8>, b: Seq<u8>) -> int {
    lex_from(a, b, 0)
}

/// The order of two terminated strings: that of their bytes before the
/// first zero byte.
pub open spec fn string_order(a: Seq<u8>, b: Seq<u8>) -> int {
    lex_order(until_nul(a), until_nul(b))
}

/// The order of two character arrays of at most `size` bytes, each ending
/// at its first zero byte if it has one.
pub open spec fn char_array_order(a: Seq<u8>, b: Seq<u8>, size: nat) -> int {
    lex_order(until_nul(a.take(limit(a, size))), until_nul(b.take(limit(b, size))))
}

/// The number of bytes of `a` that a bound of `size` bytes leaves.
pub open spec fn limit(a: Seq<u8>, size: nat) -> int {
    if size < a.len() {
        size as int
    } else {
        a.len() as int
    }
}

/// Compares `a[..n]` with `b[..m]` byte by byte.
fn lex_compare_prefixes(a: &Vec<u8>, n: usize, b: &Vec<u8>, m: usize) -> (r: i32)
    requires
        n <= a.len(),
        m <= b.len(),
    ensures
        r == lex_order(a@.take(n as int), b@.take(m as int)),
{
    let ghost x = a@.take(n as int);
    let ghost y = b@.take(m as int);
    let mut i: usize = 0;
    while i < n && i < m
        invariant
            i <= n <= a.len(),
            i <= m <= b.len(),
            x == a@.take(n as int),
            y == b@.take(m as int),
            lex_order(x, y) == lex_from(x, y, i as int),
        decreases n - i,
    {
        if a[i] < b[i] {
            return -1;
        }
        if a[i] > b[i] {
            return 1;
        }
        i += 1;
    }
    if n < m {
        -1
    } else if n > m {
        1
    } else {
        0
    }
}

/// Compares two raw items as the engine does.
pub fn lex_compare(a: &Vec<u8>, b: &Vec<u8>) -> (r: i32)
    ensures
        r == lex_order(a@, b@),
{
    assert(a@.take(a.len() as int) =~= a@);
    assert(b@.take(b.len() as int) =~= b@);
    lex_compare_prefixes(a, a.len(), b, b.len())
}

/// The length of the string that starts `a[..n]`.
fn bounded_nul_position(a: &Vec<u8>, n: usize) -> (k: usize)
    requires
        n <= a.len(),
    ensures
        k <= n,
        a@.take(k as int) == until_nul(a@.take(n as int)),
{
    let ghost x = a@.take(n as int);
    let mut i: usize = 0;
    while i < n && a[i] != 0
        invariant
            i <= n <= a.len(),
            x == a@.take(n as int),
            nul_from(x, 0) == nul_from(x, i as int),
        decreases n - i,
    {
        i += 1;
    }
    assert(a@.take(i as int) =~= x.subrange(0, i as int));
    i
}

/// Compares two terminated strings.
pub fn compare_strings(a: &Vec<u8>, b: &Vec<u8>) -> (r: i32)
    ensures
        r == string_order(a@, b@),
{
    assert(a@.take(a.len() as int) =~= a@);
    assert(b@.take(b.len() as int) =~= b@);
    let n = bounded_nul_position(a, a.len());
    let m = bounded_nul_position(b, b.len());
    lex_compare_prefixes(a, n, b, m)
}

/// Compares two character arrays of at most `size` bytes.
pub fn compare_char_arrays(a: &Vec<u8>, b: &Vec<u8>, size: u64) -> (r: i32)
    ensures
        r == char_array_order(a@, b@, size as nat),
{
    let n0: usize = if size < a.len() as u64 { size as usize } else { a.len() };
    let m0: usize = if size < b.len() as u64 { size as usize } else { b.len() };
    let n = bounded_nul_position(a, n0);
    let m = bounded_nul_position(b, m0);
    lex_compare_prefixes(a, n, b, m)
}

/// The order of two numbers by their raw values.
pub fn compare_numbers(a: u64, b: u64) -> (r: i32)
    ensures
        r == sign(a as int, b as int),
{
    if a < b {
        -1
    } else if a > b {
        1
    } else {
        0
    }
}

/// Byte order is antisymmetric.
pub proof fn lemma_lex_from_antisymmetric(a: Seq<u8>, b: Seq<u8>, i: int)
    ensures
        lex_from(a, b, i) == -lex_from(b, a, i),
    decreases a.len() - i,
{
    if 0 <= i < a.len() && i < b.len() && a[i] == b[i] {
        lemma_lex_from_antisymmetric(a, b, i + 1);
    }
}

/// Two byte strings compare equal from `i` on exactly when they have the
/// same length and the same bytes from `i` on.
pub proof fn lemma_lex_from_zero(a: Seq<u8>, b: Seq<u8>, i: int)
    requires
        0 <= i,
    ensures
        lex_from(a, b, i) == 0 <==> (a.len() == b.len() && forall|j: int|
            i <= j < a.len() ==> a[j] == b[j]),
    decreases a.len() - i,
{
    if i < a.len() && i < b.len() && a[i] == b[i] {
        lemma_lex_from_zero(a, b, i + 1);
        if a.len() == b.len() && (forall|j: int| i + 1 <= j < a.len() ==> a[j] == b[j]) {
            assert forall|j: int| i <= j < a.len() implies a[j] == b[j] by {}
        }
    }
}

/// Byte order is a total order on byte strings: antisymmetric, and zero
/// exactly on equal strings.
pub proof fn lemma_lex_order(a: Seq<u8>, b: Seq<u8>)
    ensures
        lex_order(a, b) == -lex_order(b, a),
        lex_order(a, b) == 0 <==> a == b,
        -1 <= lex_order(a, b) <= 1,
{
    lemma_lex_from_antisymmetric(a, b, 0);
    lemma_lex_from_zero(a, b, 0);
    lemma_lex_from_range(a, b, 0);
    if a.len() == b.len() && (forall|j: int| 0 <= j < a.len() ==> a[j] == b[j]) {
        assert(a =~= b);
    }
}

/// Byte order is one of -1, 0 and 1.
pub proof fn lemma_lex_from_range(a: Seq<u8>, b: Seq<u8>, i: int)
    ensures
        -1 <= lex_from(a, b, i) <= 1,
    decreases a.len() - i,
{
    if 0 <= i < a.len() && i < b.len() && a[i] == b[i] {
        lemma_lex_from_range(a, b, i + 1);
    }
}

/// Byte order is transitive.
pub proof fn lemma_lex_from_transitive(a: Seq<u8>, b: Seq<u8>, c: Seq<u8>, i: int)
    requires
        0 <= i,
        lex_from(a, b, i) <= 0,
        lex_from(b, c, i) <= 0,
    ensures
        lex_from(a, c, i) <= 0,
        lex_from(a, c, i) == 0 ==> lex_from(a, b, i) == 0 && lex_from(b, c, i) == 0,
    decreases a.len() - i,
{
    if i < a.len() && i < b.len() && i < c.len() && a[i] == b[i] && b[i] == c[i] {
        lemma_lex_from_transitive(a, b, c, i + 1);
    }
}

/// One column of the collator: how its values are stored and in which
/// direction they sort.
#[derive(PartialEq, Eq, Structural, Copy, Clone, Debug)]
pub struct CompoundDirectionalCollatorColumnConfig {
    pub format: Format,
    pub direction: CollatorDirection,
}

/// One column as the index declares it: its format string and the number
/// of its direction.
#[derive(Clone, Debug)]
pub struct CollatorColumn {
    pub format: String,
    pub direction: i32,
}

/// A declared column with its format as a sequence of characters.
pub struct CollatorColumnView {
    pub format: Seq<char>,
    pub direction: i32,
}

impl View for CollatorColumn {
    type V = CollatorColumnView;

    open spec fn view(&self) -> CollatorColumnView {
        CollatorColumnView { format: self.format@, direction: self.direction }
    }
}

/// The collator of one index.
#[derive(Clone, Debug)]
pub struct InternalWiredTigerCompoundDirectionalCollator {
    /// The direction that all columns share, `NONE` where they do not.
    pub direction: CollatorDirection,
    pub column_configs: Vec<CompoundDirectionalCollatorColumnConfig>,
    /// The columns of the index's key format.
    pub compare_format: Vec<Format>,
    pub unique: bool,
    pub key_format: String,
}

/// A collator with its sequences in place of its vectors.
pub struct CollatorView {
    pub direction: CollatorDirection,
    pub column_configs: Seq<CompoundDirectionalCollatorColumnConfig>,
    pub compare_format: Seq<Format>,
    pub unique: bool,
    pub key_format: Seq<char>,
}

impl View for InternalWiredTigerCompoundDirectionalCollator {
    type V = CollatorView;

    open spec fn view(&self) -> CollatorView {
        CollatorView {
            direction: self.direction,
            column_configs: self.column_configs@,
            compare_format: self.compare_format@,
            unique: self.unique,
            key_format: self.key_format@,
        }
    }
}

/// The column that a declared column stands for: the first column of its
/// format, with its direction. A format that cannot be read, or that has
/// no column, is an error.
pub open spec fn column_config_of(column: CollatorColumnView) -> Result<
    CompoundDirectionalCollatorColumnConfig,
    GlueErrorView,
> {
    match format_error(column.format) {
        Some(e) => Err(e),
        None => if parsed_format(column.format).0.len() == 0 {
            Err(glue_error(GlueErrorCode::UnlikelyNoValue, Seq::empty()))
        } else {
            Ok(
                CompoundDirectionalCollatorColumnConfig {
                    format: parsed_format(column.format).0[0],
                    direction: direction_of(column.direction),
                },
            )
        },
    }
}

/// The views of declared columns, one for one.
pub open spec fn column_views(columns: Seq<CollatorColumn>) -> Seq<CollatorColumnView> {
    columns.map_values(|c: CollatorColumn| c@)
}

/// The number of declared columns before the first one that is an error.
pub open spec fn good_columns(columns: Seq<CollatorColumnView>, i: int) -> int
    decreases columns.len() - i,
{
    if 0 <= i < columns.len() && column_config_of(columns[i]) is Ok {
        good_columns(columns, i + 1)
    } else {
        i
    }
}

/// The columns that the first `n` declared columns stand for.
pub open spec fn column_configs_of(columns: Seq<CollatorColumnView>, n: int) -> Seq<
    CompoundDirectionalCollatorColumnConfig,
> {
    Seq::new(n as nat, |i: int| column_config_of(columns[i])->Ok_0)
}

/// Whether the columns share one direction: each has the direction of the
/// first.
pub open spec fn same_direction(configs: Seq<CompoundDirectionalCollatorColumnConfig>) -> bool {
    forall|i: int|
        0 <= i < configs.len() ==> (#[trigger] configs[i]).direction == configs[0].direction
}

/// The direction of the last column; `NONE` where there is no column.
pub open spec fn last_direction(
    configs: Seq<CompoundDirectionalCollatorColumnConfig>,
) -> CollatorDirection {
    if configs.len() == 0 {
        CollatorDirection::NONE
    } else {
        configs.last().direction
    }
}

impl CollatorView {
    /// The collator with the declared columns added, up to the first one in
    /// error.
    pub open spec fn declared(self, columns: Seq<CollatorColumnView>) -> CollatorView {
        CollatorView {
            column_configs: self.column_configs + column_configs_of(
                columns,
                good_columns(columns, 0),
            ),
            ..self
        }
    }

    /// The collator once all its columns are declared, and the error that
    /// keeps it from being complete, if any. A direction that the columns
    /// share is recorded, and an index that is not unique gets one more
    /// column: the last column of its key format, which holds the row's
    /// identity, in the direction of the last declared column.
    pub open spec fn completed(self) -> (CollatorView, Option<GlueErrorView>) {
        let direction = if same_direction(self.column_configs) {
            last_direction(self.column_configs)
        } else {
            self.direction
        };
        if self.unique {
            (CollatorView { direction, ..self }, None)
        } else if self.compare_format.len() == 0 {
            (
                CollatorView { direction, ..self },
                Some(glue_error(GlueErrorCode::UnlikelyNoValue, Seq::empty())),
            )
        } else {
            (
                CollatorView {
                    column_configs: self.column_configs.push(
                        CompoundDirectionalCollatorColumnConfig {
                            format: self.compare_format.last(),
                            direction: last_direction(self.column_configs),
                        },
                    ),
                    direction,
                    ..self
                },
                None,
            )
        }
    }

    /// The collator after the given columns were declared, and the error
    /// that stopped the declaration, if any. Columns are taken up to the
    /// first one in error; when all are taken, the collator is completed.
    pub open spec fn configured(self, columns: Seq<CollatorColumnView>) -> (
        CollatorView,
        Option<GlueErrorView>,
    ) {
        let good = good_columns(columns, 0);
        if good < columns.len() {
            (self.declared(columns), Some(column_config_of(columns[good])->Err_0))
        } else {
            self.declared(columns).completed()
        }
    }
}

impl InternalWiredTigerCompoundDirectionalCollator {
    /// A collator for an index with the given key format, with no column
    /// declared yet. Fails where the key format cannot be read.
    pub fn new(key_format: String, _index_id: String) -> (r: Result<Self, GlueError>)
        ensures
            r is Ok <==> format_error(key_format@) is None,
            r matches Ok(c) ==> c@ == (CollatorView {
                direction: CollatorDirection::NONE,
                column_configs: Seq::empty(),
                compare_format: parsed_format(key_format@).0,
                unique: false,
                key_format: key_format@,
            }),
            r matches Err(e) ==> Some(e@) == format_error(key_format@),
    {
        let mut compare_format: Vec<Format> = Vec::new();
        parse_format(key_format.clone(), &mut compare_format)?;
        assert(compare_format@ =~= parsed_format(key_format@).0);
        Ok(
            InternalWiredTigerCompoundDirectionalCollator {
                column_configs: Vec::new(),
                unique: false,
                key_format,
                direction: CollatorDirection::NONE,
                compare_format,
            },
        )
    }

    /// Declares one more column. Nothing changes where its format is in
    /// error.
    pub fn extract_column_configuration(&mut self, column_config: &CollatorColumn) -> (r: Result<
        (),
        GlueError,
    >)
        ensures
            r is Ok <==> column_config_of(column_config@) is Ok,
            r is Ok ==> final(self)@ == (CollatorView {
                column_configs: old(self)@.column_configs.push(
                    column_config_of(column_config@)->Ok_0,
                ),
                ..old(self)@
            }),
            r matches Err(e) ==> final(self)@ == old(self)@ && Err::<
                CompoundDirectionalCollatorColumnConfig,
                GlueErrorView,
            >(e@) == column_config_of(column_config@),
    {
        let mut formats: Vec<Format> = Vec::new();
        parse_format(column_config.format.clone(), &mut formats)?;
        assert(formats@ =~= parsed_format(column_config.format@).0);
        if formats.len() == 0 {
            return Err(GlueError::for_glue(GlueErrorCode::UnlikelyNoValue));
        }
        let column = CompoundDirectionalCollatorColumnConfig {
            direction: CollatorDirection::from(column_config.direction),
            format: formats[0],
        };
        self.column_configs.push(column);
        Ok(())
    }

    /// Tells whether the declared columns share one direction.
    fn shares_direction(&self) -> (same: bool)
        ensures
            same == same_direction(self.column_configs@),
    {
        let mut i: usize = 1;
        while i < self.column_configs.len()
            invariant
                1 <= i,
                forall|j: int|
                    0 <= j < i && j < self.column_configs@.len() ==> (
                    #[trigger] self.column_configs@[j]).direction
                        == self.column_configs@[0].direction,
            decreases self.column_configs.len() - i,
        {
            if self.column_configs[i].direction != self.column_configs[0].direction {
                return false;
            }
            i += 1;
        }
        true
    }

    /// Declares the given columns, up to the first one in error.
    fn declare_columns(&mut self, columns: &Vec<CollatorColumn>) -> (r: Result<(), GlueError>)
        ensures
            final(self)@ == old(self)@.declared(column_views(columns@)),
            0 <= good_columns(column_views(columns@), 0) <= columns@.len(),
            r is Ok <==> good_columns(column_views(columns@), 0) == columns@.len(),
            r matches Err(e) ==> e@ == column_config_of(
                column_views(columns@)[good_columns(column_views(columns@), 0)],
            )->Err_0,
    {
        let ghost cols = column_views(columns@);
        let mut i: usize = 0;
        while i < columns.len()
            invariant
                i <= columns.len(),
                cols == column_views(columns@),
                good_columns(cols, 0) == good_columns(cols, i as int),
                self.column_configs@ == old(self).column_configs@ + column_configs_of(
                    cols,
                    i as int,
                ),
                self.direction == old(self).direction,
                self.compare_format@ == old(self).compare_format@,
                self.unique == old(self).unique,
                self.key_format@ == old(self).key_format@,
            decreases columns.len() - i,
        {
            assert(cols[i as int] == columns@[i as int]@);
            match self.extract_column_configuration(&columns[i]) {
                Ok(()) => {},
                Err(e) => {
                    assert(good_columns(cols, i as int) == i);
                    return Err(e);
                },
            }
            proof {
                assert(self.column_configs@ =~= old(self).column_configs@ + column_configs_of(
                    cols,
                    i as int + 1,
                ));
            }
            i += 1;
        }
        Ok(())
    }

    /// Completes the collator once its columns are declared.
    fn complete(&mut self) -> (r: Result<(), GlueError>)
        ensures
            final(self)@ == old(self)@.completed().0,
            r is Ok <==> old(self)@.completed().1 is None,
            r matches Err(e) ==> Some(e@) == old(self)@.completed().1,
    {
        let last_direction = if self.column_configs.len() == 0 {
            CollatorDirection::NONE
        } else {
            self.column_configs[self.column_configs.len() - 1].direction
        };
        if self.shares_direction() {
            self.direction = last_direction;
        }
        if !self.unique {
            if self.compare_format.len() == 0 {
                return Err(GlueError::for_glue(GlueErrorCode::UnlikelyNoValue));
            }
            let key_format = self.compare_format[self.compare_format.len() - 1];
            self.column_configs.push(
                CompoundDirectionalCollatorColumnConfig {
                    direction: last_direction,
                    format: Format { format: key_format.format, size: key_format.size },
                },
            );
        }
        Ok(())
    }

    /// Declares the index's columns and completes the collator.
    pub fn extract_columns_configuration(&mut self, columns: &Vec<CollatorColumn>) -> (r: Result<
        (),
        GlueError,
    >)
        ensures
            final(self)@ == old(self)@.configured(column_views(columns@)).0,
            r is Ok <==> old(self)@.configured(column_views(columns@)).1 is None,
            r matches Err(e) ==> Some(e@) == old(self)@.configured(column_views(columns@)).1,
    {
        match self.declare_columns(columns) {
            Ok(()) => {},
            Err(e) => {
                return Err(e);
            },
        }
        self.complete()
    }

    /// The collator of an index, from the settings that the index was
    /// created with.
    pub fn static_customize_internal(
        key_format: String,
        index_id: String,
        unique: bool,
        columns: &Vec<CollatorColumn>,
    ) -> (r: Result<Self, GlueError>)
        ensures
            r is Ok <==> format_error(key_format@) is None && customized(
                key_format@,
                unique,
                column_views(columns@),
            ).1 is None,
            r matches Ok(c) ==> c@ == customized(key_format@, unique, column_views(columns@)).0,
            r matches Err(e) ==> Some(e@) == (if format_error(key_format@) is Some {
                format_error(key_format@)
            } else {
                customized(key_format@, unique, column_views(columns@)).1
            }),
    {
        let mut collator = InternalWiredTigerCompoundDirectionalCollator::new(key_format, index_id)?;
        collator.unique = unique;
        collator.extract_columns_configuration(columns)?;
        Ok(collator)
    }
}

/// The collator that the given settings describe, and the error in its
/// columns, if any.
pub open spec fn customized(key_format: Seq<char>, unique: bool, columns: Seq<CollatorColumnView>) -> (
    CollatorView,
    Option<GlueErrorView>,
) {
    (CollatorView {
        direction: CollatorDirection::NONE,
        column_configs: Seq::empty(),
        compare_format: parsed_format(key_format).0,
        unique,
        key_format,
    }).configured(columns)
}

/// Whether values of this format are byte strings; the others are numbers.
pub open spec fn is_byte_format(format: char) -> bool {
    format == 'S' || format == 's' || is_wt_item(format)
}

/// The order of two values of one column, before its direction is applied:
/// strings as terminated strings, character arrays within the column's
/// size, raw items byte by byte, and numbers by their raw values. `None`
/// where a value is not of the kind that the format asks for.
pub open spec fn column_order(format: Format, a: InternalValueView, b: InternalValueView) -> Option<
    int,
> {
    if is_byte_format(format.format) {
        match (a, b) {
            (InternalValueView::ByteArrayBox(x), InternalValueView::ByteArrayBox(y)) => Some(
                if format.format == 'S' {
                    string_order(x, y)
                } else if format.format == 's' {
                    char_array_order(x, y, format.size as nat)
                } else {
                    lex_order(x, y)
                },
            ),
            _ => None,
        }
    } else {
        match (a, b) {
            (InternalValueView::UInt(x), InternalValueView::UInt(y)) => Some(
                sign(x as int, y as int),
            ),
            _ => None,
        }
    }
}

/// The error for a value that is not of the kind that the format asks for.
pub open spec fn column_error(format: Format) -> GlueErrorView {
    glue_error(
        GlueErrorCode::AccessEmptyBox,
        if is_byte_format(format.format) {
            " getting byte array"@
        } else {
            " getting uint"@
        },
    )
}

/// The order of two keys from column `i` on. The first column in which the
/// keys differ decides, in that column's direction: the reverse direction
/// inverts the column's order, every other direction keeps it. Keys that
/// differ in no column are equal. A column that a key has no value for, or a value of
/// the wrong kind, is an error, unless an earlier column has decided.
pub open spec fn key_order_from(
    configs: Seq<CompoundDirectionalCollatorColumnConfig>,
    key1: Seq<QueryValueView>,
    key2: Seq<QueryValueView>,
    i: int,
) -> Result<int, GlueErrorView>
    decreases configs.len() - i,
{
    if i < 0 || i >= configs.len() {
        Ok(0)
    } else if i >= key1.len() || i >= key2.len() {
        Err(glue_error(GlueErrorCode::UnlikelyNoValue, Seq::empty()))
    } else {
        match column_order(configs[i].format, key1[i].internal_value, key2[i].internal_value) {
            None => Err(column_error(configs[i].format)),
            Some(c) => if c != 0 {
                Ok(
                    if configs[i].direction == CollatorDirection::REVERSE {
                        -c
                    } else {
                        c
                    },
                )
            } else {
                key_order_from(configs, key1, key2, i + 1)
            },
        }
    }
}

/// The order of two keys, column by column.
pub open spec fn key_order(
    configs: Seq<CompoundDirectionalCollatorColumnConfig>,
    key1: Seq<QueryValueView>,
    key2: Seq<QueryValueView>,
) -> Result<int, GlueErrorView> {
    key_order_from(configs, key1, key2, 0)
}

/// The order of two packed keys where all columns share a direction: the
/// byte order of the keys, inverted for the reverse direction. `None` where
/// they share none.
pub open spec fn raw_order(direction: CollatorDirection, key1: Seq<u8>, key2: Seq<u8>) -> Option<
    int,
> {
    match direction {
        CollatorDirection::FORWARD => Some(lex_order(key1, key2)),
        CollatorDirection::REVERSE => Some(-lex_order(key1, key2)),
        CollatorDirection::NONE => None,
    }
}

/// Compares two values of one column.
pub fn compare_column(format: &Format, a: &QueryValue, b: &QueryValue) -> (r: Result<
    i32,
    GlueError,
>)
    ensures
        r is Ok <==> column_order(*format, a@.internal_value, b@.internal_value) is Some,
        r matches Ok(c) ==> Some(c as int) == column_order(
            *format,
            a@.internal_value,
            b@.internal_value,
        ),
        r matches Err(e) ==> e@ == column_error(*format),
{
    let format_char = format.format;
    if format_char == 'S' || format_char == 's' || field_is_wt_item(format_char) {
        let x = a.get_byte_array()?;
        let y = b.get_byte_array()?;
        if format_char == 'S' {
            Ok(compare_strings(x, y))
        } else if format_char == 's' {
            Ok(compare_char_arrays(x, y, format.size))
        } else {
            Ok(lex_compare(x, y))
        }
    } else {
        let x = a.get_uint()?;
        let y = b.get_uint()?;
        Ok(compare_numbers(*x, *y))
    }
}

impl InternalWiredTigerCompoundDirectionalCollator {
    /// Compares two packed keys without decoding them, where the columns
    /// share a direction. `None` tells the caller to decode both keys and
    /// to compare their columns.
    pub fn compare(&self, key1: &WT_ITEM, key2: &WT_ITEM) -> (r: Option<i32>)
        ensures
            r is Some <==> raw_order(self.direction, key1@.bytes(), key2@.bytes()) is Some,
            r matches Some(c) ==> Some(c as int) == raw_order(
                self.direction,
                key1@.bytes(),
                key2@.bytes(),
            ),
    {
        if self.direction == CollatorDirection::NONE {
            return None;
        }
        assert(key1@.bytes() =~= key1.data@.take(key1@.bytes().len() as int));
        assert(key2@.bytes() =~= key2.data@.take(key2@.bytes().len() as int));
        let order = lex_compare_prefixes(&key1.data, key1.length(), &key2.data, key2.length());
        proof {
            lemma_lex_order(key1@.bytes(), key2@.bytes());
        }
        if self.direction == CollatorDirection::FORWARD {
            Some(order)
        } else {
            Some(-order)
        }
    }

    /// Compares two decoded keys column by column, each column in its own
    /// direction.
    pub fn compare_columns(&self, key1_values: &Vec<QueryValue>, key2_values: &Vec<QueryValue>) -> (r:
        Result<i32, GlueError>)
        ensures
            r is Ok <==> key_order(
                self.column_configs@,
                views(key1_values@),
                views(key2_values@),
            ) is Ok,
            r matches Ok(c) ==> Ok::<int, GlueErrorView>(c as int) == key_order(
                self.column_configs@,
                views(key1_values@),
                views(key2_values@),
            ),
            r matches Err(e) ==> Err::<int, GlueErrorView>(e@) == key_order(
                self.column_configs@,
                views(key1_values@),
                views(key2_values@),
            ),
    {
        let ghost k1 = views(key1_values@);
        let ghost k2 = views(key2_values@);
        let mut i: usize = 0;
        while i < self.column_configs.len()
            invariant
                i <= self.column_configs.len(),
                k1 == views(key1_values@),
                k2 == views(key2_values@),
                key_order(self.column_configs@, k1, k2) == key_order_from(
                    self.column_configs@,
                    k1,
                    k2,
                    i as int,
                ),
            decreases self.column_configs.len() - i,
        {
            let column = &self.column_configs[i];
            if i >= key1_values.len() || i >= key2_values.len() {
                return Err(GlueError::for_glue(GlueErrorCode::UnlikelyNoValue));
            }
            assert(k1[i as int] == key1_values@[i as int]@);
            assert(k2[i as int] == key2_values@[i as int]@);
            let order = compare_column(&column.format, &key1_values[i], &key2_values[i])?;
            proof {
                lemma_column_order_range(
                    column.format,
                    k1[i as int].internal_value,
                    k2[i as int].internal_value,
                );
            }
            if order != 0 {
                return Ok(
                    if column.direction == CollatorDirection::REVERSE {
                        -order
                    } else {
                        order
                    },
                );
            }
            i += 1;
        }
        Ok(0)
    }
}

/// The order of two values of a column is one of -1, 0 and 1.
pub proof fn lemma_column_order_range(format: Format, a: InternalValueView, b: InternalValueView)
    ensures
        column_order(format, a, b) matches Some(c) ==> -1 <= c <= 1,
{
    match (a, b) {
        (InternalValueView::ByteArrayBox(x), InternalValueView::ByteArrayBox(y)) => {
            lemma_lex_order(until_nul(x), until_nul(y));
            lemma_lex_order(
                until_nul(x.take(limit(x, format.size as nat))),
                until_nul(y.take(limit(y, format.size as nat))),
            );
            lemma_lex_order(x, y);
        },
        _ => {},
    }
}

/// Exchanging the two values of a column inverts their order.
pub proof fn lemma_column_order_antisymmetric(
    format: Format,
    a: InternalValueView,
    b: InternalValueView,
)
    ensures
        column_order(format, a, b) is Some <==> column_order(format, b, a) is Some,
        column_order(format, a, b) matches Some(c) ==> column_order(format, b, a) == Some(-c),
{
    match (a, b) {
        (InternalValueView::ByteArrayBox(x), InternalValueView::ByteArrayBox(y)) => {
            lemma_lex_order(until_nul(x), until_nul(y));
            lemma_lex_order(
                until_nul(x.take(limit(x, format.size as nat))),
                until_nul(y.take(limit(y, format.size as nat))),
            );
            lemma_lex_order(x, y);
        },
        _ => {},
    }
}

/// The collator's order is antisymmetric: exchanging the two keys inverts
/// the result, and gives the same error where there is one.
pub proof fn lemma_key_order_antisymmetric(
    configs: Seq<CompoundDirectionalCollatorColumnConfig>,
    key1: Seq<QueryValueView>,
    key2: Seq<QueryValueView>,
    i: int,
)
    ensures
        key_order_from(configs, key2, key1, i) == (match key_order_from(configs, key1, key2, i) {
            Ok(c) => Ok(-c),
            Err(e) => Err(e),
        }),
        key_order_from(configs, key1, key2, i) matches Ok(c) ==> -1 <= c <= 1,
    decreases configs.len() - i,
{
    if 0 <= i < configs.len() && i < key1.len() && i < key2.len() {
        lemma_column_order_antisymmetric(
            configs[i].format,
            key1[i].internal_value,
            key2[i].internal_value,
        );
        lemma_column_order_range(configs[i].format, key1[i].internal_value, key2[i].internal_value);
        lemma_key_order_antisymmetric(configs, key1, key2, i + 1);
    }
}

/// The order of undecoded keys is antisymmetric too, in either shared
/// direction.
pub proof fn lemma_raw_order_antisymmetric(direction: CollatorDirection, key1: Seq<u8>, key2: Seq<u8>)
    ensures
        raw_order(direction, key2, key1) == (match raw_order(direction, key1, key2) {
            Some(c) => Some(-c),
            None => None,
        }),
{
    lemma_lex_order(key1, key2);
}

/// The order of the values of a column is transitive: a value that is not
/// after a second one, which is not after a third one, is not after the
/// third one; and it equals the third one only where all three are equal.
pub proof fn lemma_column_order_transitive(
    format: Format,
    a: InternalValueView,
    b: InternalValueView,
    c: InternalValueView,
)
    requires
        column_order(format, a, b) matches Some(x) && x <= 0,
        column_order(format, b, c) matches Some(y) && y <= 0,
    ensures
        column_order(format, a, c) matches Some(z) && z <= 0 && (z == 0 ==> column_order(
            format,
            a,
            b,
        ) == Some(0int) && column_order(format, b, c) == Some(0int)),
{
    match (a, b, c) {
        (
            InternalValueView::ByteArrayBox(x),
            InternalValueView::ByteArrayBox(y),
            InternalValueView::ByteArrayBox(z),
        ) => {
            if format.format == 'S' {
                lemma_lex_from_transitive(until_nul(x), until_nul(y), until_nul(z), 0);
            } else if format.format == 's' {
                let n = format.size as nat;
                lemma_lex_from_transitive(
                    until_nul(x.take(limit(x, n))),
                    until_nul(y.take(limit(y, n))),
                    until_nul(z.take(limit(z, n))),
                    0,
                );
            } else {
                lemma_lex_from_transitive(x, y, z, 0);
            }
        },
        _ => {},
    }
}

/// The collator's order is transitive: a key that is not after a second
/// one, which is not after a third one, is not after the third one.
pub proof fn lemma_key_order_transitive(
    configs: Seq<CompoundDirectionalCollatorColumnConfig>,
    key1: Seq<QueryValueView>,
    key2: Seq<QueryValueView>,
    key3: Seq<QueryValueView>,
    i: int,
)
    requires
        0 <= i,
        key_order_from(configs, key1, key2, i) matches Ok(x) && x <= 0,
        key_order_from(configs, key2, key3, i) matches Ok(y) && y <= 0,
    ensures
        key_order_from(configs, key1, key3, i) matches Ok(z) && z <= 0,
    decreases configs.len() - i,
{
    if i < configs.len() {
        let f = configs[i].format;
        let a = key1[i].internal_value;
        let b = key2[i].internal_value;
        let c = key3[i].internal_value;
        let ab = column_order(f, a, b)->0;
        let bc = column_order(f, b, c)->0;
        lemma_column_order_range(f, a, b);
        lemma_column_order_range(f, b, c);
        if configs[i].direction != CollatorDirection::REVERSE {
            lemma_column_order_transitive(f, a, b, c);
            if ab == 0 && bc == 0 {
                lemma_key_order_transitive(configs, key1, key2, key3, i + 1);
            }
        } else {
            // the reverse direction inverts the column: argue on the keys exchanged
            lemma_column_order_antisymmetric(f, a, b);
            lemma_column_order_antisymmetric(f, b, c);
            lemma_column_order_transitive(f, c, b, a);
            lemma_column_order_antisymmetric(f, c, a);
            if ab == 0 && bc == 0 {
                lemma_key_order_transitive(configs, key1, key2, key3, i + 1);
            }
        }
    }
}

/// The result of a comparison, as callers name it.
#[derive(PartialEq, Eq, Structural, Clone, Copy, Debug)]
pub enum Comparison {
    LessThan,
    Equal,
    GreaterThan,
}

/// The name of an order: negative is less, zero is equal, positive is
/// greater.
pub open spec fn comparison_of(order: int) -> Comparison {
    if order < 0 {
        Comparison::LessThan
    } else if order > 0 {
        Comparison::GreaterThan
    } else {
        Comparison::Equal
    }
}

impl Comparison {
    /// The number that the engine knows the comparison by: -1, 0 or 1.
    pub fn number(&self) -> (n: i32)
        ensures
            n == (match *self {
                Comparison::LessThan => -1i32,
                Comparison::Equal => 0i32,
                Comparison::GreaterThan => 1i32,
            }),
            comparison_of(n as int) == *self,
    {
        match self {
            Comparison::LessThan => -1,
            Comparison::Equal => 0,
            Comparison::GreaterThan => 1,
        }
    }

    /// The comparison that an order stands for.
    pub fn of(order: i32) -> (c: Self)
        ensures
            c == comparison_of(order as int),
    {
        if order < 0 {
            Comparison::LessThan
        } else if order > 0 {
            Comparison::GreaterThan
        } else {
            Comparison::Equal
        }
    }
}

} // verus!

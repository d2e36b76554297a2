//! An extractor that derives the entries of a secondary index from a stored
//! row, with columns that may hold several values for one row.

use vstd::prelude::*;
use vstd::string::*;
use crate::error::{
    GlueError, GlueErrorCode, GlueErrorView, WT_DUPLICATE_KEY, WT_NOTFOUND, glue_error,
};
use crate::query_value::{
    ExternalValue, ExternalValueView, Format, InternalValue, InternalValueView, QueryValue,
    QueryValueView, duplicate_values, nul_position, until_nul, views,
};
use crate::utils::{
    byte_views, extract_ngrams_for_string, extract_words_for_string, format_error, ngrams,
    parse_format, parsed_format, words,
};

verus! {

/// How an index column derives its values from the row.
#[derive(PartialEq, Eq, Structural, Clone, Copy, Debug)]
pub enum ExtractorType {
    NONE,
    NGRAMS,
    WORDS,
}

/// The extractor that a configured name stands for.
pub open spec fn extractor_named(name: Seq<char>) -> ExtractorType {
    if name == "ngrams"@ {
        ExtractorType::NGRAMS
    } else if name == "words"@ {
        ExtractorType::WORDS
    } else {
        ExtractorType::NONE
    }
}

impl ExtractorType {
    /// The extractor that a configured name stands for: `ngrams` or
    /// `words`; every other name stands for none.
    pub fn from_str(str: String) -> (t: Self)
        ensures
            t == extractor_named(str@),
    {
        if str == String::from_str("ngrams") {
            return ExtractorType::NGRAMS;
        }
        if str == String::from_str("words") {
            return ExtractorType::WORDS;
        }
        ExtractorType::NONE
    }
}

/// One column of the index.
#[derive(Clone, Debug)]
pub struct MultiKeyExtractorColumnConfig {
    /// The positions, in the stored row, of the columns that feed this one.
    pub columns: Vec<u32>,
    pub extractor_type: ExtractorType,
    pub format: Format,
    /// The length of the n-grams, where the column makes n-grams.
    pub ngrams: u32,
}

/// A column of the index with a sequence for its source positions.
pub struct ColumnConfigView {
    pub columns: Seq<u32>,
    pub extractor_type: ExtractorType,
    pub format: Format,
    pub ngrams: u32,
}

impl View for MultiKeyExtractorColumnConfig {
    type V = ColumnConfigView;

    open spec fn view(&self) -> ColumnConfigView {
        ColumnConfigView {
            columns: self.columns@,
            extractor_type: self.extractor_type,
            format: self.format,
            ngrams: self.ngrams,
        }
    }
}

/// One column as the index declares it. The source columns are counted
/// from 1.
#[derive(Clone, Debug)]
pub struct ExtractorColumn {
    pub format: String,
    pub columns: Vec<u32>,
    pub extractor: Option<String>,
    pub ngrams: Option<u32>,
}

/// A declared column with sequences in place of its strings and vector.
pub struct ExtractorColumnView {
    pub format: Seq<char>,
    pub columns: Seq<u32>,
    pub extractor: Option<Seq<char>>,
    pub ngrams: Option<u32>,
}

impl View for ExtractorColumn {
    type V = ExtractorColumnView;

    open spec fn view(&self) -> ExtractorColumnView {
        ExtractorColumnView {
            format: self.format@,
            columns: self.columns@,
            extractor: match self.extractor {
                Some(e) => Some(e@),
                None => None,
            },
            ngrams: self.ngrams,
        }
    }
}

/// The extractor of one index.
#[derive(Clone, Debug)]
pub struct InternalWiredTigerMultiKeyExtractor {
    pub column_configs: Vec<MultiKeyExtractorColumnConfig>,
    /// The columns of the stored row.
    pub extract_format: Vec<Format>,
    pub table_value_format: String,
}

/// An extractor with sequences in place of its vectors.
pub struct ExtractorView {
    pub column_configs: Seq<ColumnConfigView>,
    pub extract_format: Seq<Format>,
    pub table_value_format: Seq<char>,
}

/// The views of a list of columns, one for one.
pub open spec fn config_views(configs: Seq<MultiKeyExtractorColumnConfig>) -> Seq<ColumnConfigView> {
    configs.map_values(|c: MultiKeyExtractorColumnConfig| c@)
}

impl View for InternalWiredTigerMultiKeyExtractor {
    type V = ExtractorView;

    open spec fn view(&self) -> ExtractorView {
        ExtractorView {
            column_configs: config_views(self.column_configs@),
            extract_format: self.extract_format@,
            table_value_format: self.table_value_format@,
        }
    }
}

/// The source positions counted from 0.
pub open spec fn zero_based(columns: Seq<u32>) -> Seq<u32> {
    Seq::new(columns.len(), |i: int| (columns[i] - 1) as u32)
}

/// The column that a declared column stands for. Its format gives the
/// first column of the format string; a format that cannot be read or has
/// no column is an error, and so is a source position 0.
pub open spec fn extractor_column_of(column: ExtractorColumnView) -> Result<
    ColumnConfigView,
    GlueErrorView,
> {
    if exists|i: int| 0 <= i < column.columns.len() && column.columns[i] == 0 {
        Err(glue_error(GlueErrorCode::InvalidLength, "columns"@))
    } else {
        match format_error(column.format) {
            Some(e) => Err(e),
            None => if parsed_format(column.format).0.len() == 0 {
                Err(glue_error(GlueErrorCode::UnlikelyNoValue, Seq::empty()))
            } else {
                Ok(
                    ColumnConfigView {
                        columns: zero_based(column.columns),
                        extractor_type: match column.extractor {
                            Some(name) => extractor_named(name),
                            None => ExtractorType::NONE,
                        },
                        format: parsed_format(column.format).0[0],
                        ngrams: match column.ngrams {
                            Some(n) => n,
                            None => 0,
                        },
                    },
                )
            },
        }
    }
}

/// The views of declared columns, one for one.
pub open spec fn extractor_column_views(columns: Seq<ExtractorColumn>) -> Seq<ExtractorColumnView> {
    columns.map_values(|c: ExtractorColumn| c@)
}

/// The number of declared columns before the first one that is an error.
pub open spec fn good_extractor_columns(columns: Seq<ExtractorColumnView>, i: int) -> int
    decreases columns.len() - i,
{
    if 0 <= i < columns.len() && extractor_column_of(columns[i]) is Ok {
        good_extractor_columns(columns, i + 1)
    } else {
        i
    }
}

/// The columns that the first `n` declared columns stand for.
pub open spec fn extractor_columns_of(columns: Seq<ExtractorColumnView>, n: int) -> Seq<
    ColumnConfigView,
> {
    Seq::new(n as nat, |i: int| extractor_column_of(columns[i])->Ok_0)
}

impl ExtractorView {
    /// The extractor with the declared columns added, up to the first one
    /// in error.
    pub open spec fn declared(self, columns: Seq<ExtractorColumnView>) -> ExtractorView {
        ExtractorView {
            column_configs: self.column_configs + extractor_columns_of(
                columns,
                good_extractor_columns(columns, 0),
            ),
            ..self
        }
    }

    /// The error that stops the declaration of the columns, if any: that
    /// of the first column in error.
    pub open spec fn declaration_error(columns: Seq<ExtractorColumnView>) -> Option<GlueErrorView> {
        let good = good_extractor_columns(columns, 0);
        if good < columns.len() {
            Some(extractor_column_of(columns[good])->Err_0)
        } else {
            None
        }
    }

    /// Whether some column derives its values with an extractor.
    pub open spec fn uses_extractor(self) -> bool {
        exists|i: int|
            0 <= i < self.column_configs.len() && (#[trigger] self.column_configs[i]).extractor_type
                != ExtractorType::NONE
    }
}

impl InternalWiredTigerMultiKeyExtractor {
    /// An extractor for rows of the given format, with no column declared
    /// yet. Fails where the format of the rows cannot be read.
    pub fn new(extract_key_format_str: String, table_value_format: String, _index_id: String) -> (r:
        Result<Self, GlueError>)
        ensures
            r is Ok <==> format_error(extract_key_format_str@) is None,
            r matches Ok(x) ==> x@ == (ExtractorView {
                column_configs: Seq::empty(),
                extract_format: parsed_format(extract_key_format_str@).0,
                table_value_format: table_value_format@,
            }),
            r matches Err(e) ==> Some(e@) == format_error(extract_key_format_str@),
    {
        let ghost text = extract_key_format_str@;
        let mut extract_format: Vec<Format> = Vec::new();
        parse_format(extract_key_format_str, &mut extract_format)?;
        assert(extract_format@ =~= parsed_format(text).0);
        let x = InternalWiredTigerMultiKeyExtractor {
            column_configs: Vec::new(),
            extract_format,
            table_value_format,
        };
        assert(x@.column_configs =~= Seq::empty());
        Ok(x)
    }

    /// Declares one more column. Nothing changes where the column is in
    /// error.
    pub fn extract_column_configuration(&mut self, column_config: &ExtractorColumn) -> (r: Result<
        (),
        GlueError,
    >)
        ensures
            r is Ok <==> extractor_column_of(column_config@) is Ok,
            r is Ok ==> final(self)@ == (ExtractorView {
                column_configs: old(self)@.column_configs.push(
                    extractor_column_of(column_config@)->Ok_0,
                ),
                ..old(self)@
            }),
            r matches Err(e) ==> final(self)@ == old(self)@ && Err::<ColumnConfigView, GlueErrorView>(
                e@,
            ) == extractor_column_of(column_config@),
    {
        let mut columns: Vec<u32> = Vec::with_capacity(column_config.columns.len());
        let mut i: usize = 0;
        while i < column_config.columns.len()
            invariant
                i <= column_config.columns.len(),
                columns@.len() == i,
                forall|j: int| 0 <= j < i ==> column_config.columns@[j] != 0,
                forall|j: int| 0 <= j < i ==> columns@[j] == (column_config.columns@[j] - 1) as u32,
            decreases column_config.columns.len() - i,
        {
            let index = column_config.columns[i];
            if index == 0 {
                return Err(
                    GlueError::for_glue_with_extra(
                        GlueErrorCode::InvalidLength,
                        String::from_str("columns"),
                    ),
                );
            }
            columns.push(index - 1);
            i += 1;
        }
        assert(columns@ =~= zero_based(column_config.columns@));
        let mut formats: Vec<Format> = Vec::new();
        parse_format(column_config.format.clone(), &mut formats)?;
        assert(formats@ =~= parsed_format(column_config.format@).0);
        if formats.len() == 0 {
            return Err(GlueError::for_glue(GlueErrorCode::UnlikelyNoValue));
        }
        let column = MultiKeyExtractorColumnConfig {
            columns,
            extractor_type: match &column_config.extractor {
                Some(name) => ExtractorType::from_str(name.clone()),
                None => ExtractorType::NONE,
            },
            format: formats[0],
            ngrams: match column_config.ngrams {
                Some(n) => n,
                None => 0,
            },
        };
        let ghost before = self.column_configs@;
        self.column_configs.push(column);
        proof {
            assert(config_views(self.column_configs@) =~= config_views(before).push(column@));
        }
        Ok(())
    }

    /// Declares the index's columns, up to the first one in error.
    pub fn extract_columns_configuration(&mut self, columns: &Vec<ExtractorColumn>) -> (r: Result<
        (),
        GlueError,
    >)
        ensures
            final(self)@ == old(self)@.declared(extractor_column_views(columns@)),
            r is Ok <==> ExtractorView::declaration_error(extractor_column_views(columns@)) is None,
            r matches Err(e) ==> Some(e@) == ExtractorView::declaration_error(
                extractor_column_views(columns@),
            ),
    {
        let ghost cols = extractor_column_views(columns@);
        let mut i: usize = 0;
        while i < columns.len()
            invariant
                i <= columns.len(),
                cols == extractor_column_views(columns@),
                good_extractor_columns(cols, 0) == good_extractor_columns(cols, i as int),
                self@.column_configs == old(self)@.column_configs + extractor_columns_of(
                    cols,
                    i as int,
                ),
                self.extract_format@ == old(self).extract_format@,
                self.table_value_format@ == old(self).table_value_format@,
            decreases columns.len() - i,
        {
            assert(cols[i as int] == columns@[i as int]@);
            match self.extract_column_configuration(&columns[i]) {
                Ok(()) => {},
                Err(e) => {
                    assert(good_extractor_columns(cols, i as int) == i);
                    return Err(e);
                },
            }
            proof {
                assert(self@.column_configs =~= old(self)@.column_configs + extractor_columns_of(
                    cols,
                    i as int + 1,
                ));
            }
            i += 1;
        }
        Ok(())
    }

    /// The extractor of an index, from the settings that the index was
    /// created with.
    pub fn static_customize_internal(
        key_extract_format: String,
        table_value_format: String,
        index_id: String,
        columns: &Vec<ExtractorColumn>,
    ) -> (r: Result<Self, GlueError>)
        ensures
            r is Ok <==> format_error(key_extract_format@) is None
                && ExtractorView::declaration_error(extractor_column_views(columns@)) is None,
            r matches Ok(x) ==> x@ == (ExtractorView {
                column_configs: Seq::empty(),
                extract_format: parsed_format(key_extract_format@).0,
                table_value_format: table_value_format@,
            }).declared(extractor_column_views(columns@)),
            r matches Err(e) ==> Some(e@) == (if format_error(key_extract_format@) is Some {
                format_error(key_extract_format@)
            } else {
                ExtractorView::declaration_error(extractor_column_views(columns@))
            }),
    {
        let mut extractor = InternalWiredTigerMultiKeyExtractor::new(
            key_extract_format,
            table_value_format,
            index_id,
        )?;
        extractor.extract_columns_configuration(columns)?;
        Ok(extractor)
    }
}

/// The value of a column that refers to a stored column: the stored value
/// made to stand for what was read of it (a number is copied, bytes are
/// referred to, nothing read changes nothing), under the given format code.
pub open spec fn referenced(value: QueryValueView, data_type: char) -> QueryValueView {
    QueryValueView {
        data_type,
        external_value: match value.internal_value {
            InternalValueView::ByteArrayBox(_) => ExternalValueView::ReferenceInternal,
            InternalValueView::UInt(u) => ExternalValueView::UInt(u),
            InternalValueView::Unset => value.external_value,
        },
        internal_value: value.internal_value,
    }
}

/// The value that holds a token, under the given format code.
pub open spec fn token_value(token: Seq<u8>, data_type: char) -> QueryValueView {
    QueryValueView {
        data_type,
        external_value: ExternalValueView::StrBox(token),
        internal_value: InternalValueView::Unset,
    }
}

/// The values that hold the given tokens, one for one.
pub open spec fn token_values(tokens: Seq<Seq<u8>>, data_type: char) -> Seq<QueryValueView> {
    Seq::new(tokens.len(), |i: int| token_value(tokens[i], data_type))
}

/// The tokens that a column derives from one stored value: the words or
/// the n-grams of its text up to the first zero byte. A value that is no
/// text gives none.
pub open spec fn source_tokens(config: ColumnConfigView, value: QueryValueView) -> Seq<Seq<u8>> {
    match value.internal_value {
        InternalValueView::ByteArrayBox(b) => if config.extractor_type == ExtractorType::NGRAMS {
            ngrams(until_nul(b), config.ngrams as nat)
        } else {
            words(until_nul(b))
        },
        _ => Seq::empty(),
    }
}

/// The tokens that a column derives from its first `k` source columns, in
/// order; `None` where one of them is not in the row.
pub open spec fn column_tokens(config: ColumnConfigView, values: Seq<QueryValueView>, k: int) -> Option<
    Seq<Seq<u8>>,
>
    decreases k,
{
    if k <= 0 {
        Some(Seq::empty())
    } else {
        match column_tokens(config, values, k - 1) {
            None => None,
            Some(tokens) => if config.columns[k - 1] >= values.len() {
                None
            } else {
                Some(tokens + source_tokens(config, values[config.columns[k - 1] as int]))
            },
        }
    }
}

/// The values that one column of the index can take for a row: the tokens
/// of its source columns where it has an extractor, else the one value of
/// its first source column. Where some column of the index has an
/// extractor (`multikey`), a referred value keeps the format code of its
/// stored column; else it takes that of the index column. `None` where a
/// source column is not in the row.
pub open spec fn candidates(
    config: ColumnConfigView,
    values: Seq<QueryValueView>,
    formats: Seq<Format>,
    multikey: bool,
) -> Option<Seq<QueryValueView>> {
    if config.extractor_type == ExtractorType::NONE {
        if config.columns.len() == 0 || config.columns[0] >= values.len() {
            None
        } else {
            Some(
                seq![
                    referenced(
                        values[config.columns[0] as int],
                        if multikey {
                            formats[config.columns[0] as int].format
                        } else {
                            config.format.format
                        },
                    ),
                ],
            )
        }
    } else {
        match column_tokens(config, values, config.columns.len() as int) {
            None => None,
            Some(tokens) => Some(token_values(tokens, config.format.format)),
        }
    }
}

/// The candidates of the first `n` columns; `None` where one of them has
/// none to give.
pub open spec fn all_candidates(
    configs: Seq<ColumnConfigView>,
    values: Seq<QueryValueView>,
    formats: Seq<Format>,
    multikey: bool,
    n: int,
) -> Option<Seq<Seq<QueryValueView>>>
    decreases n,
{
    if n <= 0 {
        Some(Seq::empty())
    } else {
        match (
            all_candidates(configs, values, formats, multikey, n - 1),
            candidates(configs[n - 1], values, formats, multikey),
        ) {
            (Some(before), Some(c)) => Some(before.push(c)),
            _ => None,
        }
    }
}

/// Each of the first `p` partial keys, followed by each candidate in turn.
pub open spec fn extend_upto<V>(partials: Seq<Seq<V>>, cands: Seq<V>, p: int) -> Seq<Seq<V>>
    decreases p,
{
    if p <= 0 {
        Seq::empty()
    } else {
        extend_upto(partials, cands, p - 1) + Seq::new(
            cands.len(),
            |c: int| partials[p - 1].push(cands[c]),
        )
    }
}

/// Every combination of one candidate per column, for the first `n`
/// columns: the keys in the order in which the first column changes
/// slowest and the last one fastest.
pub open spec fn product<V>(cands: Seq<Seq<V>>, n: int) -> Seq<Seq<V>>
    decreases n,
{
    if n <= 0 {
        seq![Seq::empty()]
    } else {
        let partials = product(cands, n - 1);
        extend_upto(partials, cands[n - 1], partials.len() as int)
    }
}

impl ExtractorView {
    /// The index entries of a row with the given stored values: every
    /// combination of the candidates of the columns. `None` where the row
    /// does not have the columns that the extractor was made for.
    pub open spec fn extracted(self, values: Seq<QueryValueView>) -> Option<
        Seq<Seq<QueryValueView>>,
    > {
        if values.len() != self.extract_format.len() {
            None
        } else {
            match all_candidates(
                self.column_configs,
                values,
                self.extract_format,
                self.uses_extractor(),
                self.column_configs.len() as int,
            ) {
                None => None,
                Some(cands) => Some(product(cands, cands.len() as int)),
            }
        }
    }
}

/// The views of a list of keys, one for one.
pub open spec fn entry_views(entries: Seq<Vec<QueryValue>>) -> Seq<Seq<QueryValueView>> {
    Seq::new(entries.len(), |i: int| views(entries[i]@))
}

/// Every partial key followed by every candidate.
fn extend(partials: &Vec<Vec<QueryValue>>, cands: &Vec<QueryValue>) -> (entries: Vec<
    Vec<QueryValue>,
>)
    ensures
        entry_views(entries@) == extend_upto(
            entry_views(partials@),
            views(cands@),
            partials@.len() as int,
        ),
{
    let ghost ps = entry_views(partials@);
    let ghost cs = views(cands@);
    let mut entries: Vec<Vec<QueryValue>> = Vec::new();
    let mut p: usize = 0;
    while p < partials.len()
        invariant
            p <= partials.len(),
            ps == entry_views(partials@),
            cs == views(cands@),
            entry_views(entries@) == extend_upto(ps, cs, p as int),
        decreases partials.len() - p,
    {
        let ghost before = entry_views(entries@);
        let mut c: usize = 0;
        while c < cands.len()
            invariant
                c <= cands.len(),
                p < partials.len(),
                ps == entry_views(partials@),
                cs == views(cands@),
                entry_views(entries@) == before + Seq::new(
                    c as nat,
                    |k: int| ps[p as int].push(cs[k]),
                ),
            decreases cands.len() - c,
        {
            let ghost inner = entry_views(entries@);
            let mut entry = duplicate_values(&partials[p]);
            let ghost copied = views(entry@);
            entry.push(cands[c].duplicate());
            assert(views(entry@) =~= copied.push(cs[c as int]));
            assert(copied == ps[p as int]);
            entries.push(entry);
            proof {
                assert(entry_views(entries@) =~= inner.push(ps[p as int].push(cs[c as int])));
                assert(entry_views(entries@) =~= before + Seq::new(
                    (c + 1) as nat,
                    |k: int| ps[p as int].push(cs[k]),
                ));
            }
            c += 1;
        }
        proof {
            assert(cs.len() == cands@.len());
        }
        p += 1;
    }
    entries
}

impl InternalWiredTigerMultiKeyExtractor {
    /// Tells whether some column derives its values with an extractor.
    pub fn uses_extractor(&self) -> (b: bool)
        ensures
            b == self@.uses_extractor(),
    {
        let mut i: usize = 0;
        while i < self.column_configs.len()
            invariant
                i <= self.column_configs.len(),
                forall|j: int|
                    0 <= j < i ==> (#[trigger] self@.column_configs[j]).extractor_type
                        == ExtractorType::NONE,
            decreases self.column_configs.len() - i,
        {
            assert(self@.column_configs[i as int] == self.column_configs@[i as int]@);
            if self.column_configs[i].extractor_type != ExtractorType::NONE {
                return true;
            }
            i += 1;
        }
        false
    }

    /// The tokens that a column derives from its source columns.
    fn column_tokens(
        config: &MultiKeyExtractorColumnConfig,
        value_values: &Vec<QueryValue>,
    ) -> (r: Result<Vec<Vec<u8>>, GlueError>)
        requires
            config.extractor_type != ExtractorType::NONE,
        ensures
            r is Ok <==> column_tokens(
                config@,
                views(value_values@),
                config.columns@.len() as int,
            ) is Some,
            r matches Ok(tokens) ==> Some(byte_views(tokens@)) == column_tokens(
                config@,
                views(value_values@),
                config.columns@.len() as int,
            ),
            r matches Err(e) ==> e@ == glue_error(GlueErrorCode::UnlikelyNoValue, Seq::empty()),
    {
        let ghost values = views(value_values@);
        let mut tokens: Vec<Vec<u8>> = Vec::new();
        let mut k: usize = 0;
        assert(byte_views(tokens@) =~= Seq::<Seq<u8>>::empty());
        while k < config.columns.len()
            invariant
                k <= config.columns.len(),
                values == views(value_values@),
                config.extractor_type != ExtractorType::NONE,
                Some(byte_views(tokens@)) == column_tokens(config@, values, k as int),
            decreases config.columns.len() - k,
        {
            let index = config.columns[k] as usize;
            if index >= value_values.len() {
                proof {
                    lemma_column_tokens_stay_none(
                        config@,
                        values,
                        k as int + 1,
                        config.columns@.len() as int,
                    );
                }
                return Err(GlueError::for_glue(GlueErrorCode::UnlikelyNoValue));
            }
            let value = &value_values[index];
            assert(values[index as int] == value@);
            match &value.internal_value {
                InternalValue::ByteArrayBox(bab) => {
                    let n = nul_position(bab);
                    let text = vstd::slice::slice_subrange(bab.as_slice(), 0, n);
                    if config.extractor_type == ExtractorType::NGRAMS {
                        extract_ngrams_for_string(text, config.ngrams as usize, &mut tokens);
                    } else {
                        extract_words_for_string(text, &mut tokens);
                    }
                },
                _ => {
                    assert(byte_views(tokens@) + Seq::<Seq<u8>>::empty() =~= byte_views(tokens@));
                },
            }
            k += 1;
        }
        Ok(tokens)
    }

    /// The values that one column of the index can take for a row.
    fn column_candidates(
        &self,
        config: &MultiKeyExtractorColumnConfig,
        value_values: &Vec<QueryValue>,
        multikey: bool,
    ) -> (r: Result<Vec<QueryValue>, GlueError>)
        requires
            value_values@.len() == self.extract_format@.len(),
        ensures
            r is Ok <==> candidates(
                config@,
                views(value_values@),
                self.extract_format@,
                multikey,
            ) is Some,
            r matches Ok(c) ==> Some(views(c@)) == candidates(
                config@,
                views(value_values@),
                self.extract_format@,
                multikey,
            ),
            r matches Err(e) ==> e@ == glue_error(GlueErrorCode::UnlikelyNoValue, Seq::empty()),
    {
        let ghost values = views(value_values@);
        let mut result: Vec<QueryValue> = Vec::new();
        if config.extractor_type == ExtractorType::NONE {
            if config.columns.len() == 0 {
                return Err(GlueError::for_glue(GlueErrorCode::UnlikelyNoValue));
            }
            let index = config.columns[0] as usize;
            if index >= value_values.len() {
                return Err(GlueError::for_glue(GlueErrorCode::UnlikelyNoValue));
            }
            assert(values[index as int] == value_values@[index as int]@);
            let mut value = value_values[index].duplicate();
            match &value.internal_value {
                InternalValue::ByteArrayBox(_bab) => {
                    value.external_value = ExternalValue::ReferenceInternal();
                },
                InternalValue::UInt(uint) => {
                    let u = *uint;
                    value.external_value = ExternalValue::UInt(u);
                },
                InternalValue::Unset() => {},
            }
            value.data_type = if multikey {
                self.extract_format[index].format
            } else {
                config.format.format
            };
            result.push(value);
            assert(views(result@) =~= candidates(
                config@,
                values,
                self.extract_format@,
                multikey,
            )->0);
            Ok(result)
        } else {
            let tokens = Self::column_tokens(config, value_values)?;
            let mut i: usize = 0;
            while i < tokens.len()
                invariant
                    i <= tokens.len(),
                    result@.len() == i,
                    forall|j: int|
                        0 <= j < i ==> (#[trigger] result@[j])@ == token_value(
                            tokens@[j]@,
                            config.format.format,
                        ),
                decreases tokens.len() - i,
            {
                let mut qv = QueryValue::empty();
                let _ = qv.set_external_str_box(tokens[i].clone());
                qv.data_type = config.format.format;
                result.push(qv);
                i += 1;
            }
            assert(views(result@) =~= token_values(byte_views(tokens@), config.format.format));
            Ok(result)
        }
    }

    /// The index entries of a row, from its stored values as they were
    /// read: one key for every combination of the values that the columns
    /// can take, each value under the format code that it is packed with.
    /// Without an extractor on any column this is the one key that the
    /// columns refer to.
    pub fn extract(&self, value_values: &Vec<QueryValue>) -> (r: Result<
        Vec<Vec<QueryValue>>,
        GlueError,
    >)
        ensures
            r is Ok <==> self@.extracted(views(value_values@)) is Some,
            r matches Ok(entries) ==> Some(entry_views(entries@)) == self@.extracted(
                views(value_values@),
            ),
            r matches Err(e) ==> e@ == glue_error(GlueErrorCode::UnlikelyNoValue, Seq::empty()),
    {
        let ghost values = views(value_values@);
        if value_values.len() != self.extract_format.len() {
            return Err(GlueError::for_glue(GlueErrorCode::UnlikelyNoValue));
        }
        let multikey = self.uses_extractor();
        let mut entries: Vec<Vec<QueryValue>> = Vec::new();
        entries.push(Vec::new());
        let ghost mut cands: Seq<Seq<QueryValueView>> = Seq::empty();
        assert(views(entries@[0]@) =~= Seq::<QueryValueView>::empty());
        assert(entry_views(entries@) =~= product(cands, 0));
        let mut n: usize = 0;
        while n < self.column_configs.len()
            invariant
                n <= self.column_configs.len(),
                values == views(value_values@),
                value_values@.len() == self.extract_format@.len(),
                multikey == self@.uses_extractor(),
                cands.len() == n,
                Some(cands) == all_candidates(
                    self@.column_configs,
                    values,
                    self.extract_format@,
                    multikey,
                    n as int,
                ),
                entry_views(entries@) == product(cands, n as int),
            decreases self.column_configs.len() - n,
        {
            assert(self@.column_configs[n as int] == self.column_configs@[n as int]@);
            let column = match self.column_candidates(&self.column_configs[n], value_values, multikey) {
                Ok(column) => column,
                Err(e) => {
                    proof {
                        lemma_all_candidates_stay_none(
                            self@.column_configs,
                            values,
                            self.extract_format@,
                            multikey,
                            n as int + 1,
                            self@.column_configs.len() as int,
                        );
                    }
                    return Err(e);
                },
            };
            let ghost before = cands;
            proof {
                cands = cands.push(views(column@));
                lemma_product_prefix(before, cands, n as int);
            }
            entries = extend(&entries, &column);
            n += 1;
        }
        Ok(entries)
    }

    /// What an insert of an index entry comes to: where a column has an
    /// extractor, an entry that is already there, or that is not there to
    /// be removed, is a success; every other status is passed on.
    pub fn insert_result(&self, error: i32) -> (r: i32)
        ensures
            r == (if self@.uses_extractor() && (error == WT_NOTFOUND || error == WT_DUPLICATE_KEY) {
                0
            } else {
                error
            }),
    {
        if self.uses_extractor() && (error == WT_NOTFOUND || error == WT_DUPLICATE_KEY) {
            0
        } else {
            error
        }
    }
}

/// Once a source column is missing, the tokens of more source columns are
/// missing too.
pub proof fn lemma_column_tokens_stay_none(
    config: ColumnConfigView,
    values: Seq<QueryValueView>,
    k: int,
    n: int,
)
    requires
        k <= n,
        column_tokens(config, values, k) is None,
    ensures
        column_tokens(config, values, n) is None,
    decreases n - k,
{
    if k < n {
        lemma_column_tokens_stay_none(config, values, k, n - 1);
    }
}

/// Once a column has no candidates, more columns have none either.
pub proof fn lemma_all_candidates_stay_none(
    configs: Seq<ColumnConfigView>,
    values: Seq<QueryValueView>,
    formats: Seq<Format>,
    multikey: bool,
    k: int,
    n: int,
)
    requires
        k <= n,
        all_candidates(configs, values, formats, multikey, k) is None,
    ensures
        all_candidates(configs, values, formats, multikey, n) is None,
    decreases n - k,
{
    if k < n {
        lemma_all_candidates_stay_none(configs, values, formats, multikey, k, n - 1);
    }
}

/// The keys over the first `n` columns depend on those columns only.
pub proof fn lemma_product_prefix<V>(a: Seq<Seq<V>>, b: Seq<Seq<V>>, n: int)
    requires
        n <= a.len(),
        n <= b.len(),
        forall|i: int| 0 <= i < n ==> a[i] == b[i],
    ensures
        product(a, n) == product(b, n),
    decreases n,
{
    if n > 0 {
        lemma_product_prefix(a, b, n - 1);
    }
}

/// The number of keys over the first `n` columns: the product of the
/// numbers of their candidates.
pub open spec fn combinations<V>(cands: Seq<Seq<V>>, n: int) -> nat
    decreases n,
{
    if n <= 0 {
        1
    } else {
        combinations(cands, n - 1) * cands[n - 1].len()
    }
}

/// Whether a key is one of the first `p` partial keys followed by one of
/// the candidates.
pub open spec fn extends<V>(key: Seq<V>, partials: Seq<Seq<V>>, cands: Seq<V>, p: int) -> bool {
    exists|i: int, c: int|
        0 <= i < p && 0 <= c < cands.len() && key == #[trigger] partials[i].push(
            #[trigger] cands[c],
        )
}

/// Extending the first `p` partial keys gives, for each of them and each
/// candidate, the partial key followed by the candidate, and nothing else.
pub proof fn lemma_extend_upto<V>(partials: Seq<Seq<V>>, cands: Seq<V>, p: int)
    requires
        0 <= p <= partials.len(),
    ensures
        extend_upto(partials, cands, p).len() == p * cands.len(),
        forall|k: int|
            0 <= k < extend_upto(partials, cands, p).len() ==> extends(
                #[trigger] extend_upto(partials, cands, p)[k],
                partials,
                cands,
                p,
            ),
        forall|i: int, c: int|
            0 <= i < p && 0 <= c < cands.len() ==> extend_upto(partials, cands, p).contains(
                #[trigger] partials[i].push(#[trigger] cands[c]),
            ),
    decreases p,
{
    if p > 0 {
        lemma_extend_upto(partials, cands, p - 1);
        let before = extend_upto(partials, cands, p - 1);
        let added = Seq::new(cands.len(), |c: int| partials[p - 1].push(cands[c]));
        let now = extend_upto(partials, cands, p);
        assert(now == before + added);
        assert(now.len() == p * cands.len()) by (nonlinear_arith)
            requires
                now.len() == (p - 1) * cands.len() + cands.len(),
        ;
        assert forall|k: int| 0 <= k < now.len() implies extends(
            #[trigger] now[k],
            partials,
            cands,
            p,
        ) by {
            if k < before.len() {
                assert(now[k] == before[k]);
                assert(extends(before[k], partials, cands, p - 1));
                let (i, c) = choose|i: int, c: int|
                    0 <= i < p - 1 && 0 <= c < cands.len() && before[k]
                        == #[trigger] partials[i].push(#[trigger] cands[c]);
                assert(now[k] == partials[i].push(cands[c]));
            } else {
                let c = k - before.len();
                assert(now[k] == added[c]);
                assert(now[k] == partials[p - 1].push(cands[c]));
            }
        }
        assert forall|i: int, c: int| 0 <= i < p && 0 <= c < cands.len() implies now.contains(
            #[trigger] partials[i].push(#[trigger] cands[c]),
        ) by {
            if i < p - 1 {
                assert(before.contains(partials[i].push(cands[c])));
                let k = choose|k: int|
                    0 <= k < before.len() && before[k] == partials[i].push(cands[c]);
                assert(now[k] == before[k]);
            } else {
                assert(now[before.len() + c] == added[c]);
            }
        }
    } else {
        assert(0 * cands.len() == 0) by (nonlinear_arith);
    }
}

/// The keys over the first `n` columns are the combinations of one
/// candidate for each column: there are as many as the numbers of
/// candidates multiply to, each key holds one candidate of each column in
/// the column's place, and every such choice is among the keys.
pub proof fn lemma_product<V>(cands: Seq<Seq<V>>, n: int)
    requires
        0 <= n <= cands.len(),
    ensures
        product(cands, n).len() == combinations(cands, n),
        forall|k: int|
            0 <= k < product(cands, n).len() ==> (#[trigger] product(cands, n)[k]).len() == n
                && forall|c: int|
                0 <= c < n ==> cands[c].contains(#[trigger] product(cands, n)[k][c]),
        forall|key: Seq<V>|
            key.len() == n && (forall|c: int| 0 <= c < n ==> cands[c].contains(#[trigger] key[c]))
                ==> #[trigger] product(cands, n).contains(key),
    decreases n,
{
    if n > 0 {
        lemma_product(cands, n - 1);
        let partials = product(cands, n - 1);
        let last = cands[n - 1];
        lemma_extend_upto(partials, last, partials.len() as int);
        let now = product(cands, n);
        assert forall|k: int| 0 <= k < now.len() implies (#[trigger] now[k]).len() == n
            && forall|c: int| 0 <= c < n ==> cands[c].contains(#[trigger] now[k][c]) by {
            assert(extends(now[k], partials, last, partials.len() as int));
            let (i, c) = choose|i: int, c: int|
                0 <= i < partials.len() && 0 <= c < last.len() && now[k]
                    == #[trigger] partials[i].push(#[trigger] last[c]);
            assert(partials[i].len() == n - 1);
            assert forall|col: int| 0 <= col < n implies cands[col].contains(
                #[trigger] now[k][col],
            ) by {
                if col < n - 1 {
                    assert(now[k][col] == partials[i][col]);
                    assert(cands[col].contains(partials[i][col]));
                } else {
                    assert(now[k][col] == last[c]);
                }
            }
        }
        assert forall|key: Seq<V>|
            key.len() == n && (forall|c: int|
                0 <= c < n ==> cands[c].contains(#[trigger] key[c])) implies #[trigger] now.contains(
            key,
        ) by {
            let head = key.drop_last();
            assert forall|c: int| 0 <= c < n - 1 implies cands[c].contains(#[trigger] head[c]) by {
                assert(head[c] == key[c]);
            }
            assert(partials.contains(head));
            let i = choose|i: int| 0 <= i < partials.len() && partials[i] == head;
            assert(last.contains(key[n - 1]));
            let c = choose|c: int| 0 <= c < last.len() && last[c] == key[n - 1];
            assert(partials[i].push(last[c]) =~= key);
        }
    } else {
        assert forall|key: Seq<V>| key.len() == 0 implies #[trigger] product(cands, n).contains(
            key,
        ) by {
            assert(key =~= Seq::<V>::empty());
            assert(product(cands, n)[0] == Seq::<V>::empty());
        }
    }
}

} // verus!

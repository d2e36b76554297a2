//! A table: its names, and the formats of its key, its value and its
//! indexes.

use vstd::prelude::*;
use vstd::string::*;
use crate::error::{GlueError, GlueErrorCode, GlueErrorView, glue_error};
use crate::query_value::{
    ExternalValue, ExternalValueView, Format, QueryValue, QueryValueView, duplicate_values, views,
};
use crate::utils::{format_error, parse_format, parsed_format};

verus! {

/// The key format of one index, under the index's URI.
#[derive(Clone, Debug)]
pub struct IndexFormats {
    pub uri: String,
    pub formats: Vec<Format>,
}

/// A table of the engine.
#[derive(Clone, Debug)]
pub struct InternalTable {
    pub table_name: String,
    pub config: String,
    pub spec_name: String,
    pub is_initted: bool,
    pub key_formats: Vec<Format>,
    pub value_formats: Vec<Format>,
    /// The key formats of the indexes that are known. Where a URI occurs
    /// twice, the first occurrence counts.
    pub index_formats: Vec<IndexFormats>,
}

/// The position of the first index with the given URI among the first `n`;
/// `n` where there is none.
pub open spec fn index_position(indexes: Seq<IndexFormats>, uri: Seq<char>, n: int) -> int
    decreases n,
{
    if n <= 0 {
        0
    } else if index_position(indexes, uri, n - 1) < n - 1 {
        index_position(indexes, uri, n - 1)
    } else if indexes[n - 1].uri@ == uri {
        n - 1
    } else {
        n
    }
}

/// The key format known for an index, if any.
pub open spec fn index_formats_of(indexes: Seq<IndexFormats>, uri: Seq<char>) -> Option<Seq<Format>> {
    let at = index_position(indexes, uri, indexes.len() as int);
    if 0 <= at < indexes.len() {
        Some(indexes[at].formats@)
    } else {
        None
    }
}

/// Where the first index with a URI is: before it no index has the URI,
/// and it has it.
pub proof fn lemma_index_position(indexes: Seq<IndexFormats>, uri: Seq<char>, n: int)
    requires
        0 <= n <= indexes.len(),
    ensures
        0 <= index_position(indexes, uri, n) <= n,
        forall|i: int| 0 <= i < index_position(indexes, uri, n) ==> indexes[i].uri@ != uri,
        index_position(indexes, uri, n) < n ==> indexes[index_position(indexes, uri, n)].uri@
            == uri,
    decreases n,
{
    if n > 0 {
        lemma_index_position(indexes, uri, n - 1);
    }
}

impl InternalTable {
    /// A table with the given name and configuration; its formats are not
    /// known yet.
    pub fn new(table_name: String, config: String) -> (t: Self)
        ensures
            t.table_name@ == table_name@,
            t.config@ == config@,
            t.spec_name@ == "table:"@ + table_name@,
            !t.is_initted,
            t.key_formats@.len() == 0,
            t.value_formats@.len() == 0,
            t.index_formats@.len() == 0,
    {
        let spec_name = String::from_str("table:").concat(table_name.as_str());
        InternalTable {
            table_name,
            config,
            spec_name,
            is_initted: false,
            key_formats: Vec::new(),
            value_formats: Vec::new(),
            index_formats: Vec::new(),
        }
    }

    /// The URI of an index of the table: `index:<table>:<index>`.
    pub fn index_uri(&self, index_name: &str) -> (uri: String)
        ensures
            uri@ == "index:"@ + self.table_name@ + ":"@ + index_name@,
    {
        String::from_str("index:").concat(self.table_name.as_str()).concat(":").concat(index_name)
    }

    /// Takes the formats of the table from the two format strings of its
    /// configuration, unless the key format is known already. Where a
    /// format string cannot be read, the columns read before the failure
    /// stay.
    pub fn init_table_formats(&mut self, key_format: String, value_format: String) -> (r: Result<
        (),
        GlueError,
    >)
        ensures
            final(self).index_formats@ == old(self).index_formats@,
            old(self).key_formats@.len() != 0 ==> r is Ok && final(self).key_formats@ == old(self).key_formats@ && final(self).value_formats@ == old(self).value_formats@,
            old(self).key_formats@.len() == 0 ==> {
                &&& final(self).key_formats@ == parsed_format(key_format@).0
                &&& final(self).value_formats@ == old(self).value_formats@ + (if format_error(
                    key_format@,
                ) is None {
                    parsed_format(value_format@).0
                } else {
                    Seq::empty()
                })
                &&& r is Ok <==> format_error(key_format@) is None && format_error(value_format@)
                    is None
                &&& r matches Err(e) ==> Some(e@) == (if format_error(key_format@) is Some {
                    format_error(key_format@)
                } else {
                    format_error(value_format@)
                })
            },
    {
        if self.key_formats.len() != 0 {
            return Ok(());
        }
        assert(self.key_formats@ + parsed_format(key_format@).0 =~= parsed_format(key_format@).0);
        assert(self.value_formats@ + Seq::<Format>::empty() =~= self.value_formats@);
        parse_format(key_format, &mut self.key_formats)?;
        parse_format(value_format, &mut self.value_formats)
    }

    /// The columns of the key.
    pub fn get_key_formats(&self) -> (r: Result<&Vec<Format>, GlueError>)
        ensures
            r matches Ok(f) && *f == self.key_formats,
    {
        Ok(&self.key_formats)
    }

    /// The columns of the value.
    pub fn get_value_formats(&self) -> (r: Result<&Vec<Format>, GlueError>)
        ensures
            r matches Ok(f) && *f == self.value_formats,
    {
        Ok(&self.value_formats)
    }

    /// The key formats of the indexes that are known.
    pub fn get_index_formats(&self) -> (r: Result<&Vec<IndexFormats>, GlueError>)
        ensures
            r matches Ok(f) && *f == self.index_formats,
    {
        Ok(&self.index_formats)
    }

    /// The place of an index among the known ones, if it is known.
    fn find_index(&self, uri: &String) -> (at: usize)
        ensures
            at == index_position(self.index_formats@, uri@, self.index_formats@.len() as int),
            at <= self.index_formats@.len(),
    {
        let mut i: usize = 0;
        while i < self.index_formats.len()
            invariant
                i <= self.index_formats.len(),
                index_position(self.index_formats@, uri@, i as int) == i,
            decreases self.index_formats.len() - i,
        {
            if self.index_formats[i].uri == *uri {
                proof {
                    lemma_index_position_found(
                        self.index_formats@,
                        uri@,
                        i as int + 1,
                        self.index_formats@.len() as int,
                    );
                }
                return i;
            }
            i += 1;
        }
        i
    }

    /// The key format known for an index.
    pub fn index_formats_for(&self, uri: &String) -> (r: Option<&Vec<Format>>)
        ensures
            r is Some <==> index_formats_of(self.index_formats@, uri@) is Some,
            r matches Some(f) ==> Some(f@) == index_formats_of(self.index_formats@, uri@),
    {
        let at = self.find_index(uri);
        if at < self.index_formats.len() {
            Some(&self.index_formats[at].formats)
        } else {
            None
        }
    }

    /// Records the key format of an index, in place of the one known for
    /// it, if any.
    pub fn set_index_formats(&mut self, uri: String, formats: Vec<Format>)
        ensures
            index_formats_of(final(self).index_formats@, uri@) == Some(formats@),
            forall|other: Seq<char>|
                other != uri@ ==> index_formats_of(final(self).index_formats@, other)
                    == index_formats_of(old(self).index_formats@, other),
            final(self).key_formats@ == old(self).key_formats@,
            final(self).value_formats@ == old(self).value_formats@,
            final(self).table_name@ == old(self).table_name@,
    {
        let at = self.find_index(&uri);
        let ghost before = self.index_formats@;
        let ghost name = uri@;
        proof {
            lemma_index_position(before, name, before.len() as int);
        }
        let entry = IndexFormats { uri, formats };
        if at < self.index_formats.len() {
            self.index_formats.set(at, entry);
        } else {
            self.index_formats.push(entry);
        }
        let ghost after = self.index_formats@;
        proof {
            lemma_index_position_at(after, name, at as int);
            assert forall|other: Seq<char>| other != name implies index_formats_of(after, other)
                == index_formats_of(before, other) by {
                lemma_lookup_other(before, after, name, other, at as int);
            }
        }
    }

    /// Records the key format of a new index, from its format string.
    /// Returns the URI of the index.
    pub fn create_index(&mut self, index_name: String, key_format: String) -> (r: Result<
        String,
        GlueError,
    >)
        ensures
            r is Ok <==> format_error(key_format@) is None,
            r matches Ok(uri) ==> uri@ == "index:"@ + old(self).table_name@ + ":"@ + index_name@
                && index_formats_of(final(self).index_formats@, uri@) == Some(
                parsed_format(key_format@).0,
            ) && forall|other: Seq<char>|
                other != uri@ ==> index_formats_of(final(self).index_formats@, other)
                    == index_formats_of(old(self).index_formats@, other),
            final(self).key_formats@ == old(self).key_formats@,
            final(self).value_formats@ == old(self).value_formats@,
            final(self).table_name@ == old(self).table_name@,
            r matches Err(e) ==> Some(e@) == format_error(key_format@) && final(self).index_formats@ == old(self).index_formats@,
    {
        let uri = self.index_uri(index_name.as_str());
        let mut key_formats: Vec<Format> = Vec::new();
        parse_format(key_format, &mut key_formats)?;
        assert(key_formats@ =~= parsed_format(key_format@).0);
        self.set_index_formats(uri.clone(), key_formats);
        Ok(uri)
    }

    /// The formats that the query values of a predicate are read with:
    /// the key format of the predicate's index where that is known, else
    /// the key format of the table.
    pub fn formats_for_spec(&self, index_name: &Option<String>) -> (f: &Vec<Format>)
        ensures
            f@ == (match *index_name {
                Some(name) => match index_formats_of(self.index_formats@, name@) {
                    Some(formats) => formats,
                    None => self.key_formats@,
                },
                None => match index_formats_of(self.index_formats@, Seq::empty()) {
                    Some(formats) => formats,
                    None => self.key_formats@,
                },
            }),
    {
        let found = match index_name {
            Some(name) => self.index_formats_for(name),
            None => self.index_formats_for(&String::new()),
        };
        match found {
            Some(formats) => formats,
            None => &self.key_formats,
        }
    }
}

/// Once an index with the URI is found, more indexes do not move it.
pub proof fn lemma_index_position_found(
    indexes: Seq<IndexFormats>,
    uri: Seq<char>,
    k: int,
    n: int,
)
    requires
        1 <= k <= n <= indexes.len(),
        index_position(indexes, uri, k) == k - 1,
    ensures
        index_position(indexes, uri, n) == k - 1,
    decreases n - k,
{
    if k < n {
        lemma_index_position_found(indexes, uri, k, n - 1);
    }
}

/// Where no index among the first `n` has the URI, none is found.
pub proof fn lemma_index_position_absent(indexes: Seq<IndexFormats>, uri: Seq<char>, n: int)
    requires
        0 <= n <= indexes.len(),
        forall|i: int| 0 <= i < n ==> indexes[i].uri@ != uri,
    ensures
        index_position(indexes, uri, n) == n,
    decreases n,
{
    if n > 0 {
        lemma_index_position_absent(indexes, uri, n - 1);
    }
}

/// Where an index has the URI and no index before it has, it is the first
/// with the URI.
pub proof fn lemma_index_position_at(indexes: Seq<IndexFormats>, uri: Seq<char>, at: int)
    requires
        0 <= at < indexes.len(),
        indexes[at].uri@ == uri,
        forall|i: int| 0 <= i < at ==> indexes[i].uri@ != uri,
    ensures
        index_position(indexes, uri, indexes.len() as int) == at,
{
    lemma_index_position_absent(indexes, uri, at);
    lemma_index_position_found(indexes, uri, at + 1, indexes.len() as int);
}

/// Replacing the entry of one URI, or adding one for it at the end, leaves
/// what is known for every other URI as it was.
proof fn lemma_lookup_other(
    before: Seq<IndexFormats>,
    after: Seq<IndexFormats>,
    uri: Seq<char>,
    other: Seq<char>,
    at: int,
)
    requires
        other != uri,
        0 <= at <= before.len(),
        after.len() == (if at < before.len() {
            before.len()
        } else {
            before.len() + 1
        }),
        after[at].uri@ == uri,
        at < before.len() ==> before[at].uri@ == uri,
        forall|i: int| 0 <= i < before.len() && i != at ==> after[i] == before[i],
    ensures
        index_formats_of(after, other) == index_formats_of(before, other),
{
    lemma_index_position(before, other, before.len() as int);
    lemma_index_position(after, other, after.len() as int);
    let b = index_position(before, other, before.len() as int);
    let a = index_position(after, other, after.len() as int);
    if b < before.len() {
        assert(b != at);
        assert(after[b] == before[b]);
        if a < b {
            assert(a != at);
            assert(after[a] == before[a]);
        }
    } else if a < after.len() {
        assert(a != at);
        assert(after[a] == before[a]);
    }
}

/// A value of an update that stands for the value in the row: where its
/// format code is the padding code, it takes what was read of the row and
/// refers to it.
pub open spec fn update_value(value: QueryValueView, existing: QueryValueView) -> QueryValueView {
    if value.data_type == 'x' {
        QueryValueView {
            internal_value: existing.internal_value,
            external_value: ExternalValueView::ReferenceInternal,
            ..value
        }
    } else {
        value
    }
}

/// The first `n` values of an update, completed from the row. The first
/// value that the row has no value for, or that is taken from the row
/// where nothing was read, is an error.
pub open spec fn updated_upto(
    values: Seq<QueryValueView>,
    existing: Seq<QueryValueView>,
    n: int,
) -> Result<Seq<QueryValueView>, GlueErrorView>
    decreases n,
{
    if n <= 0 {
        Ok(Seq::empty())
    } else {
        match updated_upto(values, existing, n - 1) {
            Err(e) => Err(e),
            Ok(before) => if n - 1 >= existing.len() {
                Err(glue_error(GlueErrorCode::UnlikelyNoValue, Seq::empty()))
            } else if values[n - 1].data_type == 'x' && existing[n - 1].internal_value is Unset {
                Err(
                    glue_error(
                        GlueErrorCode::AccessEmptyBox,
                        " getting ptr or value from internal"@,
                    ),
                )
            } else {
                Ok(before.push(update_value(values[n - 1], existing[n - 1])))
            },
        }
    }
}

/// Once a value of an update is in error, the error stays with more values.
pub proof fn lemma_updated_stays_error(
    values: Seq<QueryValueView>,
    existing: Seq<QueryValueView>,
    k: int,
    n: int,
)
    requires
        k <= n,
        updated_upto(values, existing, k) is Err,
    ensures
        updated_upto(values, existing, n) == updated_upto(values, existing, k),
    decreases n - k,
{
    if k < n {
        lemma_updated_stays_error(values, existing, k, n - 1);
    }
}

impl InternalTable {
    /// Completes the values of an update from the row that is updated:
    /// each value given as padding is replaced by the row's own.
    pub fn update_values(value: &Vec<QueryValue>, existing: &Vec<QueryValue>) -> (r: Result<
        Vec<QueryValue>,
        GlueError,
    >)
        ensures
            match updated_upto(views(value@), views(existing@), value@.len() as int) {
                Ok(updated) => r matches Ok(u) && views(u@) == updated,
                Err(error) => r matches Err(e) && e@ == error,
            },
    {
        let mut updated: Vec<QueryValue> = Vec::with_capacity(value.len());
        let mut i: usize = 0;
        assert(views(updated@) =~= Seq::empty());
        while i < value.len()
            invariant
                i <= value.len(),
                updated_upto(views(value@), views(existing@), i as int) == Ok::<
                    Seq<QueryValueView>,
                    GlueErrorView,
                >(views(updated@)),
            decreases value.len() - i,
        {
            assert(views(value@)[i as int] == value@[i as int]@);
            if i >= existing.len() {
                proof {
                    lemma_updated_stays_error(
                        views(value@),
                        views(existing@),
                        i as int + 1,
                        value@.len() as int,
                    );
                }
                return Err(GlueError::for_glue(GlueErrorCode::UnlikelyNoValue));
            }
            assert(views(existing@)[i as int] == existing@[i as int]@);
            let mut value_in = value[i].duplicate();
            if value_in.data_type == 'x' {
                value_in.internal_value = existing[i].internal_value.duplicate();
                match value_in.set_external_reference() {
                    Ok(()) => {},
                    Err(e) => {
                        proof {
                            lemma_updated_stays_error(
                                views(value@),
                                views(existing@),
                                i as int + 1,
                                value@.len() as int,
                            );
                        }
                        return Err(e);
                    },
                }
            }
            let ghost before = views(updated@);
            updated.push(value_in);
            assert(views(updated@) =~= before.push(value_in@));
            i += 1;
        }
        Ok(updated)
    }

    /// Prepares the key of a row that was read for a write to the same
    /// row: each column refers to what was read of it.
    pub fn key_for_write(key: &Vec<QueryValue>) -> (r: Result<Vec<QueryValue>, GlueError>)
        ensures
            r is Ok <==> forall|i: int|
                0 <= i < key@.len() ==> !((#[trigger] views(key@)[i]).internal_value is Unset),
            r matches Ok(written) ==> views(written@) == Seq::new(
                key@.len(),
                |i: int|
                    QueryValueView {
                        external_value: ExternalValueView::ReferenceInternal,
                        ..views(key@)[i]
                    },
            ),
            r matches Err(e) ==> e@ == glue_error(
                GlueErrorCode::AccessEmptyBox,
                " getting ptr or value from internal"@,
            ),
    {
        let mut written: Vec<QueryValue> = Vec::with_capacity(key.len());
        let mut i: usize = 0;
        while i < key.len()
            invariant
                i <= key.len(),
                written@.len() == i,
                forall|j: int|
                    0 <= j < i ==> !((#[trigger] views(key@)[j]).internal_value is Unset),
                forall|j: int|
                    0 <= j < i ==> (#[trigger] written@[j])@ == (QueryValueView {
                        external_value: ExternalValueView::ReferenceInternal,
                        ..views(key@)[j]
                    }),
            decreases key.len() - i,
        {
            assert(views(key@)[i as int] == key@[i as int]@);
            let mut k = key[i].duplicate();
            match k.set_external_reference() {
                Ok(()) => {},
                Err(e) => {
                    return Err(e);
                },
            }
            written.push(k);
            i += 1;
        }
        assert(views(written@) =~= Seq::new(
            key@.len(),
            |i: int|
                QueryValueView {
                    external_value: ExternalValueView::ReferenceInternal,
                    ..views(key@)[i]
                },
        ));
        Ok(written)
    }
}

/// Bytes with their last byte raised by one. `None` for no bytes, and for
/// a last byte that cannot be raised.
pub open spec fn raised(bytes: Seq<u8>) -> Option<Seq<u8>> {
    if bytes.len() == 0 || bytes.last() == 255 {
        None
    } else {
        Some(bytes.update(bytes.len() - 1, (bytes.last() + 1) as u8))
    }
}

/// The value just above every value that starts with the given one: its
/// last byte, or the number, raised by one. A value that owns nothing
/// stays as it is. `None` where there is nothing to raise.
pub open spec fn value_above(value: QueryValueView) -> Option<QueryValueView> {
    match value.external_value {
        ExternalValueView::ByteArrayBox(b) => match raised(b) {
            Some(r) => Some(
                QueryValueView { external_value: ExternalValueView::ByteArrayBox(r), ..value },
            ),
            None => None,
        },
        ExternalValueView::StrBox(b) => match raised(b) {
            Some(r) => Some(QueryValueView { external_value: ExternalValueView::StrBox(r), ..value }),
            None => None,
        },
        ExternalValueView::UInt(u) => if u == u64::MAX {
            None
        } else {
            Some(
                QueryValueView { external_value: ExternalValueView::UInt((u + 1) as u64), ..value },
            )
        },
        _ => Some(value),
    }
}

/// Raises the last byte of a copy of the bytes by one.
fn raise(bytes: &Vec<u8>) -> (r: Option<Vec<u8>>)
    ensures
        r is Some <==> raised(bytes@) is Some,
        r matches Some(b) ==> Some(b@) == raised(bytes@),
{
    let len = bytes.len();
    if len == 0 || bytes[len - 1] == 255 {
        return None;
    }
    let mut copy = bytes.clone();
    let last = copy[len - 1];
    copy.set(len - 1, last + 1);
    Some(copy)
}

impl InternalTable {
    /// The key that bounds from above the keys that start with the given
    /// prefix: the prefix with its first column raised to the value just
    /// above.
    pub fn prefix_upper_bound(prefix: &Vec<QueryValue>) -> (r: Result<Vec<QueryValue>, GlueError>)
        ensures
            r is Ok <==> prefix@.len() > 0 && value_above(views(prefix@)[0]) is Some,
            r matches Ok(upper) ==> views(upper@) == views(prefix@).update(
                0,
                value_above(views(prefix@)[0])->0,
            ),
            r matches Err(e) ==> e@ == glue_error(
                if prefix@.len() == 0 {
                    GlueErrorCode::UnlikelyNoValue
                } else {
                    GlueErrorCode::InvalidLength
                },
                Seq::empty(),
            ),
    {
        if prefix.len() == 0 {
            return Err(GlueError::for_glue(GlueErrorCode::UnlikelyNoValue));
        }
        assert(views(prefix@)[0] == prefix@[0]@);
        let first = &prefix[0];
        let above = match &first.external_value {
            ExternalValue::ByteArrayBox(bab) => match raise(bab) {
                Some(r) => Some(ExternalValue::ByteArrayBox(r)),
                None => None,
            },
            ExternalValue::StrBox(stb) => match raise(stb) {
                Some(r) => Some(ExternalValue::StrBox(r)),
                None => None,
            },
            ExternalValue::UInt(ui) => if *ui == u64::MAX {
                None
            } else {
                Some(ExternalValue::UInt(*ui + 1))
            },
            ExternalValue::ReferenceInternal() => Some(ExternalValue::ReferenceInternal()),
            ExternalValue::Unset() => Some(ExternalValue::Unset()),
        };
        match above {
            None => Err(GlueError::for_glue(GlueErrorCode::InvalidLength)),
            Some(external_value) => {
                let mut upper = duplicate_values(prefix);
                assert(views(upper@).len() == views(prefix@).len());
                let raised = QueryValue {
                    data_type: first.data_type,
                    external_value,
                    internal_value: first.internal_value.duplicate(),
                };
                upper.set(0, raised);
                assert(views(upper@) =~= views(prefix@).update(
                    0,
                    value_above(views(prefix@)[0])->0,
                ));
                Ok(upper)
            },
        }
    }
}

} // verus!

//! Column values, composite keys and predicate nodes.

use vstd::prelude::*;
use vstd::string::*;
use vstd::std_specs::cmp::PartialEqSpecImpl;
use crate::error::{GlueError, GlueErrorCode, GlueErrorView, glue_error};
use crate::utils::{field_is_wt_item, is_wt_item, string_push};

verus! {

/// The format codes of the engine's packing grammar.
#[non_exhaustive]
pub struct FieldFormat;

impl FieldFormat {
    pub const PADDING: char = 'x';
    pub const CHAR_ARRAY: char = 's';
    pub const STRING: char = 'S';
    pub const UBYTE: char = 'B';
    pub const BYTE: char = 'b';
    pub const UHALF: char = 'H';
    pub const HALF: char = 'h';
    pub const UINT: char = 'I';
    pub const INT: char = 'i';
    pub const UINT2: char = 'L';
    pub const INT2: char = 'l';
    pub const LONG: char = 'q';
    pub const RECID: char = 'r';
    pub const ULONG: char = 'Q';
    pub const BITFIELD: char = 't';
    pub const BOOLEAN: char = 'T';
    pub const WT_ITEM: char = 'u';
    pub const WT_UITEM: char = 'U';
    pub const WT_ITEM_DOUBLE: char = 'd';
    pub const WT_ITEM_BIGINT: char = 'z';
}

/// One column of a format string: its code and, where the code takes one,
/// its size.
#[derive(Clone, Copy, PartialEq, Eq, Structural, Debug)]
pub struct Format {
    pub format: char,
    pub size: u64,
}

/// A value that the library owns: it stays valid wherever the cursor it
/// came from moves.
#[derive(Clone, Debug)]
pub enum ExternalValue {
    /// The bytes of a string, without a terminator.
    StrBox(Vec<u8>),
    ByteArrayBox(Vec<u8>),
    /// The value is the one held as the internal value.
    ReferenceInternal(),
    UInt(u64),
    Unset(),
}

/// A value as it was read at the cursor's position. It stands for storage
/// that the engine owns and that is valid only until the cursor moves.
#[derive(Clone, Debug)]
pub enum InternalValue {
    ByteArrayBox(Vec<u8>),
    UInt(u64),
    Unset(),
}

/// An owned value with sequences of bytes in place of its vectors.
pub enum ExternalValueView {
    StrBox(Seq<u8>),
    ByteArrayBox(Seq<u8>),
    ReferenceInternal,
    UInt(u64),
    Unset,
}

/// A value as it was read, with a sequence of bytes in place of its
/// vector.
pub enum InternalValueView {
    ByteArrayBox(Seq<u8>),
    UInt(u64),
    Unset,
}

impl View for ExternalValue {
    type V = ExternalValueView;

    open spec fn view(&self) -> ExternalValueView {
        match self {
            ExternalValue::StrBox(b) => ExternalValueView::StrBox(b@),
            ExternalValue::ByteArrayBox(b) => ExternalValueView::ByteArrayBox(b@),
            ExternalValue::ReferenceInternal() => ExternalValueView::ReferenceInternal,
            ExternalValue::UInt(u) => ExternalValueView::UInt(*u),
            ExternalValue::Unset() => ExternalValueView::Unset,
        }
    }
}

impl View for InternalValue {
    type V = InternalValueView;

    open spec fn view(&self) -> InternalValueView {
        match self {
            InternalValue::ByteArrayBox(b) => InternalValueView::ByteArrayBox(b@),
            InternalValue::UInt(u) => InternalValueView::UInt(*u),
            InternalValue::Unset() => InternalValueView::Unset,
        }
    }
}

impl ExternalValue {
    /// An owned copy of the given bytes.
    pub fn copy_byte_array(bytes: &[u8]) -> (v: Self)
        ensures
            v@ == ExternalValueView::ByteArrayBox(bytes@),
    {
        ExternalValue::ByteArrayBox(vstd::slice::slice_to_vec(bytes))
    }

    /// A copy of the value.
    pub fn duplicate(&self) -> (v: Self)
        ensures
            v@ == self@,
    {
        match self {
            ExternalValue::StrBox(b) => ExternalValue::StrBox(b.clone()),
            ExternalValue::ByteArrayBox(b) => ExternalValue::ByteArrayBox(b.clone()),
            ExternalValue::ReferenceInternal() => ExternalValue::ReferenceInternal(),
            ExternalValue::UInt(u) => ExternalValue::UInt(*u),
            ExternalValue::Unset() => ExternalValue::Unset(),
        }
    }
}

impl InternalValue {
    /// A copy of the value.
    pub fn duplicate(&self) -> (v: Self)
        ensures
            v@ == self@,
    {
        match self {
            InternalValue::ByteArrayBox(b) => InternalValue::ByteArrayBox(b.clone()),
            InternalValue::UInt(u) => InternalValue::UInt(*u),
            InternalValue::Unset() => InternalValue::Unset(),
        }
    }
}

/// One column value, tagged with the format code of its column.
#[derive(Clone, Debug)]
pub struct QueryValue {
    pub data_type: char,
    pub external_value: ExternalValue,
    pub internal_value: InternalValue,
}

/// A column value with the views of its two values.
pub struct QueryValueView {
    pub data_type: char,
    pub external_value: ExternalValueView,
    pub internal_value: InternalValueView,
}

impl View for QueryValue {
    type V = QueryValueView;

    open spec fn view(&self) -> QueryValueView {
        QueryValueView {
            data_type: self.data_type,
            external_value: self.external_value@,
            internal_value: self.internal_value@,
        }
    }
}

/// What a value hands to the engine when it is packed: the bytes it points
/// at, or a number passed as it is.
#[derive(Debug)]
pub enum PackedValue<'a> {
    /// The address of these bytes.
    Bytes(&'a Vec<u8>),
    /// The number itself.
    Word(u64),
    /// The address of an item that describes these bytes.
    Item(&'a Vec<u8>),
    /// The address of an item that describes no bytes.
    EmptyItem,
}

/// What a value hands to the engine, with sequences of bytes.
pub enum PackedValueView {
    Bytes(Seq<u8>),
    Word(u64),
    Item(Seq<u8>),
}

impl<'a> View for PackedValue<'a> {
    type V = PackedValueView;

    open spec fn view(&self) -> PackedValueView {
        match self {
            PackedValue::Bytes(b) => PackedValueView::Bytes(b@),
            PackedValue::Word(w) => PackedValueView::Word(*w),
            PackedValue::Item(b) => PackedValueView::Item(b@),
            PackedValue::EmptyItem => PackedValueView::Item(Seq::empty()),
        }
    }
}

impl QueryValueView {
    /// A value is materialized when it owns its content.
    pub open spec fn materialized(self) -> bool {
        self.external_value is StrBox || self.external_value is ByteArrayBox
            || self.external_value is UInt
    }

    /// Structural equality: the same format code and the same owned content
    /// of the same kind. A value that owns nothing equals no value, not
    /// even itself.
    pub open spec fn same_as(self, other: QueryValueView) -> bool {
        self.data_type == other.data_type && match (self.external_value, other.external_value) {
            (ExternalValueView::StrBox(a), ExternalValueView::StrBox(b)) => a == b,
            (ExternalValueView::ByteArrayBox(a), ExternalValueView::ByteArrayBox(b)) => a == b,
            (ExternalValueView::UInt(a), ExternalValueView::UInt(b)) => a == b,
            _ => false,
        }
    }

    /// The value after its internal content was copied into owned storage.
    pub open spec fn copied_to_external(self) -> QueryValueView {
        match self.internal_value {
            InternalValueView::ByteArrayBox(b) => QueryValueView {
                external_value: ExternalValueView::ByteArrayBox(b),
                ..self
            },
            InternalValueView::UInt(u) => QueryValueView {
                external_value: ExternalValueView::UInt(u),
                ..self
            },
            InternalValueView::Unset => self,
        }
    }

    /// What the value hands to the engine, if it holds anything.
    pub open spec fn packed(self) -> Option<PackedValueView> {
        match self.external_value {
            ExternalValueView::StrBox(b) => Some(PackedValueView::Bytes(b)),
            ExternalValueView::ByteArrayBox(b) => Some(PackedValueView::Bytes(b)),
            ExternalValueView::UInt(u) => Some(PackedValueView::Word(u)),
            ExternalValueView::ReferenceInternal => match self.internal_value {
                InternalValueView::ByteArrayBox(b) => Some(PackedValueView::Bytes(b)),
                InternalValueView::UInt(u) => Some(PackedValueView::Word(u)),
                InternalValueView::Unset => None,
            },
            ExternalValueView::Unset => None,
        }
    }

    /// The byte array that the value holds or stands for; empty where it
    /// holds none.
    pub open spec fn item(self) -> Seq<u8> {
        match self.external_value {
            ExternalValueView::ByteArrayBox(b) => b,
            ExternalValueView::ReferenceInternal => match self.internal_value {
                InternalValueView::ByteArrayBox(b) => b,
                _ => Seq::empty(),
            },
            _ => Seq::empty(),
        }
    }

    /// The number of bytes of a byte-array value; 0 for strings and numbers.
    pub open spec fn size(self) -> nat {
        match self.external_value {
            ExternalValueView::ByteArrayBox(b) => b.len(),
            ExternalValueView::ReferenceInternal => match self.internal_value {
                InternalValueView::ByteArrayBox(b) => b.len(),
                _ => 0,
            },
            _ => 0,
        }
    }
}

/// The views of a sequence of values, one for one.
pub open spec fn views(values: Seq<QueryValue>) -> Seq<QueryValueView> {
    values.map_values(|v: QueryValue| v@)
}

/// Structural equality of composite keys: the same number of columns, and
/// each column structurally equal.
pub open spec fn same_key(a: Seq<QueryValueView>, b: Seq<QueryValueView>) -> bool {
    &&& a.len() == b.len()
    &&& forall|i: int| 0 <= i < a.len() ==> (#[trigger] a[i]).same_as(b[i])
}

/// Whether every column of a key is materialized.
pub open spec fn materialized_key(key: Seq<QueryValueView>) -> bool {
    forall|i: int| 0 <= i < key.len() ==> (#[trigger] key[i]).materialized()
}

/// The position of the first zero byte of `bytes` at or after `i`; the
/// length of `bytes` if there is none.
pub open spec fn nul_from(bytes: Seq<u8>, i: int) -> int
    decreases bytes.len() - i,
{
    if 0 <= i < bytes.len() && bytes[i] != 0 {
        nul_from(bytes, i + 1)
    } else {
        i
    }
}

/// The bytes of `bytes` before its first zero byte; all of them if there is
/// none.
pub open spec fn until_nul(bytes: Seq<u8>) -> Seq<u8> {
    bytes.subrange(0, nul_from(bytes, 0))
}

/// The number of bytes before the first zero byte.
pub fn nul_position(bytes: &Vec<u8>) -> (n: usize)
    ensures
        n == nul_from(bytes@, 0),
        n <= bytes.len(),
        forall|j: int| 0 <= j < n ==> bytes@[j] != 0,
        n < bytes.len() ==> bytes@[n as int] == 0,
{
    let mut i: usize = 0;
    while i < bytes.len() && bytes[i] != 0
        invariant
            i <= bytes.len(),
            nul_from(bytes@, 0) == nul_from(bytes@, i as int),
            forall|j: int| 0 <= j < i ==> bytes@[j] != 0,
        decreases bytes.len() - i,
    {
        i += 1;
    }
    i
}

/// Compares two byte vectors.
pub fn bytes_equal(a: &Vec<u8>, b: &Vec<u8>) -> (r: bool)
    ensures
        r == (a@ == b@),
{
    if a.len() != b.len() {
        return false;
    }
    let mut i: usize = 0;
    while i < a.len()
        invariant
            i <= a.len(),
            a.len() == b.len(),
            forall|j: int| 0 <= j < i ==> a@[j] == b@[j],
        decreases a.len() - i,
    {
        if a[i] != b[i] {
            return false;
        }
        i += 1;
    }
    assert(a@ =~= b@);
    true
}

impl QueryValue {
    /// A padding value that holds nothing.
    pub fn empty() -> (v: Self)
        ensures
            v@ == (QueryValueView {
                data_type: 'x',
                external_value: ExternalValueView::Unset,
                internal_value: InternalValueView::Unset,
            }),
    {
        QueryValue {
            data_type: 'x',
            external_value: ExternalValue::Unset(),
            internal_value: InternalValue::Unset(),
        }
    }

    /// A string value that owns the bytes of `string`.
    pub fn for_string(string: String) -> (v: Self)
        ensures
            v@ == (QueryValueView {
                data_type: 'S',
                external_value: ExternalValueView::StrBox(vstd::utf8::encode_utf8(string@)),
                internal_value: InternalValueView::Unset,
            }),
    {
        QueryValue {
            data_type: 'S',
            external_value: ExternalValue::StrBox(string.as_str().as_bytes_vec()),
            internal_value: InternalValue::Unset(),
        }
    }

    /// A padding value that passes its internal value through.
    pub fn empty_for_passthrough() -> (v: Self)
        ensures
            v@ == (QueryValueView {
                data_type: 'x',
                external_value: ExternalValueView::ReferenceInternal,
                internal_value: InternalValueView::Unset,
            }),
    {
        QueryValue {
            data_type: 'x',
            external_value: ExternalValue::ReferenceInternal(),
            internal_value: InternalValue::Unset(),
        }
    }

    /// A copy of the value.
    pub fn duplicate(&self) -> (v: Self)
        ensures
            v@ == self@,
    {
        QueryValue {
            data_type: self.data_type,
            external_value: self.external_value.duplicate(),
            internal_value: self.internal_value.duplicate(),
        }
    }

    /// Makes the value own the given bytes.
    pub fn set_external_byte_array_box(&mut self, bab: Vec<u8>) -> (r: Result<(), GlueError>)
        ensures
            r is Ok,
            final(self)@ == (QueryValueView {
                external_value: ExternalValueView::ByteArrayBox(bab@),
                ..old(self)@
            }),
    {
        self.external_value = ExternalValue::ByteArrayBox(bab);
        Ok(())
    }

    /// What the value owns.
    pub fn get_external_value_ref(&self) -> (v: &ExternalValue)
        ensures
            *v == self.external_value,
    {
        &self.external_value
    }

    /// What the value owns, to be changed in place.
    pub fn get_external_value_mut(&mut self) -> (v: &mut ExternalValue)
        ensures
            *v == old(self).external_value,
            *final(self) == (QueryValue { external_value: *final(v), ..*old(self) }),
    {
        &mut self.external_value
    }

    /// Makes the value own the given bytes as a string.
    pub fn set_external_str_box(&mut self, sb: Vec<u8>) -> (r: Result<(), GlueError>)
        ensures
            r is Ok,
            final(self)@ == (QueryValueView {
                external_value: ExternalValueView::StrBox(sb@),
                ..old(self)@
            }),
    {
        self.external_value = ExternalValue::StrBox(sb);
        Ok(())
    }

    /// Makes the value own the given number.
    pub fn set_external_unit(&mut self, uint: u64) -> (r: Result<(), GlueError>)
        ensures
            r is Ok,
            final(self)@ == (QueryValueView {
                external_value: ExternalValueView::UInt(uint),
                ..old(self)@
            }),
    {
        self.external_value = ExternalValue::UInt(uint);
        Ok(())
    }

    /// Makes the value stand for its internal value. The value is changed
    /// in any case; the call fails where there is no internal value to
    /// stand for.
    pub fn set_external_reference(&mut self) -> (r: Result<(), GlueError>)
        ensures
            final(self)@ == (QueryValueView {
                external_value: ExternalValueView::ReferenceInternal,
                ..old(self)@
            }),
            old(self)@.internal_value is Unset <==> r is Err,
            r matches Err(e) ==> e@ == glue_error(
                GlueErrorCode::AccessEmptyBox,
                " getting ptr or value from internal"@,
            ),
    {
        self.external_value = ExternalValue::ReferenceInternal();
        match self.ptr_or_value() {
            Ok(_) => Ok(()),
            Err(e) => Err(e),
        }
    }

    /// The number of bytes of a byte array that the value owns or stands
    /// for; 0 for strings and numbers. A value that owns nothing has no
    /// size.
    pub fn get_size(&self) -> (r: Result<u64, GlueError>)
        ensures
            self@.external_value is Unset <==> r is Err,
            r matches Ok(n) ==> n == self@.size(),
            r matches Err(e) ==> e@ == glue_error(GlueErrorCode::AccessEmptyBox, " getting size"@),
    {
        match &self.external_value {
            ExternalValue::StrBox(_b) => Ok(0),
            ExternalValue::ByteArrayBox(b) => Ok(b.len() as u64),
            ExternalValue::UInt(_b) => Ok(0),
            ExternalValue::ReferenceInternal() => {
                match &self.internal_value {
                    InternalValue::ByteArrayBox(b) => Ok(b.len() as u64),
                    _ => Ok(0),
                }
            },
            ExternalValue::Unset() => Err(
                GlueError::for_glue_with_extra(
                    GlueErrorCode::AccessEmptyBox,
                    String::from_str(" getting size"),
                ),
            ),
        }
    }

    /// What the value hands to the engine under the given format. A raw
    /// item format always hands over an item: the byte array that the value
    /// holds, or an empty one.
    pub fn ptr_or_value_single(&self, format: &Format) -> (r: Result<PackedValue<'_>, GlueError>)
        ensures
            is_wt_item(format.format) ==> r is Ok,
            !is_wt_item(format.format) ==> (r is Ok <==> self@.packed() is Some),
            r matches Ok(p) ==> p@ == (if is_wt_item(format.format) {
                PackedValueView::Item(self@.item())
            } else {
                self@.packed()->0
            }),
            r matches Err(e) ==> e@ == glue_error(
                GlueErrorCode::AccessEmptyBox,
                if self@.external_value is Unset {
                    " getting ptr or value"@
                } else {
                    " getting ptr or value from internal"@
                },
            ),
    {
        if field_is_wt_item(format.format) {
            match &self.external_value {
                ExternalValue::ByteArrayBox(b) => Ok(PackedValue::Item(b)),
                ExternalValue::ReferenceInternal() => match &self.internal_value {
                    InternalValue::ByteArrayBox(b) => Ok(PackedValue::Item(b)),
                    _ => Ok(PackedValue::EmptyItem),
                },
                _ => Ok(PackedValue::EmptyItem),
            }
        } else {
            self.ptr_or_value()
        }
    }

    /// What the value hands to the engine: its owned content or, where it
    /// stands for its internal value, that one.
    pub fn ptr_or_value(&self) -> (r: Result<PackedValue<'_>, GlueError>)
        ensures
            r is Ok <==> self@.packed() is Some,
            r matches Ok(p) ==> Some(p@) == self@.packed(),
            r matches Err(e) ==> e@ == glue_error(
                GlueErrorCode::AccessEmptyBox,
                if self@.external_value is Unset {
                    " getting ptr or value"@
                } else {
                    " getting ptr or value from internal"@
                },
            ),
    {
        match &self.external_value {
            ExternalValue::StrBox(b) => Ok(PackedValue::Bytes(b)),
            ExternalValue::ByteArrayBox(b) => Ok(PackedValue::Bytes(b)),
            ExternalValue::UInt(b) => Ok(PackedValue::Word(*b)),
            ExternalValue::ReferenceInternal() => {
                match &self.internal_value {
                    InternalValue::ByteArrayBox(b) => Ok(PackedValue::Bytes(b)),
                    InternalValue::UInt(b) => Ok(PackedValue::Word(*b)),
                    InternalValue::Unset() => Err(
                        GlueError::for_glue_with_extra(
                            GlueErrorCode::AccessEmptyBox,
                            String::from_str(" getting ptr or value from internal"),
                        ),
                    ),
                }
            },
            ExternalValue::Unset() => Err(
                GlueError::for_glue_with_extra(
                    GlueErrorCode::AccessEmptyBox,
                    String::from_str(" getting ptr or value"),
                ),
            ),
        }
    }
}

impl QueryValue {
    /// The internal byte array read as a terminated string: its bytes
    /// before the first zero byte.
    pub fn get_str(&self) -> (r: Result<&[u8], GlueError>)
        ensures
            r is Ok <==> self@.internal_value is ByteArrayBox,
            r matches Ok(s) ==> s@ == until_nul(self@.internal_value->ByteArrayBox_0),
            r matches Err(e) ==> e@ == glue_error(GlueErrorCode::AccessEmptyBox, " getting str"@),
    {
        match &self.internal_value {
            InternalValue::ByteArrayBox(b) => {
                let n = nul_position(b);
                Ok(vstd::slice::slice_subrange(b.as_slice(), 0, n))
            },
            _ => Err(
                GlueError::for_glue_with_extra(
                    GlueErrorCode::AccessEmptyBox,
                    String::from_str(" getting str"),
                ),
            ),
        }
    }

    /// The bytes that were read.
    pub fn get_byte_array(&self) -> (r: Result<&Vec<u8>, GlueError>)
        ensures
            r is Ok <==> self@.internal_value is ByteArrayBox,
            r matches Ok(b) ==> self@.internal_value == InternalValueView::ByteArrayBox(b@),
            r matches Err(e) ==> e@ == glue_error(
                GlueErrorCode::AccessEmptyBox,
                " getting byte array"@,
            ),
    {
        match &self.internal_value {
            InternalValue::ByteArrayBox(b) => Ok(b),
            _ => Err(
                GlueError::for_glue_with_extra(
                    GlueErrorCode::AccessEmptyBox,
                    String::from_str(" getting byte array"),
                ),
            ),
        }
    }

    /// The number that was read.
    pub fn get_uint(&self) -> (r: Result<&u64, GlueError>)
        ensures
            r is Ok <==> self@.internal_value is UInt,
            r matches Ok(u) ==> self@.internal_value == InternalValueView::UInt(*u),
            r matches Err(e) ==> e@ == glue_error(GlueErrorCode::AccessEmptyBox, " getting uint"@),
    {
        match &self.internal_value {
            InternalValue::UInt(b) => Ok(b),
            _ => Err(
                GlueError::for_glue_with_extra(
                    GlueErrorCode::AccessEmptyBox,
                    String::from_str(" getting uint"),
                ),
            ),
        }
    }

    /// Materializes the value: copies what was read at the cursor into
    /// storage that the value owns. Fails, and changes nothing, where
    /// nothing was read.
    pub fn copy_to_external(&mut self) -> (r: Result<(), GlueError>)
        ensures
            r is Ok <==> !(old(self)@.internal_value is Unset),
            final(self)@ == old(self)@.copied_to_external(),
            r is Ok ==> final(self)@.materialized(),
            r matches Err(e) ==> e@ == glue_error(GlueErrorCode::AccessEmptyBox, " while copying"@),
    {
        match &self.internal_value {
            InternalValue::Unset() => Err(
                GlueError::for_glue_with_extra(
                    GlueErrorCode::AccessEmptyBox,
                    String::from_str(" while copying"),
                ),
            ),
            InternalValue::ByteArrayBox(bab) => {
                let copy = bab.clone();
                self.external_value = ExternalValue::ByteArrayBox(copy);
                Ok(())
            },
            InternalValue::UInt(uint) => {
                let u = *uint;
                self.external_value = ExternalValue::UInt(u);
                Ok(())
            },
        }
    }

    /// Structural equality of two values.
    pub fn same_as(&self, other: &Self) -> (r: bool)
        ensures
            r == self@.same_as(other@),
    {
        if self.data_type != other.data_type {
            return false;
        }
        match &self.external_value {
            ExternalValue::Unset() | ExternalValue::ReferenceInternal() => false,
            ExternalValue::ByteArrayBox(sbab) => match &other.external_value {
                ExternalValue::ByteArrayBox(obab) => bytes_equal(obab, sbab),
                _ => false,
            },
            ExternalValue::StrBox(ssb) => match &other.external_value {
                ExternalValue::StrBox(osb) => bytes_equal(osb, ssb),
                _ => false,
            },
            ExternalValue::UInt(sui) => match &other.external_value {
                ExternalValue::UInt(oui) => *sui == *oui,
                _ => false,
            },
        }
    }
}

impl PartialEq for QueryValue {
    fn eq(&self, other: &Self) -> (r: bool) {
        self.same_as(other)
    }
}

impl PartialEqSpecImpl for QueryValue {
    open spec fn obeys_eq_spec() -> bool {
        true
    }

    open spec fn eq_spec(&self, other: &Self) -> bool {
        self@.same_as(other@)
    }
}

/// Structural equality of two composite keys.
pub fn keys_equal(a: &Vec<QueryValue>, b: &Vec<QueryValue>) -> (r: bool)
    ensures
        r == same_key(views(a@), views(b@)),
{
    if a.len() != b.len() {
        return false;
    }
    let mut i: usize = 0;
    while i < a.len()
        invariant
            i <= a.len(),
            a.len() == b.len(),
            forall|j: int| 0 <= j < i ==> (#[trigger] views(a@)[j]).same_as(views(b@)[j]),
        decreases a.len() - i,
    {
        if !a[i].same_as(&b[i]) {
            assert(!views(a@)[i as int].same_as(views(b@)[i as int]));
            return false;
        }
        i += 1;
    }
    true
}

/// A copy of a composite key.
pub fn duplicate_values(values: &Vec<QueryValue>) -> (copy: Vec<QueryValue>)
    ensures
        views(copy@) == views(values@),
{
    let mut copy: Vec<QueryValue> = Vec::with_capacity(values.len());
    let mut i: usize = 0;
    while i < values.len()
        invariant
            i <= values.len(),
            copy.len() == i,
            forall|j: int| 0 <= j < i ==> copy@[j]@ == values@[j]@,
        decreases values.len() - i,
    {
        copy.push(values[i].duplicate());
        i += 1;
    }
    assert(views(copy@) =~= views(values@));
    copy
}

/// Structural equality is symmetric.
pub proof fn lemma_same_key_symmetric(a: Seq<QueryValueView>, b: Seq<QueryValueView>)
    ensures
        same_key(a, b) == same_key(b, a),
{
    if same_key(a, b) {
        assert forall|i: int| 0 <= i < b.len() implies (#[trigger] b[i]).same_as(a[i]) by {
            assert(a[i].same_as(b[i]));
        }
    }
    if same_key(b, a) {
        assert forall|i: int| 0 <= i < a.len() implies (#[trigger] a[i]).same_as(b[i]) by {
            assert(b[i].same_as(a[i]));
        }
    }
}

/// Structural equality is transitive.
pub proof fn lemma_same_key_transitive(
    a: Seq<QueryValueView>,
    b: Seq<QueryValueView>,
    c: Seq<QueryValueView>,
)
    requires
        same_key(a, b),
        same_key(b, c),
    ensures
        same_key(a, c),
{
    assert forall|i: int| 0 <= i < a.len() implies (#[trigger] a[i]).same_as(c[i]) by {
        assert(a[i].same_as(b[i]));
        assert(b[i].same_as(c[i]));
    }
}

/// A key equals itself exactly when each of its columns is materialized.
pub proof fn lemma_same_key_reflexive(a: Seq<QueryValueView>)
    ensures
        same_key(a, a) == materialized_key(a),
{
    if same_key(a, a) {
        assert forall|i: int| 0 <= i < a.len() implies (#[trigger] a[i]).materialized() by {
            assert(a[i].same_as(a[i]));
        }
    }
    if materialized_key(a) {
        assert forall|i: int| 0 <= i < a.len() implies (#[trigger] a[i]).same_as(a[i]) by {
            assert(a[i].materialized());
        }
    }
}

/// The views of a list of keys, one for one.
pub open spec fn key_views(keys: Seq<Vec<QueryValue>>) -> Seq<Seq<QueryValueView>> {
    Seq::new(keys.len(), |i: int| views(keys[i]@))
}

/// A key as it was read, materialized: each column copied into storage of
/// its own. `None` where a column was not read.
pub open spec fn materialized(key: Seq<QueryValueView>) -> Option<Seq<QueryValueView>> {
    if forall|i: int| 0 <= i < key.len() ==> !((#[trigger] key[i]).internal_value is Unset) {
        Some(Seq::new(key.len(), |i: int| key[i].copied_to_external()))
    } else {
        None
    }
}

/// A materialized key has every column materialized.
pub proof fn lemma_materialized(key: Seq<QueryValueView>)
    ensures
        materialized(key) matches Some(m) ==> materialized_key(m) && same_key(m, m),
{
    if materialized(key) is Some {
        let m = materialized(key)->0;
        assert forall|i: int| 0 <= i < m.len() implies (#[trigger] m[i]).materialized() by {
            assert(!(key[i].internal_value is Unset));
        }
        lemma_same_key_reflexive(m);
    }
}

/// Materializes a key: copies each column out of the storage that it was
/// read from.
pub fn materialize(key: &Vec<QueryValue>) -> (r: Result<Vec<QueryValue>, GlueError>)
    ensures
        r is Ok <==> materialized(views(key@)) is Some,
        r matches Ok(m) ==> Some(views(m@)) == materialized(views(key@)),
        r matches Err(e) ==> e@ == glue_error(GlueErrorCode::AccessEmptyBox, " while copying"@),
{
    let mut copy: Vec<QueryValue> = Vec::with_capacity(key.len());
    let mut i: usize = 0;
    while i < key.len()
        invariant
            i <= key.len(),
            copy@.len() == i,
            forall|j: int| 0 <= j < i ==> !((#[trigger] views(key@)[j]).internal_value is Unset),
            forall|j: int| 0 <= j < i ==> (#[trigger] copy@[j])@ == key@[j]@.copied_to_external(),
        decreases key.len() - i,
    {
        let mut value = key[i].duplicate();
        match value.copy_to_external() {
            Ok(()) => {},
            Err(e) => {
                assert(views(key@)[i as int].internal_value is Unset);
                return Err(e);
            },
        }
        copy.push(value);
        i += 1;
    }
    assert(views(copy@) =~= materialized(views(key@))->0);
    Ok(copy)
}

/// What was read of one column at a cursor's position: the bytes that the
/// engine pointed at, or the number that it gave.
#[derive(Clone, Debug)]
pub enum RawValue {
    Bytes(Vec<u8>),
    Word(u64),
}

/// What was read of one column, with a sequence of bytes.
pub enum RawValueView {
    Bytes(Seq<u8>),
    Word(u64),
}

impl View for RawValue {
    type V = RawValueView;

    open spec fn view(&self) -> RawValueView {
        match self {
            RawValue::Bytes(b) => RawValueView::Bytes(b@),
            RawValue::Word(w) => RawValueView::Word(*w),
        }
    }
}

/// Whether columns of this format are read as bytes: raw items, character
/// arrays and strings. Every other format is read as a number.
pub open spec fn read_as_bytes(format: char) -> bool {
    is_wt_item(format) || format == 's' || format == 'S'
}

/// The internal value that a column of the given format has after a read:
/// the bytes of a raw item, the bytes of a character array up to the size
/// of the column, the bytes of a string up to its terminator, or the
/// number. `None` where what was read is not of the kind that the format
/// asks for.
pub open spec fn read_value(format: Format, raw: RawValueView) -> Option<InternalValueView> {
    match raw {
        RawValueView::Bytes(b) => if is_wt_item(format.format) {
            Some(InternalValueView::ByteArrayBox(b))
        } else if format.format == 's' {
            Some(
                InternalValueView::ByteArrayBox(
                    if format.size < b.len() {
                        b.take(format.size as int)
                    } else {
                        b
                    },
                ),
            )
        } else if format.format == 'S' {
            Some(InternalValueView::ByteArrayBox(until_nul(b)))
        } else {
            None
        },
        RawValueView::Word(w) => if read_as_bytes(format.format) {
            None
        } else {
            Some(InternalValueView::UInt(w))
        },
    }
}

impl QueryValue {
    /// Completes the read of a column: takes what the engine gave as the
    /// internal value, under the column's format. Fails, and changes
    /// nothing, where it is not of the kind that the format asks for.
    pub fn finalize_read(&mut self, format: &Format, raw: RawValue) -> (r: Result<(), GlueError>)
        ensures
            r is Ok <==> read_value(*format, raw@) is Some,
            r is Ok ==> final(self)@ == (QueryValueView {
                internal_value: read_value(*format, raw@)->0,
                ..old(self)@
            }),
            r matches Err(e) ==> final(self)@ == old(self)@ && e@ == glue_error(
                GlueErrorCode::InvalidDataForFormat,
                Seq::empty().push(format.format),
            ),
    {
        match raw {
            RawValue::Bytes(bytes) => {
                if field_is_wt_item(format.format) {
                    self.internal_value = InternalValue::ByteArrayBox(bytes);
                    Ok(())
                } else if format.format == FieldFormat::CHAR_ARRAY {
                    let mut bytes = bytes;
                    if format.size < bytes.len() as u64 {
                        bytes.truncate(format.size as usize);
                    }
                    self.internal_value = InternalValue::ByteArrayBox(bytes);
                    Ok(())
                } else if format.format == FieldFormat::STRING {
                    let mut bytes = bytes;
                    let n = nul_position(&bytes);
                    bytes.truncate(n);
                    self.internal_value = InternalValue::ByteArrayBox(bytes);
                    Ok(())
                } else {
                    Err(mismatch(format.format))
                }
            },
            RawValue::Word(word) => {
                if field_is_wt_item(format.format) || format.format == FieldFormat::CHAR_ARRAY
                    || format.format == FieldFormat::STRING {
                    Err(mismatch(format.format))
                } else {
                    self.internal_value = InternalValue::UInt(word);
                    Ok(())
                }
            },
        }
    }
}

/// The error for a value that is not of the kind that its format asks for.
fn mismatch(format: char) -> (e: GlueError)
    ensures
        e@ == glue_error(GlueErrorCode::InvalidDataForFormat, Seq::empty().push(format)),
{
    let mut extra = String::new();
    string_push(&mut extra, format);
    GlueError::for_glue_with_extra(GlueErrorCode::InvalidDataForFormat, extra)
}

/// The error of a value that has nothing to hand to the engine.
pub open spec fn nothing_to_pack(value: QueryValueView) -> GlueErrorView {
    glue_error(
        GlueErrorCode::AccessEmptyBox,
        if value.external_value is Unset {
            " getting ptr or value"@
        } else {
            " getting ptr or value from internal"@
        },
    )
}

/// The values of the first `n` columns as they are handed to the engine,
/// in order: padding columns hand over nothing. The first column that has
/// no value, or a value that holds nothing, is an error.
pub open spec fn packed_upto(values: Seq<QueryValueView>, formats: Seq<Format>, n: int) -> Result<
    Seq<PackedValueView>,
    GlueErrorView,
>
    decreases n,
{
    if n <= 0 {
        Ok(Seq::empty())
    } else {
        match packed_upto(values, formats, n - 1) {
            Err(e) => Err(e),
            Ok(before) => if formats[n - 1].format == 'x' {
                Ok(before)
            } else if n - 1 >= values.len() {
                Err(glue_error(GlueErrorCode::UnlikelyNoValue, Seq::empty()))
            } else if is_wt_item(formats[n - 1].format) {
                Ok(before.push(PackedValueView::Item(values[n - 1].item())))
            } else {
                match values[n - 1].packed() {
                    Some(p) => Ok(before.push(p)),
                    None => Err(nothing_to_pack(values[n - 1])),
                }
            },
        }
    }
}

/// The views of a list of packed values, one for one.
pub open spec fn packed_views(packed: Seq<PackedValue<'_>>) -> Seq<PackedValueView> {
    packed.map_values(|p: PackedValue<'_>| p@)
}

/// Prepares the values of a key or a row for the engine: what each column
/// hands over under its format, in order, without the padding columns.
pub fn pack_values<'a>(values: &'a Vec<QueryValue>, formats: &Vec<Format>) -> (r: Result<
    Vec<PackedValue<'a>>,
    GlueError,
>)
    ensures
        match packed_upto(views(values@), formats@, formats@.len() as int) {
            Ok(packed) => r matches Ok(p) && packed_views(p@) == packed,
            Err(error) => r matches Err(e) && e@ == error,
        },
{
    let mut packed: Vec<PackedValue<'a>> = Vec::new();
    let mut i: usize = 0;
    assert(packed_views(packed@) =~= Seq::empty());
    while i < formats.len()
        invariant
            i <= formats.len(),
            packed_upto(views(values@), formats@, i as int) == Ok::<
                Seq<PackedValueView>,
                GlueErrorView,
            >(packed_views(packed@)),
        decreases formats.len() - i,
    {
        let format = &formats[i];
        if format.format != FieldFormat::PADDING {
            if i >= values.len() {
                proof {
                    lemma_packed_stays_error(
                        views(values@),
                        formats@,
                        i as int + 1,
                        formats@.len() as int,
                    );
                }
                return Err(GlueError::for_glue(GlueErrorCode::UnlikelyNoValue));
            }
            assert(views(values@)[i as int] == values@[i as int]@);
            let ghost before = packed_views(packed@);
            match values[i].ptr_or_value_single(format) {
                Ok(p) => {
                    packed.push(p);
                    assert(packed_views(packed@) =~= before.push(p@));
                },
                Err(e) => {
                    proof {
                        lemma_packed_stays_error(
                            views(values@),
                            formats@,
                            i as int + 1,
                            formats@.len() as int,
                        );
                    }
                    return Err(e);
                },
            }
        }
        i += 1;
    }
    Ok(packed)
}

/// Once a column is in error, the error stays with more columns.
pub proof fn lemma_packed_stays_error(
    values: Seq<QueryValueView>,
    formats: Seq<Format>,
    k: int,
    n: int,
)
    requires
        k <= n,
        packed_upto(values, formats, k) is Err,
    ensures
        packed_upto(values, formats, n) == packed_upto(values, formats, k),
    decreases n - k,
{
    if k < n {
        lemma_packed_stays_error(values, formats, k, n - 1);
    }
}

/// A row as the caller sees it: its key columns and its value columns.
#[derive(Clone, Debug)]
pub struct InternalDocument {
    pub key: Vec<QueryValue>,
    pub value: Vec<QueryValue>,
}

/// A row with the views of its columns.
pub struct DocumentView {
    pub key: Seq<QueryValueView>,
    pub value: Seq<QueryValueView>,
}

impl View for InternalDocument {
    type V = DocumentView;

    open spec fn view(&self) -> DocumentView {
        DocumentView { key: views(self.key@), value: views(self.value@) }
    }
}

/// The views of a list of rows, one for one.
pub open spec fn document_views(documents: Seq<InternalDocument>) -> Seq<DocumentView> {
    documents.map_values(|d: InternalDocument| d@)
}

/// The operation of a predicate node.
#[derive(PartialEq, Eq, Structural, Clone, Copy, Debug)]
pub enum Operation {
    AND,
    OR,
    LT,
    GT,
    LE,
    GE,
    EQ,
    NE,
    INDEX,
}

/// A node of a predicate tree. Without an index name it speaks of the
/// primary table's key. A leaf carries `query_values`, an inner node
/// `sub_conditions`.
#[derive(Debug)]
pub struct InternalIndexSpec {
    pub index_name: Option<String>,
    pub operation: Operation,
    pub sub_conditions: Option<Vec<InternalIndexSpec>>,
    pub query_values: Option<Vec<QueryValue>>,
}

/// A predicate node with sequences in place of its strings and vectors.
pub struct IndexSpecView {
    pub index_name: Option<Seq<char>>,
    pub operation: Operation,
    pub sub_conditions: Option<Seq<IndexSpecView>>,
    pub query_values: Option<Seq<QueryValueView>>,
}

impl View for InternalIndexSpec {
    type V = IndexSpecView;

    open spec fn view(&self) -> IndexSpecView
        decreases self,
    {
        IndexSpecView {
            index_name: match self.index_name {
                Some(n) => Some(n@),
                None => None,
            },
            operation: self.operation,
            sub_conditions: match self.sub_conditions {
                Some(v) => Some(node_views_upto(v, v.len() as int)),
                None => None,
            },
            query_values: match self.query_values {
                Some(v) => Some(views(v@)),
                None => None,
            },
        }
    }
}

/// The views of the first `n` nodes of a list.
pub open spec fn node_views_upto(specs: Vec<InternalIndexSpec>, n: int) -> Seq<IndexSpecView>
    decreases specs, n,
{
    if n <= 0 || n > specs.len() {
        Seq::empty()
    } else {
        node_views_upto(specs, n - 1).push(specs[n - 1]@)
    }
}

/// The views of a list of predicate nodes, one for one.
pub open spec fn node_views(specs: Seq<InternalIndexSpec>) -> Seq<IndexSpecView> {
    Seq::new(specs.len(), |i: int| specs[i]@)
}

/// The views of the first `n` nodes are the views of each of them.
pub proof fn lemma_node_views_upto(specs: Vec<InternalIndexSpec>, n: int)
    requires
        0 <= n <= specs.len(),
    ensures
        node_views_upto(specs, n) == node_views(specs@.take(n)),
    decreases n,
{
    if n > 0 {
        lemma_node_views_upto(specs, n - 1);
        assert(node_views(specs@.take(n)) =~= node_views(specs@.take(n - 1)).push(specs[n - 1]@));
    } else {
        assert(node_views(specs@.take(n)) =~= Seq::empty());
    }
}

/// What a node's view is made of.
pub proof fn lemma_node_view(node: InternalIndexSpec)
    ensures
        node@.operation == node.operation,
        node@.index_name == (match node.index_name {
            Some(n) => Some(n@),
            None => None,
        }),
        node@.query_values == (match node.query_values {
            Some(v) => Some(views(v@)),
            None => None,
        }),
        node@.sub_conditions == (match node.sub_conditions {
            Some(v) => Some(node_views(v@)),
            None => None,
        }),
{
    match node.sub_conditions {
        Some(v) => {
            lemma_node_views_upto(v, v.len() as int);
            assert(v@.take(v.len() as int) =~= v@);
        },
        None => {},
    }
}

/// A copy of a predicate node and of everything under it.
pub fn duplicate_spec(node: &InternalIndexSpec) -> (copy: InternalIndexSpec)
    ensures
        copy@ == node@,
    decreases node, 1nat,
{
    let copy = InternalIndexSpec {
        index_name: match &node.index_name {
            Some(name) => Some(name.clone()),
            None => None,
        },
        operation: node.operation,
        sub_conditions: match &node.sub_conditions {
            Some(conditions) => Some(duplicate_specs(conditions)),
            None => None,
        },
        query_values: match &node.query_values {
            Some(values) => Some(duplicate_values(values)),
            None => None,
        },
    };
    proof {
        lemma_node_view(*node);
        lemma_node_view(copy);
    }
    copy
}

/// A copy of a forest of predicate nodes.
pub fn duplicate_specs(nodes: &Vec<InternalIndexSpec>) -> (copies: Vec<InternalIndexSpec>)
    ensures
        node_views(copies@) == node_views(nodes@),
    decreases nodes, 0nat,
{
    let mut copies: Vec<InternalIndexSpec> = Vec::with_capacity(nodes.len());
    let mut i: usize = 0;
    while i < nodes.len()
        invariant
            i <= nodes.len(),
            copies@.len() == i,
            forall|j: int| 0 <= j < i ==> (#[trigger] copies@[j])@ == nodes@[j]@,
        decreases nodes.len() - i,
    {
        copies.push(duplicate_spec(&nodes[i]));
        i += 1;
    }
    assert(node_views(copies@) =~= node_views(nodes@));
    copies
}

impl InternalIndexSpec {
    /// A copy of the node and of everything under it.
    pub fn duplicate(&self) -> (copy: Self)
        ensures
            copy@ == self@,
    {
        duplicate_spec(self)
    }
}

} // verus!

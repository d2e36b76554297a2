//! The engine's two item types, as plain values.

use vstd::prelude::*;

verus! {

/// The kinds of configuration values, by number.
pub const WT_CONFIG_ITEM_STRING: u32 = 0;

pub const WT_CONFIG_ITEM_BOOL: u32 = 1;

pub const WT_CONFIG_ITEM_ID: u32 = 2;

pub const WT_CONFIG_ITEM_NUM: u32 = 3;

pub const WT_CONFIG_ITEM_STRUCT: u32 = 4;

/// A value found in a configuration string: the text that it starts in,
/// its length in bytes, its kind and, for a number or a boolean, its
/// value. A value that was not found has no text.
#[allow(non_camel_case_types)]
#[derive(Clone, Debug)]
pub struct WT_CONFIG_ITEM {
    pub str_: Option<Vec<u8>>,
    pub len: u64,
    pub val: i64,
    pub type_: u32,
}

/// A configuration value with a sequence of bytes for its text.
#[allow(non_camel_case_types)]
pub struct WT_CONFIG_ITEM_VIEW {
    pub str_: Option<Seq<u8>>,
    pub len: u64,
    pub val: i64,
    pub type_: u32,
}

impl View for WT_CONFIG_ITEM {
    type V = WT_CONFIG_ITEM_VIEW;

    open spec fn view(&self) -> WT_CONFIG_ITEM_VIEW {
        WT_CONFIG_ITEM_VIEW {
            str_: match self.str_ {
                Some(s) => Some(s@),
                None => None,
            },
            len: self.len,
            val: self.val,
            type_: self.type_,
        }
    }
}

impl WT_CONFIG_ITEM {
    /// The value of a key that was not found.
    pub fn empty() -> (item: Self)
        ensures
            item@ == (WT_CONFIG_ITEM_VIEW { str_: None, len: 0, val: 0, type_: 0 }),
    {
        WT_CONFIG_ITEM { len: 0, str_: None, type_: 0, val: 0 }
    }
}

/// A byte string as the engine passes it: the memory that it lies in and
/// the number of its bytes.
#[allow(non_camel_case_types)]
#[derive(Clone, Debug)]
pub struct WT_ITEM {
    pub data: Vec<u8>,
    pub size: u64,
    pub memsize: u64,
    pub flags: u32,
}

/// An item with a sequence of bytes for its memory.
#[allow(non_camel_case_types)]
pub struct WT_ITEM_VIEW {
    pub data: Seq<u8>,
    pub size: u64,
    pub memsize: u64,
    pub flags: u32,
}

impl View for WT_ITEM {
    type V = WT_ITEM_VIEW;

    open spec fn view(&self) -> WT_ITEM_VIEW {
        WT_ITEM_VIEW {
            data: self.data@,
            size: self.size,
            memsize: self.memsize,
            flags: self.flags,
        }
    }
}

impl WT_ITEM_VIEW {
    /// The bytes of the item: the first `size` bytes of its memory.
    pub open spec fn bytes(self) -> Seq<u8> {
        if self.size < self.data.len() {
            self.data.take(self.size as int)
        } else {
            self.data
        }
    }
}

impl WT_ITEM {
    /// An item of no bytes.
    pub fn empty() -> (item: Self)
        ensures
            item@ == (WT_ITEM_VIEW { data: Seq::empty(), size: 0, memsize: 0, flags: 0 }),
    {
        WT_ITEM { data: Vec::new(), flags: 0, memsize: 0, size: 0 }
    }

    /// An item that holds the given bytes.
    pub fn of(data: Vec<u8>) -> (item: Self)
        ensures
            item@.bytes() == data@,
            item@.data == data@,
            item@.size == data@.len(),
    {
        let size = data.len() as u64;
        WT_ITEM { data, flags: 0, memsize: 0, size }
    }

    /// The number of bytes of the item.
    pub fn length(&self) -> (n: usize)
        ensures
            n == self@.bytes().len(),
            n <= self.data@.len(),
    {
        if self.size < self.data.len() as u64 {
            self.size as usize
        } else {
            self.data.len()
        }
    }
}

} // verus!

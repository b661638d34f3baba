//! The label sequencer, the data section and the globals section.
use vstd::prelude::*;
use crate::instruction::{DataId, Label};

verus! {

/// Issues fresh labels and fresh virtual register numbers.
pub struct RegisterSequencer {
    pub next_label: usize,
    pub next_register: u64,
}

impl RegisterSequencer {
    pub fn new() -> (r: Self)
        ensures
            r.next_label == 0,
            r.next_register == 0,
    {
        RegisterSequencer { next_label: 0, next_register: 0 }
    }

    /// Returns a label that this sequencer has not issued before.
    pub fn get_label(&mut self) -> (r: Label)
        requires
            old(self).next_label < usize::MAX,
        ensures
            r == Label(old(self).next_label),
            final(self).next_label == old(self).next_label + 1,
            final(self).next_register == old(self).next_register,
    {
        let l = Label(self.next_label);
        self.next_label = self.next_label + 1;
        l
    }

    /// Returns a virtual register number that this sequencer has not issued before.
    pub fn next(&mut self) -> (r: u64)
        requires
            old(self).next_register < u64::MAX,
        ensures
            r == old(self).next_register,
            final(self).next_register == old(self).next_register + 1,
            final(self).next_label == old(self).next_label,
    {
        let r = self.next_register;
        self.next_register = self.next_register + 1;
        r
    }
}

/// A value stored in the data section.
#[derive(Debug)]
pub enum DataEntry {
    /// A machine word.
    Word(u64),
    /// A byte blob.
    Bytes(Vec<u8>),
}

/// The constants embedded in the binary, in the order they will be laid out.
pub struct DataSection {
    pub value_pairs: Vec<DataEntry>,
}

impl DataSection {
    pub fn new() -> (r: Self)
        ensures
            r.value_pairs@.len() == 0,
    {
        DataSection { value_pairs: Vec::new() }
    }

    /// Number of values stored.
    pub fn len(&self) -> (r: usize)
        ensures
            r == self.value_pairs@.len(),
    {
        self.value_pairs.len()
    }

    /// Appends a value (no deduplication) and returns the identifier that refers to it.
    pub fn insert_data_value(&mut self, value: DataEntry) -> (r: DataId)
        ensures
            final(self).value_pairs@ == old(self).value_pairs@.push(value),
            r == DataId(old(self).value_pairs@.len() as usize),
    {
        let id = DataId(self.value_pairs.len());
        self.value_pairs.push(value);
        id
    }

    /// The word stored under `id`, if `id` refers to a word.
    pub fn get_word(&self, id: DataId) -> (r: Option<u64>)
        ensures
            r == word_at(self.value_pairs@, id),
    {
        if id.0 < self.value_pairs.len() {
            match &self.value_pairs[id.0] {
                DataEntry::Word(w) => Some(*w),
                DataEntry::Bytes(_) => None,
            }
        } else {
            None
        }
    }
}

/// The word stored under `id`, if `id` refers to a word.
pub open spec fn word_at(values: Seq<DataEntry>, id: DataId) -> Option<u64> {
    if id.0 < values.len() {
        match values[id.0 as int] {
            DataEntry::Word(w) => Some(w),
            DataEntry::Bytes(_) => None,
        }
    } else {
        None
    }
}

/// Storage reserved for the program's globals: its size in bytes.
///
/// The size fits the 24-bit immediate of the stack-growth instruction.
pub struct GlobalsSection {
    pub len_in_bytes: u32,
}

impl GlobalsSection {
    pub open spec fn spec_len(&self) -> nat {
        self.len_in_bytes as nat
    }

    pub open spec fn wf(&self) -> bool {
        self.len_in_bytes < 0x100_0000
    }

    /// A section of `len_in_bytes` bytes, or `None` where that size does not fit 24 bits.
    pub fn new(len_in_bytes: u64) -> (r: Option<Self>)
        ensures
            r.is_some() <==> len_in_bytes < 0x100_0000,
            r.is_some() ==> r.unwrap().wf() && r.unwrap().spec_len() == len_in_bytes,
    {
        if len_in_bytes < 0x100_0000 {
            Some(GlobalsSection { len_in_bytes: len_in_bytes as u32 })
        } else {
            None
        }
    }

    pub fn len_in_bytes(&self) -> (r: u32)
        ensures
            r == self.spec_len(),
    {
        self.len_in_bytes
    }
}

} // verus!

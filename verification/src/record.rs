//! The parsed form of one data record.
use vstd::prelude::*;

verus! {

/// One parsed data record (S1, S2 or S3).
pub struct S19Record {
    /// Record type: 1 = S1, 2 = S2, 3 = S3
    pub record_type: u8,
    /// Address (always 32-bit, zero-extended for S1/S2)
    pub address: u32,
    /// Number of valid bytes in `data`
    pub data_len: u32,
    /// Up to 255 data bytes (max one S-record payload)
    pub data: [u8; 255],
}

/// What a record means: its type, its address and its payload bytes.
pub type RecordModel = (u8, u32, Seq<u8>);

impl S19Record {
    /// `data_len` fits the buffer and every byte after the payload is zero.
    pub open spec fn wf(&self) -> bool {
        &&& self.data_len <= 255
        &&& forall|i: int| self.data_len <= i < 255 ==> self.data@[i] == 0
    }

    /// The payload: the first `data_len` bytes of `data`.
    pub open spec fn payload(&self) -> Seq<u8> {
        self.data@.take(self.data_len as int)
    }
}

impl View for S19Record {
    type V = RecordModel;

    open spec fn view(&self) -> RecordModel {
        (self.record_type, self.address, self.payload())
    }
}

} // verus!

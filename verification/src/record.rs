//! The record shape delivered by the upstream partitioned log.

use vstd::prelude::*;

verus! {

/// One record of a partitioned, ordered log: tagged with its topic, the
/// partition it came from, its per-partition offset, and an optional key
/// and value. A missing value means deletion of the key; a missing key is
/// a protocol violation and the record is skipped.
pub struct Record {
    pub topic: String,
    pub partition: u32,
    pub offset: u64,
    pub key: Option<Vec<u8>>,
    pub value: Option<Vec<u8>>,
}

/// The mathematical shape of a record, as contracts speak of it.
pub struct RecordView {
    pub topic: Seq<char>,
    pub partition: u32,
    pub offset: u64,
    pub key: Option<Seq<u8>>,
    pub value: Option<Seq<u8>>,
}

impl View for Record {
    type V = RecordView;

    open spec fn view(&self) -> RecordView {
        RecordView {
            topic: self.topic@,
            partition: self.partition,
            offset: self.offset,
            key: match self.key {
                Option::Some(k) => Option::Some(k@),
                Option::None => Option::None,
            },
            value: match self.value {
                Option::Some(v) => Option::Some(v@),
                Option::None => Option::None,
            },
        }
    }
}

} // verus!

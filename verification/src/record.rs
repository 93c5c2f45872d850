use vstd::prelude::*;

verus! {

/// Handle of a live record. Unique among the records that are live at one
/// moment; a handle that was released is handed out again.
pub type UserId = u64;

/// The payload kept for one user. It has no fields yet.
#[derive(Debug, Clone, Copy, PartialEq, Eq, Structural)]
pub struct UserData;

/// The bytes of `{}`, the text form of a record.
pub open spec fn record_text() -> Seq<u8> {
    seq![0x7bu8, 0x7du8]
}

impl UserData {
    /// The text form of the record: the empty object.
    pub fn to_text(&self) -> (out: Vec<u8>)
        ensures
            out@ == record_text(),
    {
        let mut out: Vec<u8> = Vec::new();
        out.push(0x7bu8);
        out.push(0x7du8);
        assert(out@ =~= record_text());
        out
    }
}

} // verus!

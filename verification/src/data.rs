//! The shapes held in memory and written to the log.

use vstd::prelude::*;

verus! {

/// The identifier of one write: 128 bits, chosen by the caller, unique per
/// write and ordered as a number.
#[derive(Clone, Copy, Debug, PartialEq, Eq, PartialOrd, Ord, Structural)]
pub struct Revision(pub u128);

/// The 32 digits in which a revision is written, in the order of their worth.
pub open spec fn text_digits() -> Seq<char> {
    seq![
        '0', '1', '2', '3', '4', '5', '6', '7', '8', '9', 'A', 'B', 'C', 'D', 'E', 'F', 'G', 'H',
        'J', 'K', 'M', 'N', 'P', 'Q', 'R', 'S', 'T', 'V', 'W', 'X', 'Y', 'Z',
    ]
}

/// A revision as text: 26 digits of five bits each, the highest first.
pub open spec fn revision_text(raw: u128) -> Seq<char> {
    Seq::new(26, |i: int| text_digits()[((raw >> ((125 - 5 * i) as u128)) & 0x1f) as int])
}

/// Writes 128 bits as the text of the identifier that they are.
///
/// Calls `to_string` of `ulid::Ulid`, which gives the 26 characters of the
/// identifier's canonical form: from the right, each character is the digit
/// for the next five bits.
#[verifier::external_body]
fn identifier_text(raw: u128) -> (text: String)
    ensures
        text@ == revision_text(raw),
{
    ulid::Ulid(raw).to_string()
}

impl Revision {
    /// The revision as text, in the canonical form of its identifier.
    pub fn to_string(&self) -> (text: String)
        ensures
            text@ == revision_text(self.0),
            text@.len() == 26,
    {
        identifier_text(self.0)
    }
}

/// The state of a key after one write.
///
/// `prev_rev` is `None` for the first write of a key, and otherwise names the
/// revision that this write replaced.
#[derive(Clone, Copy, Debug, PartialEq, Eq, Structural)]
pub struct ValueEntry {
    pub revision: Revision,
    pub prev_rev: Option<Revision>,
    pub value: u32,
}

/// One record of the log: one write of one key.
#[derive(Clone, Copy, Debug, PartialEq, Eq, Structural)]
pub struct KeyValueRevisionPersistence {
    pub key: u128,
    pub value_entry: ValueEntry,
}

/// The key of the historical index: a key at one of its revisions. Such keys
/// are ordered by key first and by revision second.
#[derive(Clone, Copy, Debug, PartialEq, Eq, PartialOrd, Ord, Structural)]
pub struct KeyAtRevision {
    pub key: u128,
    pub revision: Revision,
}

/// What the historical index holds for a key at a revision: the entry
/// without its revision, which the index key already carries.
#[derive(Clone, Copy, Debug, PartialEq, Eq, Structural)]
pub struct ValueWithPrevRevRef {
    pub prev_rev: Option<Revision>,
    pub value: u32,
}

} // verus!

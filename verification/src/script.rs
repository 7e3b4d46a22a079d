//! Script classification of characters by four-letter tag.

use vstd::prelude::*;

verus! {

/// Tag of the script that combining characters inherit from their base (`zinh`).
pub const INHERITED_TAG: u32 = 0x7a69_6e68;

/// Tag of characters that are shared between scripts (`zyyy`).
pub const COMMON_TAG: u32 = 0x7a79_7979;

/// Tag of characters without a known script (`zzzz`).
pub const UNKNOWN_TAG: u32 = 0x7a7a_7a7a;

/// A writing system, identified by its four-letter tag packed big-endian
/// into 32 bits (`latn` is `0x6c61_746e`).
#[derive(Clone, Copy, Debug, PartialEq, Eq, Structural)]
pub struct Script {
    pub tag: u32,
}

impl Script {
    /// A neutral script says nothing about the writing system of a
    /// character: the script has to come from the surrounding text.
    pub open spec fn neutral(self) -> bool {
        self.tag == INHERITED_TAG || self.tag == COMMON_TAG || self.tag == UNKNOWN_TAG
    }

    /// The script shared between writing systems, which a scan starts from.
    pub open spec fn common_spec() -> Script {
        Script { tag: COMMON_TAG }
    }

    #[verifier::when_used_as_spec(common_spec)]
    pub fn common() -> (s: Script)
        ensures
            s == Script::common_spec(),
            s.neutral(),
    {
        Script { tag: COMMON_TAG }
    }

    pub fn is_neutral(&self) -> (b: bool)
        ensures
            b == self.neutral(),
    {
        self.tag == INHERITED_TAG || self.tag == COMMON_TAG || self.tag == UNKNOWN_TAG
    }
}

} // verus!

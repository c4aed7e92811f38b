use vstd::prelude::*;

verus! {

/// What the setting for unified memory asks for.
#[derive(Clone, Copy, Debug, PartialEq, Eq, Structural)]
pub enum UnifiedToggle {
    /// Ask the device whether it shares its memory with the host.
    Default,
    /// Treat the device as sharing its memory with the host, or as not
    /// sharing it, whatever the device says.
    Forced(bool),
}

/// An ASCII capital as its small letter, every other byte as it is.
pub open spec fn lower(b: u8) -> u8 {
    if 65 <= b <= 90 {
        (b + 32) as u8
    } else {
        b
    }
}

/// The bytes of `default`.
pub open spec fn word_default() -> Seq<u8> {
    seq![100u8, 101u8, 102u8, 97u8, 117u8, 108u8, 116u8]
}

/// The bytes of `true`.
pub open spec fn word_true() -> Seq<u8> {
    seq![116u8, 114u8, 117u8, 101u8]
}

/// The bytes of `false`.
pub open spec fn word_false() -> Seq<u8> {
    seq![102u8, 97u8, 108u8, 115u8, 101u8]
}

/// What the text `bytes` asks for: `default` in capitals or small letters,
/// or `true` or `false` in small letters; nothing else is a setting.
pub open spec fn toggle_of(bytes: Seq<u8>) -> Option<UnifiedToggle> {
    if bytes.map_values(|b: u8| lower(b)) == word_default() {
        Some(UnifiedToggle::Default)
    } else if bytes == word_true() {
        Some(UnifiedToggle::Forced(true))
    } else if bytes == word_false() {
        Some(UnifiedToggle::Forced(false))
    } else {
        None
    }
}

/// Whether `bytes`, with capitals taken as small letters where `fold` says
/// so, is the word `word`.
fn is_word(bytes: &[u8], word: &[u8], fold: bool) -> (same: bool)
    ensures
        same == (if fold {
            bytes@.map_values(|b: u8| lower(b)) == word@
        } else {
            bytes@ == word@
        }),
{
    if bytes.len() != word.len() {
        return false;
    }
    let mut i: usize = 0;
    while i < bytes.len()
        invariant
            i <= bytes@.len(),
            bytes@.len() == word@.len(),
            forall|j: int|
                0 <= j < i ==> (if fold {
                    lower(#[trigger] bytes@[j])
                } else {
                    bytes@[j]
                }) == word@[j],
        decreases bytes@.len() - i,
    {
        let b = bytes[i];
        let folded = if fold && 65 <= b && b <= 90 {
            b + 32
        } else {
            b
        };
        if folded != word[i] {
            proof {
                if fold {
                    assert(bytes@.map_values(|b: u8| lower(b))[i as int] != word@[i as int]);
                }
            }
            return false;
        }
        i = i + 1;
    }
    proof {
        if fold {
            assert(bytes@.map_values(|b: u8| lower(b)) =~= word@);
        } else {
            assert(bytes@ =~= word@);
        }
    }
    true
}

impl UnifiedToggle {
    /// Reads a setting from its text.
    pub fn from_bytes(bytes: &[u8]) -> (toggle: Option<UnifiedToggle>)
        ensures
            toggle == toggle_of(bytes@),
    {
        let default: [u8; 7] = [100, 101, 102, 97, 117, 108, 116];
        let yes: [u8; 4] = [116, 114, 117, 101];
        let no: [u8; 5] = [102, 97, 108, 115, 101];
        proof {
            assert(default@ =~= word_default());
            assert(yes@ =~= word_true());
            assert(no@ =~= word_false());
        }
        if is_word(bytes, default.as_slice(), true) {
            Some(UnifiedToggle::Default)
        } else if is_word(bytes, yes.as_slice(), false) {
            Some(UnifiedToggle::Forced(true))
        } else if is_word(bytes, no.as_slice(), false) {
            Some(UnifiedToggle::Forced(false))
        } else {
            None
        }
    }

    /// Whether a device is to be treated as sharing its memory with the
    /// host, where the device itself says `probed`.
    pub fn resolve(self, probed: bool) -> (unified: bool)
        ensures
            unified == match self {
                UnifiedToggle::Default => probed,
                UnifiedToggle::Forced(forced) => forced,
            },
    {
        match self {
            UnifiedToggle::Default => probed,
            UnifiedToggle::Forced(forced) => forced,
        }
    }
}

} // verus!

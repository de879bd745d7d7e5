//! The ring buffer variants by name, as a caller selects one.
use vstd::prelude::*;
use vstd::string::StringSliceAdditionalSpecFns;

verus! {

/// A variant together with the way it is driven: `S` for one thread, `M` for
/// a producer thread and a consumer thread.
#[derive(Debug, Clone, Copy, PartialEq, Eq)]
pub enum RingBufType {
    /// The baseline, indexed by remainder.
    R0S,
    /// The baseline, indexed by bit mask.
    R1S,
    /// The lock-free variant, both handles on one thread.
    R2S,
    /// The lock-free variant, one thread for each handle.
    R2M,
    /// The cache-friendly variant, both handles on one thread.
    R3S,
    /// The cache-friendly variant, one thread for each handle.
    R3M,
}

/// The lower-case form of an ASCII letter; any other byte is left as it is.
pub open spec fn lower(b: u8) -> u8 {
    if 65 <= b <= 90 {
        (b + 32) as u8
    } else {
        b
    }
}

/// Two texts are the same but for the case of ASCII letters.
pub open spec fn same_ignoring_case(a: Seq<u8>, b: Seq<u8>) -> bool {
    &&& a.len() == b.len()
    &&& forall|i: int| 0 <= i < a.len() ==> lower(a[i]) == lower(b[i])
}

/// The name of a variant.
pub open spec fn name_of(v: RingBufType) -> &'static str {
    match v {
        RingBufType::R0S => "R0S",
        RingBufType::R1S => "R1S",
        RingBufType::R2S => "R2S",
        RingBufType::R2M => "R2M",
        RingBufType::R3S => "R3S",
        RingBufType::R3M => "R3M",
    }
}

/// The variant that a text names, whatever the case of its letters.
pub open spec fn variant_of(text: Seq<u8>) -> Option<RingBufType> {
    if same_ignoring_case(text, name_of(RingBufType::R0S).spec_bytes()) {
        Some(RingBufType::R0S)
    } else if same_ignoring_case(text, name_of(RingBufType::R1S).spec_bytes()) {
        Some(RingBufType::R1S)
    } else if same_ignoring_case(text, name_of(RingBufType::R2S).spec_bytes()) {
        Some(RingBufType::R2S)
    } else if same_ignoring_case(text, name_of(RingBufType::R2M).spec_bytes()) {
        Some(RingBufType::R2M)
    } else if same_ignoring_case(text, name_of(RingBufType::R3S).spec_bytes()) {
        Some(RingBufType::R3S)
    } else if same_ignoring_case(text, name_of(RingBufType::R3M).spec_bytes()) {
        Some(RingBufType::R3M)
    } else {
        None
    }
}

/// Turns an ASCII capital into its small letter.
fn to_lower(b: u8) -> (l: u8)
    ensures
        l == lower(b),
{
    if 65 <= b && b <= 90 {
        b + 32
    } else {
        b
    }
}

/// Compares two texts without regard to the case of ASCII letters.
pub fn eq_ignore_case(a: &[u8], b: &[u8]) -> (same: bool)
    ensures
        same == same_ignoring_case(a@, b@),
{
    if a.len() != b.len() {
        return false;
    }
    let mut i: usize = 0;
    while i < a.len()
        invariant
            i <= a.len(),
            a.len() == b.len(),
            forall|j: int| 0 <= j < i ==> lower(a[j]) == lower(b[j]),
        decreases a.len() - i,
    {
        if to_lower(a[i]) != to_lower(b[i]) {
            return false;
        }
        i += 1;
    }
    true
}

impl RingBufType {
    /// Every variant, in the order in which they are listed.
    pub fn variants() -> (all: [RingBufType; 6])
        ensures
            all@ == seq![
                RingBufType::R0S,
                RingBufType::R1S,
                RingBufType::R2S,
                RingBufType::R2M,
                RingBufType::R3S,
                RingBufType::R3M,
            ],
    {
        [
            RingBufType::R0S,
            RingBufType::R1S,
            RingBufType::R2S,
            RingBufType::R2M,
            RingBufType::R3S,
            RingBufType::R3M,
        ]
    }

    /// The name of the variant.
    pub fn name(&self) -> (text: &'static str)
        ensures
            text == name_of(*self),
    {
        match self {
            RingBufType::R0S => "R0S",
            RingBufType::R1S => "R1S",
            RingBufType::R2S => "R2S",
            RingBufType::R2M => "R2M",
            RingBufType::R3S => "R3S",
            RingBufType::R3M => "R3M",
        }
    }

    /// The variant that `name` names, whatever the case of its letters, or
    /// `None` if it names none.
    pub fn from_name(name: &str) -> (v: Option<RingBufType>)
        ensures
            v == variant_of(name.spec_bytes()),
    {
        let text = name.as_bytes();
        let all = RingBufType::variants();
        let mut i: usize = 0;
        while i < 6
            invariant
                i <= 6,
                text@ == name.spec_bytes(),
                all@ == seq![
                    RingBufType::R0S,
                    RingBufType::R1S,
                    RingBufType::R2S,
                    RingBufType::R2M,
                    RingBufType::R3S,
                    RingBufType::R3M,
                ],
                forall|j: int|
                    0 <= j < i ==> !same_ignoring_case(text@, name_of(#[trigger] all@[j]).spec_bytes()),
            decreases 6 - i,
        {
            let candidate = all[i];
            if eq_ignore_case(text, candidate.name().as_bytes()) {
                return Some(candidate);
            }
            i += 1;
        }
        None
    }
}

} // verus!

//! Choosing the pair of processor cores that the producer and the consumer
//! are pinned to: either the last two cores that the process may run on, or
//! two cores named in a text of the form `3,5`.
use vstd::prelude::*;
use vstd::string::{StringExecFns, StringSliceAdditionalSpecFns};
use crate::text::{decimal_digits, decimal_text};

verus! {

/// The core for the producer thread and the core for the consumer thread.
#[derive(Debug, Clone, Copy, PartialEq, Eq)]
pub struct CorePair {
    pub producer: usize,
    pub consumer: usize,
}

/// Why a text is not a number.
#[derive(Debug, Clone, Copy, PartialEq, Eq)]
pub enum NumberError {
    /// The text is empty.
    Empty,
    /// A character is not a decimal digit.
    InvalidDigit,
    /// The digits make a number that does not fit a `usize`.
    TooLarge,
}

/// Why no pair of cores was chosen.
#[derive(Debug, Clone, Copy, PartialEq, Eq)]
pub enum CorePairError {
    /// The text does not consist of two fields separated by one comma.
    ExpectTwoNumbers,
    /// A field is not a number.
    Number(NumberError),
    /// The process may not run on the core with this number.
    NotFound(usize),
    /// The system did not say which cores the process may run on.
    Unavailable,
}

/// The text that names a pair: `(producer,consumer)`.
pub open spec fn pair_text(pair: CorePair) -> Seq<char> {
    seq!['('] + decimal_digits(pair.producer as nat) + seq![','] + decimal_digits(
        pair.consumer as nat,
    ) + seq![')']
}

/// The message for each reason why a text is not a number.
pub open spec fn number_message(e: NumberError) -> Seq<char> {
    match e {
        NumberError::Empty => "cannot parse integer from empty string"@,
        NumberError::InvalidDigit => "invalid digit found in string"@,
        NumberError::TooLarge => "number too large to fit in target type"@,
    }
}

/// The message for each reason why no pair was chosen.
pub open spec fn pair_message(e: CorePairError) -> Seq<char> {
    match e {
        CorePairError::ExpectTwoNumbers => "expect 2 number"@,
        CorePairError::Number(n) => number_message(n),
        CorePairError::NotFound(id) => "core id "@ + decimal_digits(id as nat) + " not found"@,
        CorePairError::Unavailable => "core ids not available"@,
    }
}

impl NumberError {
    /// Says in words why the text is not a number.
    pub fn message(&self) -> (text: String)
        ensures
            text@ == number_message(*self),
    {
        match self {
            NumberError::Empty => String::from_str("cannot parse integer from empty string"),
            NumberError::InvalidDigit => String::from_str("invalid digit found in string"),
            NumberError::TooLarge => String::from_str("number too large to fit in target type"),
        }
    }
}

impl CorePairError {
    /// Says in words why no pair was chosen.
    pub fn message(&self) -> (text: String)
        ensures
            text@ == pair_message(*self),
    {
        match self {
            CorePairError::ExpectTwoNumbers => String::from_str("expect 2 number"),
            CorePairError::Number(n) => n.message(),
            CorePairError::NotFound(id) => {
                let mut text = String::from_str("core id ");
                let number = decimal_text(*id);
                text.append(number.as_str());
                text.append(" not found");
                text
            },
            CorePairError::Unavailable => String::from_str("core ids not available"),
        }
    }
}

/// `b` is the character of a decimal digit.
pub open spec fn is_digit(b: u8) -> bool {
    48 <= b <= 57
}

/// Reads decimal digits from left to right, starting with the value `acc` of
/// the digits read before. The first character that is not a digit, or the
/// first digit with which the value outgrows a `usize`, ends the reading.
pub open spec fn scan_digits(digits: Seq<u8>, acc: nat) -> Result<usize, NumberError>
    decreases digits.len(),
{
    if digits.len() == 0 {
        Ok(acc as usize)
    } else if !is_digit(digits[0]) {
        Err(NumberError::InvalidDigit)
    } else if acc * 10 + (digits[0] - 48) > usize::MAX {
        Err(NumberError::TooLarge)
    } else {
        scan_digits(digits.skip(1), (acc * 10 + (digits[0] - 48)) as nat)
    }
}

/// The number that a text stands for: decimal digits, which one `+` may
/// precede.
pub open spec fn number_of(text: Seq<u8>) -> Result<usize, NumberError> {
    if text.len() == 0 {
        Err(NumberError::Empty)
    } else if text.len() > 1 && text[0] == 43 {
        scan_digits(text.skip(1), 0)
    } else {
        scan_digits(text, 0)
    }
}

/// The position of the first comma in `text`, or the length of `text` if it
/// holds none.
pub open spec fn first_comma(text: Seq<u8>) -> int
    decreases text.len(),
{
    if text.len() == 0 {
        0
    } else if text[0] == 44 {
        0
    } else {
        1 + first_comma(text.skip(1))
    }
}

/// The two numbers that a text of the form `producer,consumer` names.
pub open spec fn numbers_of(text: Seq<u8>) -> Result<(usize, usize), CorePairError> {
    let at = first_comma(text);
    if at >= text.len() || first_comma(text.skip(at + 1)) < text.len() - (at + 1) {
        Err(CorePairError::ExpectTwoNumbers)
    } else {
        match number_of(text.take(at)) {
            Err(e) => Err(CorePairError::Number(e)),
            Ok(producer) => match number_of(text.skip(at + 1)) {
                Err(e) => Err(CorePairError::Number(e)),
                Ok(consumer) => Ok((producer, consumer)),
            },
        }
    }
}

/// The pair of the two cores named, if the process may run on both. A
/// missing consumer core is reported before a missing producer core.
pub open spec fn selection_of(core_ids: Seq<usize>, producer: usize, consumer: usize) -> Result<
    CorePair,
    CorePairError,
> {
    if !core_ids.contains(consumer) {
        Err(CorePairError::NotFound(consumer))
    } else if !core_ids.contains(producer) {
        Err(CorePairError::NotFound(producer))
    } else {
        Ok(CorePair { producer, consumer })
    }
}

/// Reads a number as `number_of` defines it.
pub fn parse_number(text: &[u8]) -> (r: Result<usize, NumberError>)
    ensures
        r == number_of(text@),
{
    if text.len() == 0 {
        return Err(NumberError::Empty);
    }
    let mut i: usize = if text.len() > 1 && text[0] == 43 {
        1
    } else {
        0
    };
    let mut acc: usize = 0;
    assert(text@.skip(0) =~= text@);
    while i < text.len()
        invariant
            i <= text.len(),
            number_of(text@) == scan_digits(text@.skip(i as int), acc as nat),
        decreases text.len() - i,
    {
        let b = text[i];
        assert(text@.skip(i as int)[0] == b);
        assert(text@.skip(i as int).skip(1) =~= text@.skip(i + 1));
        if b < 48 || b > 57 {
            return Err(NumberError::InvalidDigit);
        }
        let digit: usize = (b - 48) as usize;
        let next = match acc.checked_mul(10) {
            None => None,
            Some(tens) => tens.checked_add(digit),
        };
        match next {
            None => {
                return Err(NumberError::TooLarge);
            },
            Some(value) => {
                acc = value;
            },
        }
        i += 1;
    }
    Ok(acc)
}

/// Finds the first comma in `text` at or behind position `from`.
fn find_comma(text: &[u8], from: usize) -> (at: usize)
    requires
        from <= text.len(),
    ensures
        at == from + first_comma(text@.skip(from as int)),
        from <= at <= text.len(),
{
    let mut at: usize = from;
    assert(text@.skip(from as int).skip(0) =~= text@.skip(from as int));
    while at < text.len() && text[at] != 44
        invariant
            from <= at <= text.len(),
            first_comma(text@.skip(from as int)) == (at - from) + first_comma(
                text@.skip(at as int),
            ),
        decreases text.len() - at,
    {
        assert(text@.skip(at as int)[0] == text[at as int]);
        assert(text@.skip(at as int).skip(1) =~= text@.skip(at + 1));
        at += 1;
    }
    proof {
        if at < text.len() {
            assert(text@.skip(at as int)[0] == text[at as int]);
        }
    }
    at
}

/// Reads the two numbers of a text of the form `producer,consumer`.
pub fn parse_numbers(text: &[u8]) -> (r: Result<(usize, usize), CorePairError>)
    ensures
        r == numbers_of(text@),
{
    let at = find_comma(text, 0);
    assert(text@.skip(0) =~= text@);
    if at >= text.len() {
        return Err(CorePairError::ExpectTwoNumbers);
    }
    let second = find_comma(text, at + 1);
    if second < text.len() {
        return Err(CorePairError::ExpectTwoNumbers);
    }
    let first_field = vstd::slice::slice_subrange(text, 0, at);
    let second_field = vstd::slice::slice_subrange(text, at + 1, text.len());
    assert(first_field@ =~= text@.take(at as int));
    assert(second_field@ =~= text@.skip(at + 1));
    let producer = match parse_number(first_field) {
        Err(e) => {
            return Err(CorePairError::Number(e));
        },
        Ok(n) => n,
    };
    match parse_number(second_field) {
        Err(e) => Err(CorePairError::Number(e)),
        Ok(consumer) => Ok((producer, consumer)),
    }
}

/// Tests whether `id` is among `core_ids`.
fn has_core(core_ids: &Vec<usize>, id: usize) -> (found: bool)
    ensures
        found == core_ids@.contains(id),
{
    let mut i: usize = 0;
    while i < core_ids.len()
        invariant
            i <= core_ids.len(),
            forall|j: int| 0 <= j < i ==> core_ids[j] != id,
        decreases core_ids.len() - i,
    {
        if core_ids[i] == id {
            return true;
        }
        i += 1;
    }
    false
}

impl CorePair {
    /// Writes the pair as `(producer,consumer)`.
    pub fn to_text(&self) -> (text: String)
        ensures
            text@ == pair_text(*self),
    {
        proof {
            reveal_strlit("(");
            reveal_strlit(",");
            reveal_strlit(")");
        }
        let mut text = String::from_str("(");
        let producer = decimal_text(self.producer);
        text.append(producer.as_str());
        text.append(",");
        let consumer = decimal_text(self.consumer);
        text.append(consumer.as_str());
        text.append(")");
        assert(text@ =~= pair_text(*self));
        text
    }

    /// Pairs the two cores named, if both are among `core_ids`.
    pub fn select(core_ids: &Vec<usize>, producer: usize, consumer: usize) -> (r: Result<
        CorePair,
        CorePairError,
    >)
        ensures
            r == selection_of(core_ids@, producer, consumer),
    {
        if !has_core(core_ids, consumer) {
            Err(CorePairError::NotFound(consumer))
        } else if !has_core(core_ids, producer) {
            Err(CorePairError::NotFound(producer))
        } else {
            Ok(CorePair { producer, consumer })
        }
    }

    /// Pairs the last of `core_ids`, for the producer, with the one before
    /// it, for the consumer.
    pub fn last_two(core_ids: &Vec<usize>) -> (r: Option<CorePair>)
        ensures
            core_ids.len() < 2 ==> r is None,
            core_ids.len() >= 2 ==> r == Some(
                CorePair {
                    producer: core_ids[core_ids.len() - 1],
                    consumer: core_ids[core_ids.len() - 2],
                },
            ),
    {
        let n = core_ids.len();
        if n < 2 {
            None
        } else {
            Some(CorePair { producer: core_ids[n - 1], consumer: core_ids[n - 2] })
        }
    }

    /// Reads a pair from a text of the form `producer,consumer` and checks
    /// both cores against `core_ids`.
    pub fn parse(s: &str, core_ids: &Vec<usize>) -> (r: Result<CorePair, CorePairError>)
        ensures
            r == match numbers_of(s.spec_bytes()) {
                Err(e) => Err(e),
                Ok(pair) => selection_of(core_ids@, pair.0, pair.1),
            },
    {
        match parse_numbers(s.as_bytes()) {
            Err(e) => Err(e),
            Ok(pair) => CorePair::select(core_ids, pair.0, pair.1),
        }
    }

    /// Reads a pair from a text of the form `producer,consumer` and checks
    /// both cores against those that the process may run on. The text is
    /// read first: a text that names no two numbers is refused whatever the
    /// system says.
    pub fn from_str(s: &str) -> (r: Result<CorePair, CorePairError>)
        ensures
            match numbers_of(s.spec_bytes()) {
                Err(e) => r == Err::<CorePair, CorePairError>(e),
                Ok(pair) => r == Err::<CorePair, CorePairError>(CorePairError::Unavailable)
                    || exists|core_ids: Seq<usize>| r == selection_of(core_ids, pair.0, pair.1),
            },
    {
        let pair = match parse_numbers(s.as_bytes()) {
            Err(e) => {
                return Err(e);
            },
            Ok(pair) => pair,
        };
        match available_core_ids() {
            None => Err(CorePairError::Unavailable),
            Some(core_ids) => CorePair::select(&core_ids, pair.0, pair.1),
        }
    }

    /// The last two cores that the process may run on: the last for the
    /// producer, the one before it for the consumer. `None` when the system
    /// names fewer than two.
    pub fn available() -> (r: Option<CorePair>)
        ensures
            r matches Some(pair) ==> pair.consumer < pair.producer,
    {
        match available_core_ids() {
            None => None,
            Some(core_ids) => CorePair::last_two(&core_ids),
        }
    }
}

/// Calls `core_affinity::get_core_ids`, which asks the system on which cores
/// the current thread may run, and hands back the number of each core, in
/// the order given. Which cores are named depends on the machine and the
/// moment. On every system that it knows, the outside function walks the
/// core numbers upwards and keeps those that are allowed, so the contract
/// claims that the numbers come in strictly rising order, and no more.
#[verifier::external_body]
fn available_core_ids() -> (core_ids: Option<Vec<usize>>)
    ensures
        core_ids matches Some(ids) ==> forall|i: int, j: int|
            0 <= i < j < ids.len() ==> ids[i] < ids[j],
{
    core_affinity::get_core_ids().map(|ids| ids.iter().map(|core| core.id).collect())
}

} // verus!

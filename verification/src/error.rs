//! The ways a decode or a store write can fail.

use vstd::prelude::*;

verus! {

/// The three fields of an index document that the decoder knows.
#[derive(Debug, Clone, Copy, PartialEq, Eq, Structural)]
pub enum Field {
    ReportingEntityName,
    ReportingEntityType,
    ReportingStructure,
}

/// The key under which an index document holds a field.
pub open spec fn field_name(field: Field) -> Seq<char> {
    match field {
        Field::ReportingEntityName => "reporting_entity_name"@,
        Field::ReportingEntityType => "reporting_entity_type"@,
        Field::ReportingStructure => "reporting_structure"@,
    }
}

impl Field {
    pub fn name(self) -> (name: &'static str)
        ensures
            name@ == field_name(self),
    {
        match self {
            Field::ReportingEntityName => "reporting_entity_name",
            Field::ReportingEntityType => "reporting_entity_type",
            Field::ReportingStructure => "reporting_structure",
        }
    }
}

/// Input that does not have the expected shape. Always fatal to the decode
/// that met it.
#[derive(Debug, PartialEq, Eq)]
pub enum DecodeError {
    /// A required field was absent when the object ended.
    MissingField(Field),
    /// A field occurred a second time.
    DuplicateField(Field),
    /// A field held a value of another kind than its shape asks for.
    TypeMismatch(Field),
    /// The bytes are no well-formed value of the expected shape; the text
    /// is what the reader of the bytes said of them.
    Malformed(String),
}

/// A write that the metadata store did not take.
#[derive(Debug, PartialEq, Eq)]
pub enum StoreError {
    /// The table already holds as many records as identifiers can number.
    IdsExhausted,
    /// The backend refused the write; the text is its own message.
    Backend(String),
}

/// The single error that an ingestion ends with.
#[derive(Debug, PartialEq, Eq)]
pub enum IngestError {
    /// The producer met input of the wrong shape.
    Decode(DecodeError),
    /// The consumer could not write to the metadata store.
    Store(StoreError),
    /// The element stream ended before the entity's name and type were known.
    NoMetadata,
    /// More reporting structures arrived ahead of the entity's name and
    /// type than the consumer was told to hold.
    MetadataLate,
    /// A count in the summary would no longer fit its integer.
    CountOverflow,
}

/// How many elements stand at the head of an array before the first one
/// that failed to decode.
pub open spec fn decodable_prefix<T>(elements: Seq<Result<T, DecodeError>>) -> nat
    decreases elements.len(),
{
    if elements.len() == 0 || elements[0] is Err {
        0
    } else {
        1 + decodable_prefix(elements.skip(1))
    }
}

/// The decodable prefix is the one index up to which every element
/// decoded and at which the array ends or an element failed.
pub proof fn lemma_decodable_prefix<T>(elements: Seq<Result<T, DecodeError>>, d: nat)
    requires
        d <= elements.len(),
        forall|i: int| 0 <= i < d ==> elements[i] is Ok,
        d == elements.len() || elements[d as int] is Err,
    ensures
        decodable_prefix(elements) == d,
    decreases d,
{
    if d > 0 {
        let rest = elements.skip(1);
        assert forall|i: int| 0 <= i < d - 1 implies rest[i] is Ok by {
            assert(rest[i] == elements[i + 1]);
        }
        lemma_decodable_prefix(rest, (d - 1) as nat);
    }
}

/// The decodable prefix is no longer than the array, every element in
/// it decoded, and the element behind it, if there is one, did not.
pub proof fn lemma_decodable_prefix_bounds<T>(elements: Seq<Result<T, DecodeError>>)
    ensures
        decodable_prefix(elements) <= elements.len(),
        forall|i: int| 0 <= i < decodable_prefix(elements) ==> (#[trigger] elements[i]) is Ok,
        decodable_prefix(elements) < elements.len() ==> elements[decodable_prefix(
            elements,
        ) as int] is Err,
    decreases elements.len(),
{
    if elements.len() > 0 && elements[0] is Ok {
        let rest = elements.skip(1);
        lemma_decodable_prefix_bounds(rest);
        assert forall|i: int| 0 <= i < decodable_prefix(elements) implies (
        #[trigger] elements[i]) is Ok by {
            if i > 0 {
                assert(elements[i] == rest[i - 1]);
            }
        }
        if decodable_prefix(elements) < elements.len() {
            assert(elements[decodable_prefix(elements) as int] == rest[decodable_prefix(rest) as int]);
        }
    }
}

/// Where the first `n` elements all decoded, the decodable prefix is at
/// least `n` long.
pub proof fn lemma_decodable_prefix_at_least<T>(elements: Seq<Result<T, DecodeError>>, n: nat)
    requires
        n <= elements.len(),
        forall|i: int| 0 <= i < n ==> elements[i] is Ok,
    ensures
        decodable_prefix(elements) >= n,
    decreases n,
{
    if n > 0 {
        let rest = elements.skip(1);
        assert forall|i: int| 0 <= i < n - 1 implies rest[i] is Ok by {
            assert(rest[i] == elements[i + 1]);
        }
        lemma_decodable_prefix_at_least(rest, (n - 1) as nat);
    }
}

} // verus!

//! The streaming decode of an index document: its array elements go to a
//! channel one by one, and only the scalar fields and a count are kept.

use vstd::prelude::*;
use std::sync::mpsc::SyncSender;
use crate::error::{
    DecodeError, Field, decodable_prefix, field_name, lemma_decodable_prefix, lemma_decodable_prefix_at_least,
    lemma_decodable_prefix_bounds,
};
use crate::index_file_parsing::index_file::{
    AsyncIndexFile, IndexFileMetadata, ProcessingStats, ReportingStructure,
};
use crate::generator::ChannelGenerator;
use crate::sync_array_serde::channel_deserializer::bounded_channel;
use crate::text::same_text;

verus! {

/// `std::sync::mpsc::SyncSender`, the sending half of a bounded channel.
/// Nothing is stated of what it holds.
#[verifier::external_type_specification]
#[verifier::external_body]
#[verifier::reject_recursive_types(T)]
pub struct ExSyncSender<T>(SyncSender<T>);

/// `SyncSender::send`: waits until the channel has room for the item, and
/// says whether the channel took it. It did not if the receiving half is
/// gone; which of the two happens is not this side's to know.
#[verifier::external_body]
pub(crate) fn send_item<T>(sender: &SyncSender<T>, item: T) -> (delivered: bool) {
    sender.send(item).is_ok()
}

/// What forwarding an array ends with when the receiving side takes
/// `accepted` elements and is gone after that: the count of elements
/// delivered, or the error of the first element that failed to decode,
/// if the decode got that far.
pub open spec fn forward_result<T>(elements: Seq<Result<T, DecodeError>>, accepted: nat) -> Result<
    nat,
    DecodeError,
> {
    let decodable = decodable_prefix(elements);
    if accepted < decodable {
        Ok(accepted)
    } else if decodable < elements.len() {
        Err(elements[decodable as int]->Err_0)
    } else {
        Ok(decodable)
    }
}

/// The elements that reach the receiving side when it takes `accepted`
/// elements and is gone after that.
pub open spec fn forwarded<T>(elements: Seq<Result<T, DecodeError>>, accepted: nat) -> Seq<T> {
    let decodable = decodable_prefix(elements);
    let delivered = if accepted < decodable {
        accepted
    } else {
        decodable
    };
    Seq::new(delivered, |i: int| elements[i]->Ok_0)
}

/// One item handed to a channel, and whether the channel took it.
pub struct Sent<T> {
    pub item: T,
    pub taken: bool,
}

/// The items of a list of sends, send by send.
pub open spec fn items<T>(sends: Seq<Sent<T>>) -> Seq<T> {
    sends.map_values(|sent: Sent<T>| sent.item)
}

/// The sends that forwarding an array makes when the receiving side takes
/// `accepted` elements and is gone after that: the elements that reach
/// it, in their order, and behind them the one element that it refused,
/// if the decode got that far. Nothing is sent behind a refused element
/// or behind one that failed to decode.
pub open spec fn sends_of<T>(elements: Seq<Result<T, DecodeError>>, accepted: nat) -> Seq<Sent<T>> {
    let delivered = forwarded(elements, accepted).map_values(
        |item: T| Sent { item, taken: true },
    );
    if accepted < decodable_prefix(elements) {
        delivered.push(Sent { item: elements[accepted as int]->Ok_0, taken: false })
    } else {
        delivered
    }
}

/// How many sends the receiving side took before it refused one: all but
/// the last, if the last was refused; else all.
pub open spec fn taken_before_refusal<T>(sends: Seq<Sent<T>>) -> nat {
    if sends.len() > 0 && !sends.last().taken {
        (sends.len() - 1) as nat
    } else {
        sends.len()
    }
}

/// Order is kept: what reaches the receiving side is a prefix of the
/// array, element for element; and where every element decodes and the
/// receiving side takes them all, it is the whole array.
pub proof fn lemma_forwarded_in_order<T>(elements: Seq<Result<T, DecodeError>>, accepted: nat)
    ensures
        forwarded(elements, accepted).len() <= elements.len(),
        forall|i: int|
            0 <= i < forwarded(elements, accepted).len() ==> elements[i] == Ok::<T, DecodeError>(
                #[trigger] forwarded(elements, accepted)[i],
            ),
        (forall|i: int| 0 <= i < elements.len() ==> elements[i] is Ok) && accepted
            >= elements.len() ==> forwarded(elements, accepted).len() == elements.len()
            && forward_result(elements, accepted) == Ok::<nat, DecodeError>(elements.len()),
{
    lemma_decodable_prefix_bounds(elements);
    if (forall|i: int| 0 <= i < elements.len() ==> elements[i] is Ok) {
        lemma_decodable_prefix(elements, elements.len());
    }
}

/// A receiving side that goes away after `taken` elements ends the decode
/// early and without an error: the count is `taken`, whatever stands in
/// the array behind the element that it refused. This holds where the
/// elements up to that one decode.
pub proof fn lemma_early_exit<T>(elements: Seq<Result<T, DecodeError>>, taken: nat)
    requires
        taken < elements.len(),
        forall|i: int| 0 <= i <= taken ==> elements[i] is Ok,
    ensures
        forward_result(elements, taken) == Ok::<nat, DecodeError>(taken),
        forwarded(elements, taken).len() == taken,
{
    lemma_decodable_prefix_at_least(elements, taken + 1);
}

/// An element that fails to decode ends the decode with its error, once
/// the receiving side has taken every element before it; these elements
/// have reached the receiving side by then.
pub proof fn lemma_malformed_element<T>(
    elements: Seq<Result<T, DecodeError>>,
    position: nat,
    accepted: nat,
)
    requires
        position < elements.len(),
        forall|i: int| 0 <= i < position ==> elements[i] is Ok,
        elements[position as int] is Err,
        accepted >= position,
    ensures
        forward_result(elements, accepted) == Err::<nat, DecodeError>(
            elements[position as int]->Err_0,
        ),
        forwarded(elements, accepted).len() == position,
{
    lemma_decodable_prefix(elements, position);
}

/// How far the hand-over of one array has come: how many elements the
/// receiving side took, and whether it is still there.
pub struct Forwarding {
    num_items: usize,
    open: bool,
}

impl Forwarding {
    /// The number of elements delivered so far.
    pub closed spec fn delivered(&self) -> nat {
        self.num_items as nat
    }

    /// Whether the receiving side took every element handed to it so far.
    pub closed spec fn receiving(&self) -> bool {
        self.open
    }

    /// Whether one more delivery can still be counted.
    pub open spec fn has_room(&self) -> bool {
        self.delivered() < usize::MAX
    }

    /// Whether another element may be handed over.
    pub open spec fn open(&self) -> bool {
        self.receiving() && self.has_room()
    }

    pub fn new() -> (progress: Self)
        ensures
            progress.delivered() == 0,
            progress.receiving(),
    {
        Forwarding { num_items: 0, open: true }
    }

    pub fn num_items(&self) -> (n: usize)
        ensures
            n == self.delivered(),
    {
        self.num_items
    }

    /// Whether the receiving side took every element handed to it so far.
    pub fn is_receiving(&self) -> (receiving: bool)
        ensures
            receiving == self.receiving(),
    {
        self.open
    }

    /// Whether another element may be handed over: the receiving side is
    /// still there and the count has room for it.
    pub fn wants_more(&self) -> (more: bool)
        ensures
            more == self.open(),
    {
        self.open && self.num_items < usize::MAX
    }

    /// Takes note of how the hand-over of one element went. A delivered
    /// element is counted; one that was not delivered ends the hand-over
    /// and is no error. Once the hand-over has ended, or the count is
    /// full, nothing is noted any more.
    pub fn record(&mut self, delivered: bool)
        ensures
            old(self).open() ==> final(self).receiving() == delivered && final(self).delivered()
                == old(self).delivered() + if delivered {
                1nat
            } else {
                0nat
            },
            !old(self).open() ==> *final(self) == *old(self),
    {
        if self.wants_more() {
            if delivered {
                self.num_items = self.num_items + 1;
            } else {
                self.open = false;
            }
        }
    }
}

/// Decodes an array into a channel: every element goes to the channel as
/// soon as it is decoded. The seed keeps the log of what it handed to the
/// channel, send by send.
#[verifier::reject_recursive_types(T)]
pub struct ItemSeed<T> {
    sender: SyncSender<T>,
    sends: Ghost<Seq<Sent<T>>>,
}

/// What a decode of an array returned, with its count as a number: the
/// form in which `forward_result` gives it.
pub open spec fn counted(r: Result<usize, DecodeError>) -> Result<nat, DecodeError> {
    match r {
        Ok(n) => Ok(n as nat),
        Err(e) => Err(e),
    }
}

/// Sends the elements of an array to a channel in their order. Stops at
/// the first element that the channel does not take, which is no error,
/// and at the first element that failed to decode, which is one.
pub fn forward_elements<T>(seed: &mut ItemSeed<T>, elements: Vec<Result<T, DecodeError>>) -> (r:
    Result<usize, DecodeError>)
    ensures
        old(seed).sends().is_prefix_of(final(seed).sends()),
        ({
            let sends = final(seed).sends().skip(old(seed).sends().len() as int);
            let accepted = taken_before_refusal(sends);
            &&& sends == sends_of(elements@, accepted)
            &&& counted(r) == forward_result(elements@, accepted)
        }),
{
    let mut progress = Forwarding::new();
    let ghost all = elements@;
    let ghost sends0 = seed.sends();
    assert(all.len() == elements.len());
    assert(seed.sends().skip(sends0.len() as int) =~= Seq::empty());
    for element in it: elements
        invariant
            it.seq() == all,
            all.len() <= usize::MAX,
            sends0 == old(seed).sends(),
            sends0.is_prefix_of(seed.sends()),
            seed.sends().skip(sends0.len() as int) == Seq::new(
                it.index() as nat,
                |j: int| Sent { item: all[j]->Ok_0, taken: true },
            ),
            progress.delivered() == it.index(),
            progress.receiving(),
            forall|i: int| 0 <= i < it.index() ==> all[i] is Ok,
    {
        let ghost i = it.index() as int;
        let ghost before = seed.sends();
        match element {
            Ok(item) => {
                seed.forward(&mut progress, item);
                proof {
                    assert(seed.sends().skip(sends0.len() as int) =~= before.skip(
                        sends0.len() as int,
                    ).push(seed.sends().last()));
                }
                if !progress.is_receiving() {
                    proof {
                        let sends = seed.sends().skip(sends0.len() as int);
                        lemma_decodable_prefix_at_least(all, (i + 1) as nat);
                        assert(taken_before_refusal(sends) == i);
                        assert(sends =~= sends_of(all, i as nat));
                    }
                    return Ok(progress.num_items());
                }
            },
            Err(e) => {
                proof {
                    let sends = seed.sends().skip(sends0.len() as int);
                    lemma_decodable_prefix(all, i as nat);
                    assert(taken_before_refusal(sends) == i);
                    assert(sends =~= sends_of(all, i as nat));
                }
                return Err(e);
            },
        }
    }
    proof {
        let sends = seed.sends().skip(sends0.len() as int);
        lemma_decodable_prefix(all, all.len());
        assert(taken_before_refusal(sends) == all.len());
        assert(sends =~= sends_of(all, all.len()));
    }
    Ok(progress.num_items())
}

impl<T> ItemSeed<T> {
    /// What was handed to the channel so far, send by send.
    pub closed spec fn sends(&self) -> Seq<Sent<T>> {
        self.sends@
    }

    /// A seed that has sent nothing yet.
    pub fn new(sender: SyncSender<T>) -> (seed: Self)
        ensures
            seed.sends() == Seq::<Sent<T>>::empty(),
    {
        ItemSeed { sender, sends: Ghost(Seq::empty()) }
    }

    /// Hands one item to the channel, once, and says whether the channel
    /// took it.
    pub fn send(&mut self, item: T) -> (taken: bool)
        ensures
            final(self).sends() == old(self).sends().push(Sent { item, taken }),
    {
        let ghost handed = item;
        let taken = send_item(&self.sender, item);
        proof {
            self.sends@ = self.sends@.push(Sent { item: handed, taken });
        }
        taken
    }

    /// Hands one decoded element to the channel and takes note of how that
    /// went: the element is counted if the channel took it, and the
    /// hand-over has ended if not. After the end of the hand-over, or with
    /// a full count, nothing is sent: the element is let go of and nothing
    /// changes.
    pub fn forward(&mut self, progress: &mut Forwarding, item: T)
        ensures
            old(progress).open() ==> {
                &&& final(self).sends() == old(self).sends().push(
                    Sent { item, taken: final(progress).receiving() },
                )
                &&& final(progress).receiving() ==> final(progress).delivered() == old(
                    progress,
                ).delivered() + 1
                &&& !final(progress).receiving() ==> final(progress).delivered() == old(
                    progress,
                ).delivered()
            },
            !old(progress).open() ==> final(self).sends() == old(self).sends() && *final(progress)
                == *old(progress),
    {
        if progress.wants_more() {
            let taken = self.send(item);
            progress.record(taken);
        }
    }

    /// Forwards a whole array, given as the outcome of decoding each of its
    /// elements, and returns how many elements the channel took.
    pub fn deserialize(&mut self, elements: Vec<Result<T, DecodeError>>) -> (r: Result<
        usize,
        DecodeError,
    >)
        ensures
            old(self).sends().is_prefix_of(final(self).sends()),
            ({
                let sends = final(self).sends().skip(old(self).sends().len() as int);
                let accepted = taken_before_refusal(sends);
                &&& sends == sends_of(elements@, accepted)
                &&& counted(r) == forward_result(elements@, accepted)
            }),
    {
        forward_elements(self, elements)
    }
}

/// What an index document may hold under one of its keys.
#[derive(Debug)]
pub enum FieldValue {
    /// A string.
    Text(String),
    /// An array, given as the outcome of decoding each of its elements as
    /// a reporting structure, in the array's order.
    Elements(Vec<Result<ReportingStructure, DecodeError>>),
    /// Any other value.
    Other,
}

/// One key of an index document with the value under it.
#[derive(Debug)]
pub struct DocumentField {
    pub key: String,
    pub value: FieldValue,
}

/// The field that a key of an index document names, if it names one.
pub open spec fn field_of_key(key: Seq<char>) -> Option<Field> {
    if key == "reporting_entity_name"@ {
        Some(Field::ReportingEntityName)
    } else if key == "reporting_entity_type"@ {
        Some(Field::ReportingEntityType)
    } else if key == "reporting_structure"@ {
        Some(Field::ReportingStructure)
    } else {
        None
    }
}

/// Every field is recognized by its own key, and by no other field's.
pub proof fn lemma_field_names(field: Field)
    ensures
        field_of_key(field_name(field)) == Some(field),
{
    reveal_strlit("reporting_entity_name");
    reveal_strlit("reporting_entity_type");
    reveal_strlit("reporting_structure");
    assert("reporting_entity_name"@[17] == 'n');
    assert("reporting_entity_type"@[17] == 't');
    assert("reporting_structure"@.len() != "reporting_entity_name"@.len());
}

/// Tells which field a key names. Any other key is unknown, and what
/// stands under it is passed over.
pub fn recognize(key: &str) -> (field: Option<Field>)
    ensures
        field == field_of_key(key@),
{
    if same_text(key, "reporting_entity_name") {
        Some(Field::ReportingEntityName)
    } else if same_text(key, "reporting_entity_type") {
        Some(Field::ReportingEntityType)
    } else if same_text(key, "reporting_structure") {
        Some(Field::ReportingStructure)
    } else {
        None
    }
}

/// How far the decode of an index document has come.
#[derive(Debug, Clone, Copy, PartialEq, Eq, Structural)]
pub enum DecodePhase {
    /// No known field was seen yet.
    Start,
    /// Some known fields were seen, others are still owed.
    FieldsPartial,
    /// Every required field was seen.
    Done,
}

/// What the decoder of an index document has seen so far.
pub struct DecoderState {
    pub reporting_entity_name: Option<String>,
    pub reporting_entity_type: Option<String>,
    /// The number of reporting structures delivered, once the array was
    /// decoded.
    pub reporting_structure: Option<nat>,
}

/// The state before any field.
pub open spec fn initial_state() -> DecoderState {
    DecoderState {
        reporting_entity_name: None,
        reporting_entity_type: None,
        reporting_structure: None,
    }
}

/// Whether a field was seen already.
pub open spec fn seen(state: DecoderState, field: Field) -> bool {
    match field {
        Field::ReportingEntityName => state.reporting_entity_name is Some,
        Field::ReportingEntityType => state.reporting_entity_type is Some,
        Field::ReportingStructure => state.reporting_structure is Some,
    }
}

/// The phase that a state stands for.
pub open spec fn phase_of(state: DecoderState) -> DecodePhase {
    if state.reporting_entity_name is None && state.reporting_entity_type is None
        && state.reporting_structure is None {
        DecodePhase::Start
    } else if state.reporting_entity_name is Some && state.reporting_entity_type is Some
        && state.reporting_structure is Some {
        DecodePhase::Done
    } else {
        DecodePhase::FieldsPartial
    }
}

/// The state after one more key of the document, or the error that the
/// key ends the decode with. An unknown key changes nothing; a known one
/// that was seen before is a duplicate, whatever stands under it; a
/// value of the wrong kind is a type mismatch; the array is forwarded to a
/// receiving side that takes `accepted` elements.
pub open spec fn accept(state: DecoderState, entry: DocumentField, accepted: nat) -> Result<
    DecoderState,
    DecodeError,
> {
    match field_of_key(entry.key@) {
        None => Ok(state),
        Some(field) => if seen(state, field) {
            Err(DecodeError::DuplicateField(field))
        } else {
            match (field, entry.value) {
                (Field::ReportingEntityName, FieldValue::Text(text)) => Ok(
                    DecoderState { reporting_entity_name: Some(text), ..state },
                ),
                (Field::ReportingEntityType, FieldValue::Text(text)) => Ok(
                    DecoderState { reporting_entity_type: Some(text), ..state },
                ),
                (Field::ReportingStructure, FieldValue::Elements(elements)) => match forward_result(
                    elements@,
                    accepted,
                ) {
                    Ok(n) => Ok(DecoderState { reporting_structure: Some(n), ..state }),
                    Err(e) => Err(e),
                },
                _ => Err(DecodeError::TypeMismatch(field)),
            }
        },
    }
}

/// What the decode returns when the object ends in a state: the summary
/// if every required field was seen, else the first missing field, the
/// array before the name and the name before the type.
pub open spec fn conclude(state: DecoderState) -> Result<AsyncIndexFile, DecodeError> {
    if state.reporting_structure is None {
        Err(DecodeError::MissingField(Field::ReportingStructure))
    } else if state.reporting_entity_name is None {
        Err(DecodeError::MissingField(Field::ReportingEntityName))
    } else if state.reporting_entity_type is None {
        Err(DecodeError::MissingField(Field::ReportingEntityType))
    } else {
        Ok(
            AsyncIndexFile {
                reporting_entity_name: state.reporting_entity_name->Some_0,
                reporting_entity_type: state.reporting_entity_type->Some_0,
                reporting_structure_processing_stats: ProcessingStats {
                    num_reporting_structures: state.reporting_structure->Some_0 as usize,
                },
            },
        )
    }
}

/// What the decode of the rest of a document returns from a state.
pub open spec fn decode_from(state: DecoderState, fields: Seq<DocumentField>, accepted: nat) -> Result<
    AsyncIndexFile,
    DecodeError,
>
    decreases fields.len(),
{
    if fields.len() == 0 {
        conclude(state)
    } else {
        match accept(state, fields[0], accepted) {
            Ok(next) => decode_from(next, fields.skip(1), accepted),
            Err(e) => Err(e),
        }
    }
}

/// What the decode of an index document returns, the document given as
/// its keys in the order in which the bytes hold them, the receiving side
/// of its array taking `accepted` elements.
pub open spec fn decode_index_file(fields: Seq<DocumentField>, accepted: nat) -> Result<
    AsyncIndexFile,
    DecodeError,
> {
    decode_from(initial_state(), fields, accepted)
}

/// A key that names no field changes nothing, wherever in the document it
/// stands and whatever stands under it.
pub proof fn lemma_unknown_field_ignored(
    fields: Seq<DocumentField>,
    position: int,
    entry: DocumentField,
    accepted: nat,
)
    requires
        0 <= position <= fields.len(),
        field_of_key(entry.key@) is None,
    ensures
        decode_index_file(fields.insert(position, entry), accepted) == decode_index_file(
            fields,
            accepted,
        ),
{
    lemma_unknown_field_ignored_from(initial_state(), fields, position, entry, accepted);
}

proof fn lemma_unknown_field_ignored_from(
    state: DecoderState,
    fields: Seq<DocumentField>,
    position: int,
    entry: DocumentField,
    accepted: nat,
)
    requires
        0 <= position <= fields.len(),
        field_of_key(entry.key@) is None,
    ensures
        decode_from(state, fields.insert(position, entry), accepted) == decode_from(
            state,
            fields,
            accepted,
        ),
    decreases position,
{
    let longer = fields.insert(position, entry);
    if position == 0 {
        assert(longer[0] == entry);
        assert(longer.skip(1) =~= fields);
    } else {
        assert(longer[0] == fields[0]);
        assert(longer.skip(1) =~= fields.skip(1).insert(position - 1, entry));
        match accept(state, fields[0], accepted) {
            Ok(next) => {
                lemma_unknown_field_ignored_from(
                    next,
                    fields.skip(1),
                    position - 1,
                    entry,
                    accepted,
                );
            },
            Err(_) => {},
        }
    }
}

/// The three fields of a document may come in any order: the summary is
/// the same.
pub proof fn lemma_field_order(
    name: DocumentField,
    entity_type: DocumentField,
    structure: DocumentField,
    accepted: nat,
)
    requires
        field_of_key(name.key@) == Some(Field::ReportingEntityName),
        field_of_key(entity_type.key@) == Some(Field::ReportingEntityType),
        field_of_key(structure.key@) == Some(Field::ReportingStructure),
        name.value is Text,
        entity_type.value is Text,
        structure.value is Elements,
        forward_result(structure.value->Elements_0@, accepted) is Ok,
    ensures
        ({
            let summary = Ok::<AsyncIndexFile, DecodeError>(
                AsyncIndexFile {
                    reporting_entity_name: name.value->Text_0,
                    reporting_entity_type: entity_type.value->Text_0,
                    reporting_structure_processing_stats: ProcessingStats {
                        num_reporting_structures: forward_result(
                            structure.value->Elements_0@,
                            accepted,
                        )->Ok_0 as usize,
                    },
                },
            );
            &&& decode_index_file(seq![name, entity_type, structure], accepted) == summary
            &&& decode_index_file(seq![name, structure, entity_type], accepted) == summary
            &&& decode_index_file(seq![entity_type, name, structure], accepted) == summary
            &&& decode_index_file(seq![entity_type, structure, name], accepted) == summary
            &&& decode_index_file(seq![structure, name, entity_type], accepted) == summary
            &&& decode_index_file(seq![structure, entity_type, name], accepted) == summary
        }),
{
    lemma_decode_three(name, entity_type, structure, accepted);
    lemma_decode_three(name, structure, entity_type, accepted);
    lemma_decode_three(entity_type, name, structure, accepted);
    lemma_decode_three(entity_type, structure, name, accepted);
    lemma_decode_three(structure, name, entity_type, accepted);
    lemma_decode_three(structure, entity_type, name, accepted);
}

/// The decode of a document of three keys, key by key.
proof fn lemma_decode_three(a: DocumentField, b: DocumentField, c: DocumentField, accepted: nat)
    ensures
        decode_index_file(seq![a, b, c], accepted) == match accept(
            initial_state(),
            a,
            accepted,
        ) {
            Ok(first) => match accept(first, b, accepted) {
                Ok(second) => match accept(second, c, accepted) {
                    Ok(third) => conclude(third),
                    Err(e) => Err(e),
                },
                Err(e) => Err(e),
            },
            Err(e) => Err(e),
        },
{
    let fields = seq![a, b, c];
    assert(fields.skip(1) =~= seq![b, c]);
    assert(fields.skip(1).skip(1) =~= seq![c]);
    assert(fields.skip(1).skip(1).skip(1) =~= Seq::<DocumentField>::empty());
    reveal_with_fuel(decode_from, 4);
}

/// The field-by-field decoder of an index document. Its fields may come
/// in any order.
pub struct IndexFileDecoder {
    reporting_entity_name: Option<String>,
    reporting_entity_type: Option<String>,
    reporting_structure: Option<usize>,
}

impl View for IndexFileDecoder {
    type V = DecoderState;

    closed spec fn view(&self) -> DecoderState {
        DecoderState {
            reporting_entity_name: self.reporting_entity_name,
            reporting_entity_type: self.reporting_entity_type,
            reporting_structure: match self.reporting_structure {
                Some(n) => Some(n as nat),
                None => None,
            },
        }
    }
}

impl IndexFileDecoder {
    pub fn new() -> (decoder: Self)
        ensures
            decoder@ == initial_state(),
    {
        IndexFileDecoder {
            reporting_entity_name: None,
            reporting_entity_type: None,
            reporting_structure: None,
        }
    }

    pub fn phase(&self) -> (phase: DecodePhase)
        ensures
            phase == phase_of(self@),
    {
        let name = self.reporting_entity_name.is_some();
        let entity_type = self.reporting_entity_type.is_some();
        let structure = self.reporting_structure.is_some();
        if !name && !entity_type && !structure {
            DecodePhase::Start
        } else if name && entity_type && structure {
            DecodePhase::Done
        } else {
            DecodePhase::FieldsPartial
        }
    }

    /// Opens a field whose key was just read, before its value is
    /// decoded: a field that was seen before is refused.
    pub fn begin(&self, field: Field) -> (r: Result<(), DecodeError>)
        ensures
            r == if seen(self@, field) {
                Err::<(), DecodeError>(DecodeError::DuplicateField(field))
            } else {
                Ok::<(), DecodeError>(())
            },
    {
        let seen = match field {
            Field::ReportingEntityName => self.reporting_entity_name.is_some(),
            Field::ReportingEntityType => self.reporting_entity_type.is_some(),
            Field::ReportingStructure => self.reporting_structure.is_some(),
        };
        if seen {
            Err(DecodeError::DuplicateField(field))
        } else {
            Ok(())
        }
    }

    /// Stores the entity's name. Returns the metadata if the type is known
    /// already: the name was the last of the two to arrive, and this is
    /// the moment to announce them. A second name is refused.
    pub fn set_reporting_entity_name(&mut self, value: String) -> (r: Result<
        Option<IndexFileMetadata>,
        DecodeError,
    >)
        ensures
            match r {
                Ok(announce) => {
                    &&& !seen(old(self)@, Field::ReportingEntityName)
                    &&& final(self)@ == (DecoderState {
                        reporting_entity_name: Some(value),
                        ..old(self)@
                    })
                    &&& announce == match old(self)@.reporting_entity_type {
                        Some(entity_type) => Some(
                            IndexFileMetadata {
                                reporting_entity_name: value,
                                reporting_entity_type: entity_type,
                            },
                        ),
                        None => None,
                    }
                },
                Err(e) => {
                    &&& seen(old(self)@, Field::ReportingEntityName)
                    &&& e == DecodeError::DuplicateField(Field::ReportingEntityName)
                    &&& final(self)@ == old(self)@
                },
            },
    {
        if self.reporting_entity_name.is_some() {
            return Err(DecodeError::DuplicateField(Field::ReportingEntityName));
        }
        let announce = match &self.reporting_entity_type {
            Some(entity_type) => Some(
                IndexFileMetadata {
                    reporting_entity_name: value.clone(),
                    reporting_entity_type: entity_type.clone(),
                },
            ),
            None => None,
        };
        self.reporting_entity_name = Some(value);
        Ok(announce)
    }

    /// Stores the entity's type. Returns the metadata if the name is known
    /// already. A second type is refused.
    pub fn set_reporting_entity_type(&mut self, value: String) -> (r: Result<
        Option<IndexFileMetadata>,
        DecodeError,
    >)
        ensures
            match r {
                Ok(announce) => {
                    &&& !seen(old(self)@, Field::ReportingEntityType)
                    &&& final(self)@ == (DecoderState {
                        reporting_entity_type: Some(value),
                        ..old(self)@
                    })
                    &&& announce == match old(self)@.reporting_entity_name {
                        Some(name) => Some(
                            IndexFileMetadata {
                                reporting_entity_name: name,
                                reporting_entity_type: value,
                            },
                        ),
                        None => None,
                    }
                },
                Err(e) => {
                    &&& seen(old(self)@, Field::ReportingEntityType)
                    &&& e == DecodeError::DuplicateField(Field::ReportingEntityType)
                    &&& final(self)@ == old(self)@
                },
            },
    {
        if self.reporting_entity_type.is_some() {
            return Err(DecodeError::DuplicateField(Field::ReportingEntityType));
        }
        let announce = match &self.reporting_entity_name {
            Some(name) => Some(
                IndexFileMetadata {
                    reporting_entity_name: name.clone(),
                    reporting_entity_type: value.clone(),
                },
            ),
            None => None,
        };
        self.reporting_entity_type = Some(value);
        Ok(announce)
    }

    /// Stores how many reporting structures the consumer took. A second
    /// count is refused.
    pub fn set_reporting_structure(&mut self, num_reporting_structures: usize) -> (r: Result<
        (),
        DecodeError,
    >)
        ensures
            match r {
                Ok(()) => {
                    &&& !seen(old(self)@, Field::ReportingStructure)
                    &&& final(self)@ == (DecoderState {
                        reporting_structure: Some(num_reporting_structures as nat),
                        ..old(self)@
                    })
                },
                Err(e) => {
                    &&& seen(old(self)@, Field::ReportingStructure)
                    &&& e == DecodeError::DuplicateField(Field::ReportingStructure)
                    &&& final(self)@ == old(self)@
                },
            },
    {
        if self.reporting_structure.is_some() {
            return Err(DecodeError::DuplicateField(Field::ReportingStructure));
        }
        self.reporting_structure = Some(num_reporting_structures);
        Ok(())
    }

    /// Ends the decode when the object has ended.
    pub fn finish(self) -> (r: Result<AsyncIndexFile, DecodeError>)
        ensures
            r == conclude(self@),
            r is Ok <==> phase_of(self@) == DecodePhase::Done,
    {
        let num_reporting_structures = match self.reporting_structure {
            Some(n) => n,
            None => {
                return Err(DecodeError::MissingField(Field::ReportingStructure));
            },
        };
        let reporting_entity_name = match self.reporting_entity_name {
            Some(name) => name,
            None => {
                return Err(DecodeError::MissingField(Field::ReportingEntityName));
            },
        };
        let reporting_entity_type = match self.reporting_entity_type {
            Some(entity_type) => entity_type,
            None => {
                return Err(DecodeError::MissingField(Field::ReportingEntityType));
            },
        };
        Ok(
            AsyncIndexFile {
                reporting_entity_name,
                reporting_entity_type,
                reporting_structure_processing_stats: ProcessingStats { num_reporting_structures },
            },
        )
    }
}

/// The metadata that one more key of the document makes known: the
/// entity's name and type, at the key that brings the second of the two.
pub open spec fn announced_at(state: DecoderState, entry: DocumentField) -> Seq<IndexFileMetadata> {
    match (field_of_key(entry.key@), entry.value) {
        (Some(Field::ReportingEntityName), FieldValue::Text(text)) => {
            if state.reporting_entity_name is None && state.reporting_entity_type is Some {
                seq![
                    IndexFileMetadata {
                        reporting_entity_name: text,
                        reporting_entity_type: state.reporting_entity_type->Some_0,
                    },
                ]
            } else {
                Seq::empty()
            }
        },
        (Some(Field::ReportingEntityType), FieldValue::Text(text)) => {
            if state.reporting_entity_type is None && state.reporting_entity_name is Some {
                seq![
                    IndexFileMetadata {
                        reporting_entity_name: state.reporting_entity_name->Some_0,
                        reporting_entity_type: text,
                    },
                ]
            } else {
                Seq::empty()
            }
        },
        _ => Seq::empty(),
    }
}

/// The sends that one more key of the document causes: those of its
/// array, where the key is the array's and stands for the first time.
pub open spec fn sent_at(state: DecoderState, entry: DocumentField, accepted: nat) -> Seq<
    Sent<ReportingStructure>,
> {
    match (field_of_key(entry.key@), entry.value) {
        (Some(Field::ReportingStructure), FieldValue::Elements(elements)) => {
            if state.reporting_structure is None {
                sends_of(elements@, accepted)
            } else {
                Seq::empty()
            }
        },
        _ => Seq::empty(),
    }
}

/// The metadata that the decode of the rest of a document announces from
/// a state, in the order of the announcements.
pub open spec fn announced_from(state: DecoderState, fields: Seq<DocumentField>, accepted: nat) -> Seq<
    IndexFileMetadata,
>
    decreases fields.len(),
{
    if fields.len() == 0 {
        Seq::empty()
    } else {
        match accept(state, fields[0], accepted) {
            Ok(next) => announced_at(state, fields[0]) + announced_from(
                next,
                fields.skip(1),
                accepted,
            ),
            Err(_) => Seq::empty(),
        }
    }
}

/// The sends of reporting structures that the decode of the rest of a
/// document makes from a state, send by send.
pub open spec fn sent_from(state: DecoderState, fields: Seq<DocumentField>, accepted: nat) -> Seq<
    Sent<ReportingStructure>,
>
    decreases fields.len(),
{
    if fields.len() == 0 {
        Seq::empty()
    } else {
        match accept(state, fields[0], accepted) {
            Ok(next) => sent_at(state, fields[0], accepted) + sent_from(
                next,
                fields.skip(1),
                accepted,
            ),
            Err(_) => sent_at(state, fields[0], accepted),
        }
    }
}

/// For every piece of metadata that the decode of the rest of a document
/// announces from a state: how many reporting structures were handed to
/// their channel before it, `sent` of them before the rest of the
/// document began.
pub open spec fn announced_behind_from(
    state: DecoderState,
    fields: Seq<DocumentField>,
    accepted: nat,
    sent: nat,
) -> Seq<nat>
    decreases fields.len(),
{
    if fields.len() == 0 {
        Seq::empty()
    } else {
        match accept(state, fields[0], accepted) {
            Ok(next) => announced_at(state, fields[0]).map_values(|m: IndexFileMetadata| sent)
                + announced_behind_from(
                next,
                fields.skip(1),
                accepted,
                sent + sent_at(state, fields[0], accepted).len(),
            ),
            Err(_) => Seq::empty(),
        }
    }
}

/// Where both scalar fields stand ahead of the array, the metadata goes
/// out before the first reporting structure: once, with nothing sent
/// before it.
pub proof fn lemma_metadata_first(
    name: DocumentField,
    entity_type: DocumentField,
    structure: DocumentField,
    accepted: nat,
)
    requires
        field_of_key(name.key@) == Some(Field::ReportingEntityName),
        field_of_key(entity_type.key@) == Some(Field::ReportingEntityType),
        field_of_key(structure.key@) == Some(Field::ReportingStructure),
        name.value is Text,
        entity_type.value is Text,
        structure.value is Elements,
    ensures
        announced_behind_from(
            initial_state(),
            seq![name, entity_type, structure],
            accepted,
            0,
        ) == seq![0nat],
        announced_behind_from(
            initial_state(),
            seq![entity_type, name, structure],
            accepted,
            0,
        ) == seq![0nat],
        announced_from(initial_state(), seq![name, entity_type, structure], accepted) == seq![
            IndexFileMetadata {
                reporting_entity_name: name.value->Text_0,
                reporting_entity_type: entity_type.value->Text_0,
            },
        ],
{
    let first = seq![name, entity_type, structure];
    let second = seq![entity_type, name, structure];
    assert(first.skip(1) =~= seq![entity_type, structure]);
    assert(first.skip(1).skip(1) =~= seq![structure]);
    assert(first.skip(1).skip(1).skip(1) =~= Seq::<DocumentField>::empty());
    assert(second.skip(1) =~= seq![name, structure]);
    assert(second.skip(1).skip(1) =~= seq![structure]);
    assert(second.skip(1).skip(1).skip(1) =~= Seq::<DocumentField>::empty());
    reveal_with_fuel(announced_behind_from, 4);
    reveal_with_fuel(announced_from, 4);
    assert(announced_behind_from(initial_state(), first, accepted, 0) =~= seq![0nat]);
    assert(announced_behind_from(initial_state(), second, accepted, 0) =~= seq![0nat]);
    assert(announced_from(initial_state(), first, accepted) =~= seq![
        IndexFileMetadata {
            reporting_entity_name: name.value->Text_0,
            reporting_entity_type: entity_type.value->Text_0,
        },
    ]);
}

/// A key that the decode refuses without sending anything ends the
/// decode there: the error is that of the key, and nothing is sent or
/// announced any more.
proof fn lemma_entry_refused(
    state: DecoderState,
    rest: Seq<DocumentField>,
    accepted: nat,
    sent: nat,
    sends: Seq<Sent<ReportingStructure>>,
    announced: Seq<IndexFileMetadata>,
    behind: Seq<nat>,
)
    requires
        rest.len() > 0,
        accept(state, rest[0], accepted) is Err,
        sent_at(state, rest[0], accepted) == Seq::<Sent<ReportingStructure>>::empty(),
    ensures
        decode_from(state, rest, accepted) == Err::<AsyncIndexFile, DecodeError>(
            accept(state, rest[0], accepted)->Err_0,
        ),
        sends + sent_from(state, rest, accepted) == sends,
        announced + announced_from(state, rest, accepted) == announced,
        behind + announced_behind_from(state, rest, accepted, sent) == behind,
{
    assert(sends + Seq::empty() =~= sends);
    assert(announced + Seq::empty() =~= announced);
    assert(behind + Seq::empty() =~= behind);
}

/// Decodes an index document while its reporting structures go to a
/// consumer: the entity's name and type go to the channel of the metadata
/// the moment both are known, every reporting structure goes to the
/// channel of the structures as soon as it is decoded. The seed keeps the
/// log of what it handed to each channel, and for every piece of metadata
/// the number of structures that it had handed over before.
pub struct IndexFileSeed {
    metadata_sender: ItemSeed<IndexFileMetadata>,
    reporting_structure_sender: ItemSeed<ReportingStructure>,
    announced_behind: Ghost<Seq<nat>>,
}

/// The two channels of one ingestion, each as its sending and its
/// receiving side: the channel of the metadata, which has room for its one
/// message, so that the decoder never waits on it; and the channel of the
/// reporting structures, which lets the decoder run `capacity` structures
/// ahead of the consumer, none with a capacity of 0.
pub fn index_file_channel(capacity: usize) -> (halves: (
    IndexFileSeed,
    ChannelGenerator<IndexFileMetadata>,
    ChannelGenerator<ReportingStructure>,
))
    ensures
        halves.0.metadata_sends() == Seq::<Sent<IndexFileMetadata>>::empty(),
        halves.0.structure_sends() == Seq::<Sent<ReportingStructure>>::empty(),
        halves.0.announced_behind() == Seq::<nat>::empty(),
        halves.1.received() == Seq::<IndexFileMetadata>::empty(),
        halves.2.received() == Seq::<ReportingStructure>::empty(),
        halves.1.polls() == Seq::<bool>::empty(),
        !halves.1.ended(),
        !halves.2.ended(),
{
    let (metadata_sender, metadata_receiver) = bounded_channel::<IndexFileMetadata>(1);
    let (reporting_structure_sender, reporting_structure_receiver) = bounded_channel::<
        ReportingStructure,
    >(capacity);
    (
        IndexFileSeed::new(metadata_sender, reporting_structure_sender),
        ChannelGenerator::new(metadata_receiver),
        ChannelGenerator::new(reporting_structure_receiver),
    )
}

impl IndexFileSeed {
    /// What was handed to the channel of the metadata, send by send.
    pub closed spec fn metadata_sends(&self) -> Seq<Sent<IndexFileMetadata>> {
        self.metadata_sender.sends()
    }

    /// What was handed to the channel of the structures, send by send.
    pub closed spec fn structure_sends(&self) -> Seq<Sent<ReportingStructure>> {
        self.reporting_structure_sender.sends()
    }

    /// For every piece of metadata handed to its channel, in their order:
    /// how many reporting structures had been handed to theirs before.
    pub closed spec fn announced_behind(&self) -> Seq<nat> {
        self.announced_behind@
    }

    /// A seed that has sent nothing yet.
    pub fn new(
        metadata_sender: SyncSender<IndexFileMetadata>,
        reporting_structure_sender: SyncSender<ReportingStructure>,
    ) -> (seed: Self)
        ensures
            seed.metadata_sends() == Seq::<Sent<IndexFileMetadata>>::empty(),
            seed.structure_sends() == Seq::<Sent<ReportingStructure>>::empty(),
            seed.announced_behind() == Seq::<nat>::empty(),
    {
        IndexFileSeed {
            metadata_sender: ItemSeed::new(metadata_sender),
            reporting_structure_sender: ItemSeed::new(reporting_structure_sender),
            announced_behind: Ghost(Seq::empty()),
        }
    }

    /// Hands the metadata, if there is any, to whoever waits for it, once.
    /// That nobody does is no error of the decode.
    pub fn announce(&mut self, metadata: Option<IndexFileMetadata>)
        ensures
            final(self).structure_sends() == old(self).structure_sends(),
            old(self).metadata_sends().is_prefix_of(final(self).metadata_sends()),
            items(final(self).metadata_sends().skip(old(self).metadata_sends().len() as int))
                == match metadata {
                Some(metadata) => seq![metadata],
                None => Seq::<IndexFileMetadata>::empty(),
            },
            final(self).announced_behind() == match metadata {
                Some(_) => old(self).announced_behind().push(old(self).structure_sends().len()),
                None => old(self).announced_behind(),
            },
    {
        let ghost before = self.metadata_sender.sends();
        match metadata {
            Some(metadata) => {
                let _ = self.metadata_sender.send(metadata);
                proof {
                    self.announced_behind@ = self.announced_behind@.push(
                        self.reporting_structure_sender.sends().len(),
                    );
                    assert(items(self.metadata_sender.sends().skip(before.len() as int))
                        =~= seq![metadata]);
                }
            },
            None => {
                assert(items(self.metadata_sender.sends().skip(before.len() as int))
                    =~= Seq::<IndexFileMetadata>::empty());
            },
        }
    }

    /// Hands one decoded reporting structure to its channel and takes note
    /// of how that went, as `ItemSeed::forward` does.
    pub fn forward(&mut self, progress: &mut Forwarding, item: ReportingStructure)
        ensures
            final(self).metadata_sends() == old(self).metadata_sends(),
            final(self).announced_behind() == old(self).announced_behind(),
            old(progress).open() ==> {
                &&& final(self).structure_sends() == old(self).structure_sends().push(
                    Sent { item, taken: final(progress).receiving() },
                )
                &&& final(progress).receiving() ==> final(progress).delivered() == old(
                    progress,
                ).delivered() + 1
                &&& !final(progress).receiving() ==> final(progress).delivered() == old(
                    progress,
                ).delivered()
            },
            !old(progress).open() ==> final(self).structure_sends() == old(
                self,
            ).structure_sends() && *final(progress) == *old(progress),
    {
        self.reporting_structure_sender.forward(progress, item);
    }

    /// Decodes a whole document, given as its keys in the order in which
    /// the bytes hold them. The receiving side of the array takes as many
    /// reporting structures as the log of the sends shows.
    pub fn deserialize(&mut self, fields: Vec<DocumentField>) -> (r: Result<
        AsyncIndexFile,
        DecodeError,
    >)
        ensures
            old(self).metadata_sends().is_prefix_of(final(self).metadata_sends()),
            old(self).structure_sends().is_prefix_of(final(self).structure_sends()),
            old(self).announced_behind().is_prefix_of(final(self).announced_behind()),
            ({
                let sends = final(self).structure_sends().skip(
                    old(self).structure_sends().len() as int,
                );
                let announced = items(
                    final(self).metadata_sends().skip(old(self).metadata_sends().len() as int),
                );
                let behind = final(self).announced_behind().skip(
                    old(self).announced_behind().len() as int,
                );
                let accepted = taken_before_refusal(sends);
                &&& r == decode_index_file(fields@, accepted)
                &&& sends == sent_from(initial_state(), fields@, accepted)
                &&& announced == announced_from(initial_state(), fields@, accepted)
                &&& behind == announced_behind_from(
                    initial_state(),
                    fields@,
                    accepted,
                    old(self).structure_sends().len(),
                )
            }),
    {
        let mut decoder = IndexFileDecoder::new();
        let ghost all = fields@;
        let ghost meta0 = self.metadata_sends();
        let ghost sends0 = self.structure_sends();
        let ghost behind0 = self.announced_behind();
        let ghost mut witness: Option<nat> = None;
        proof {
            assert(all.skip(0) =~= all);
            assert(self.structure_sends().skip(sends0.len() as int) =~= Seq::empty());
            assert(items(self.metadata_sends().skip(meta0.len() as int)) =~= Seq::empty());
            assert(self.announced_behind().skip(behind0.len() as int) =~= Seq::empty());
        }
        for entry in it: fields
            invariant
                it.seq() == all,
                meta0 == old(self).metadata_sends(),
                sends0 == old(self).structure_sends(),
                behind0 == old(self).announced_behind(),
                meta0.is_prefix_of(self.metadata_sends()),
                sends0.is_prefix_of(self.structure_sends()),
                behind0.is_prefix_of(self.announced_behind()),
                witness is Some ==> seen(decoder@, Field::ReportingStructure),
                witness is Some ==> witness == Some(
                    taken_before_refusal(self.structure_sends().skip(sends0.len() as int)),
                ),
                witness is None ==> self.structure_sends() == sends0,
                forall|a: nat|
                    (witness is None || witness == Some(a)) ==> {
                        &&& decode_index_file(all, a) == #[trigger] decode_from(
                            decoder@,
                            all.skip(it.index() as int),
                            a,
                        )
                        &&& sent_from(initial_state(), all, a) == self.structure_sends().skip(
                            sends0.len() as int,
                        ) + sent_from(decoder@, all.skip(it.index() as int), a)
                        &&& announced_from(initial_state(), all, a) == items(
                            self.metadata_sends().skip(meta0.len() as int),
                        ) + announced_from(decoder@, all.skip(it.index() as int), a)
                        &&& announced_behind_from(initial_state(), all, a, sends0.len())
                            == self.announced_behind().skip(behind0.len() as int)
                            + announced_behind_from(
                            decoder@,
                            all.skip(it.index() as int),
                            a,
                            self.structure_sends().len(),
                        )
                    },
        {
            let ghost i = it.index() as int;
            let ghost before = decoder@;
            let ghost meta1 = self.metadata_sends();
            let ghost sends1 = self.structure_sends();
            let ghost behind1 = self.announced_behind();
            let ghost settled = taken_before_refusal(sends1.skip(sends0.len() as int));
            proof {
                assert(all.skip(i)[0] == entry);
                assert(all.skip(i).skip(1) =~= all.skip(i + 1));
            }
            match recognize(entry.key.as_str()) {
                None => {},
                Some(field) => {
                    match decoder.begin(field) {
                        Ok(()) => {},
                        Err(e) => {
                            proof {
                                lemma_entry_refused(
                                    before,
                                    all.skip(i),
                                    settled,
                                    sends1.len(),
                                    sends1.skip(sends0.len() as int),
                                    items(meta1.skip(meta0.len() as int)),
                                    behind1.skip(behind0.len() as int),
                                );
                            }
                            return Err(e);
                        },
                    }
                    match field {
                        Field::ReportingEntityName => match entry.value {
                            FieldValue::Text(text) => {
                                match decoder.set_reporting_entity_name(text) {
                                    Ok(announce) => {
                                        self.announce(announce);
                                    },
                                    Err(e) => {
                                        return Err(e);
                                    },
                                }
                            },
                            _ => {
                                proof {
                                    lemma_entry_refused(
                                        before,
                                        all.skip(i),
                                        settled,
                                        sends1.len(),
                                        sends1.skip(sends0.len() as int),
                                        items(meta1.skip(meta0.len() as int)),
                                        behind1.skip(behind0.len() as int),
                                    );
                                }
                                return Err(DecodeError::TypeMismatch(field));
                            },
                        },
                        Field::ReportingEntityType => match entry.value {
                            FieldValue::Text(text) => {
                                match decoder.set_reporting_entity_type(text) {
                                    Ok(announce) => {
                                        self.announce(announce);
                                    },
                                    Err(e) => {
                                        return Err(e);
                                    },
                                }
                            },
                            _ => {
                                proof {
                                    lemma_entry_refused(
                                        before,
                                        all.skip(i),
                                        settled,
                                        sends1.len(),
                                        sends1.skip(sends0.len() as int),
                                        items(meta1.skip(meta0.len() as int)),
                                        behind1.skip(behind0.len() as int),
                                    );
                                }
                                return Err(DecodeError::TypeMismatch(field));
                            },
                        },
                        Field::ReportingStructure => match entry.value {
                            FieldValue::Elements(elements) => {
                                let forwarded = forward_elements(
                                    &mut self.reporting_structure_sender,
                                    elements,
                                );
                                proof {
                                    let chunk = self.structure_sends().skip(sends1.len() as int);
                                    assert(self.structure_sends().skip(sends0.len() as int)
                                        =~= chunk);
                                    witness = Some(taken_before_refusal(chunk));
                                }
                                match forwarded {
                                    Ok(n) => {
                                        match decoder.set_reporting_structure(n) {
                                            Ok(()) => {},
                                            Err(e) => {
                                                return Err(e);
                                            },
                                        }
                                    },
                                    Err(e) => {
                                        proof {
                                            let a = witness->Some_0;
                                            assert(decode_from(before, all.skip(i), a) == Err::<
                                                AsyncIndexFile,
                                                DecodeError,
                                            >(e));
                                            assert(items(meta1.skip(meta0.len() as int))
                                                + Seq::empty() =~= items(
                                                meta1.skip(meta0.len() as int),
                                            ));
                                            assert(behind1.skip(behind0.len() as int)
                                                + Seq::empty() =~= behind1.skip(
                                                behind0.len() as int,
                                            ));
                                            assert(Seq::<Sent<ReportingStructure>>::empty()
                                                + sent_at(before, entry, a) =~= sent_at(
                                                before,
                                                entry,
                                                a,
                                            ));
                                        }
                                        return Err(e);
                                    },
                                }
                            },
                            _ => {
                                proof {
                                    lemma_entry_refused(
                                        before,
                                        all.skip(i),
                                        settled,
                                        sends1.len(),
                                        sends1.skip(sends0.len() as int),
                                        items(meta1.skip(meta0.len() as int)),
                                        behind1.skip(behind0.len() as int),
                                    );
                                }
                                return Err(DecodeError::TypeMismatch(field));
                            },
                        },
                    }
                },
            }
            proof {
                let meta2 = self.metadata_sends();
                let sends2 = self.structure_sends();
                let behind2 = self.announced_behind();
                assert forall|a: nat| (witness is None || witness == Some(a)) implies {
                    &&& decode_index_file(all, a) == #[trigger] decode_from(
                        decoder@,
                        all.skip(i + 1),
                        a,
                    )
                    &&& sent_from(initial_state(), all, a) == sends2.skip(sends0.len() as int)
                        + sent_from(decoder@, all.skip(i + 1), a)
                    &&& announced_from(initial_state(), all, a) == items(
                        meta2.skip(meta0.len() as int),
                    ) + announced_from(decoder@, all.skip(i + 1), a)
                    &&& announced_behind_from(initial_state(), all, a, sends0.len())
                        == behind2.skip(behind0.len() as int) + announced_behind_from(
                        decoder@,
                        all.skip(i + 1),
                        a,
                        sends2.len(),
                    )
                } by {
                    let here = announced_at(before, entry);
                    let sent_here = sent_at(before, entry, a);
                    let behind_here = here.map_values(|m: IndexFileMetadata| sends1.len());
                    assert(accept(before, entry, a) == Ok::<DecoderState, DecodeError>(decoder@));
                    assert(decode_from(before, all.skip(i), a) == decode_from(
                        decoder@,
                        all.skip(i + 1),
                        a,
                    ));
                    assert(sent_from(before, all.skip(i), a) == sent_here + sent_from(
                        decoder@,
                        all.skip(i + 1),
                        a,
                    ));
                    assert(announced_from(before, all.skip(i), a) == here + announced_from(
                        decoder@,
                        all.skip(i + 1),
                        a,
                    ));
                    assert(sends2.skip(sends0.len() as int) =~= sends1.skip(sends0.len() as int)
                        + sends2.skip(sends1.len() as int));
                    assert(sends2.skip(sends1.len() as int) =~= sent_here);
                    assert(sends2.len() == sends1.len() + sent_here.len());
                    assert(announced_behind_from(before, all.skip(i), a, sends1.len())
                        == behind_here + announced_behind_from(
                        decoder@,
                        all.skip(i + 1),
                        a,
                        sends2.len(),
                    ));
                    assert(meta2.skip(meta0.len() as int) =~= meta1.skip(meta0.len() as int)
                        + meta2.skip(meta1.len() as int));
                    assert(items(meta2.skip(meta0.len() as int)) =~= items(
                        meta1.skip(meta0.len() as int),
                    ) + items(meta2.skip(meta1.len() as int)));
                    assert(items(meta2.skip(meta1.len() as int)) =~= here);
                    assert(behind2.skip(behind0.len() as int) =~= behind1.skip(
                        behind0.len() as int,
                    ) + behind2.skip(behind1.len() as int));
                    assert(behind2.skip(behind1.len() as int) =~= behind_here);
                    assert(sends1.skip(sends0.len() as int) + (sent_here + sent_from(
                        decoder@,
                        all.skip(i + 1),
                        a,
                    )) =~= sends1.skip(sends0.len() as int) + sent_here + sent_from(
                        decoder@,
                        all.skip(i + 1),
                        a,
                    ));
                    assert(items(meta1.skip(meta0.len() as int)) + (here + announced_from(
                        decoder@,
                        all.skip(i + 1),
                        a,
                    )) =~= items(meta1.skip(meta0.len() as int)) + here + announced_from(
                        decoder@,
                        all.skip(i + 1),
                        a,
                    ));
                    assert(behind1.skip(behind0.len() as int) + (behind_here
                        + announced_behind_from(decoder@, all.skip(i + 1), a, sends2.len()))
                        =~= behind1.skip(behind0.len() as int) + behind_here
                        + announced_behind_from(decoder@, all.skip(i + 1), a, sends2.len()));
                }
            }
        }
        proof {
            let sends = self.structure_sends().skip(sends0.len() as int);
            let a = taken_before_refusal(sends);
            assert(all.skip(all.len() as int) =~= Seq::empty());
            assert(decode_from(decoder@, all.skip(all.len() as int), a) == conclude(decoder@));
            assert(sends + Seq::empty() =~= sends);
            assert(items(self.metadata_sends().skip(meta0.len() as int)) + Seq::empty()
                =~= items(self.metadata_sends().skip(meta0.len() as int)));
            assert(self.announced_behind().skip(behind0.len() as int) + Seq::empty()
                =~= self.announced_behind().skip(behind0.len() as int));
        }
        decoder.finish()
    }
}

} // verus!

use std::sync::mpsc::sync_channel;

use rust_cms_json_parser::error::{DecodeError, Field};
use rust_cms_json_parser::generator::ChannelGenerator;
use rust_cms_json_parser::index_file_parsing::index_file::{
    IndexFileMetadata, LinkedFile, ReportingPlan, ReportingStructure,
};
use rust_cms_json_parser::index_file_parsing::seed_deserialization::{
    forward_elements, index_file_channel, recognize, DecodePhase, DocumentField, FieldValue,
    Forwarding, IndexFileDecoder, IndexFileSeed, ItemSeed,
};
use rust_cms_json_parser::sync_array_serde::channel_deserializer::{
    decoded, deserialize_to_channel, ChannelVisitor,
};

fn numbers(n: u32) -> Vec<Result<u32, DecodeError>> {
    let mut elements = Vec::new();
    for i in 0..n {
        elements.push(Ok(i));
    }
    elements
}

fn malformed(message: &str) -> DecodeError {
    DecodeError::Malformed(message.to_string())
}

#[test]
fn elements_arrive_in_document_order() {
    let (sender, receiver) = sync_channel::<u32>(10);
    let mut seed = ItemSeed::new(sender);
    let count = forward_elements(&mut seed, numbers(10)).unwrap();
    drop(seed);
    assert_eq!(count, 10);
    let received: Vec<u32> = receiver.iter().collect();
    assert_eq!(received, vec![0, 1, 2, 3, 4, 5, 6, 7, 8, 9]);
}

#[test]
fn empty_array_forwards_nothing() {
    let (sender, receiver) = sync_channel::<u32>(1);
    let mut seed = ItemSeed::new(sender);
    let count = forward_elements(&mut seed, vec![]).unwrap();
    drop(seed);
    assert_eq!(count, 0);
    assert_eq!(receiver.iter().count(), 0);
}

#[test]
fn item_seed_counts_what_the_channel_took() {
    let (sender, receiver) = sync_channel::<u32>(4);
    let mut seed = ItemSeed::new(sender);
    let count = seed.deserialize(numbers(4)).unwrap();
    drop(seed);
    assert_eq!(count, 4);
    let received: Vec<u32> = receiver.iter().collect();
    assert_eq!(received, vec![0, 1, 2, 3]);
}

#[test]
fn closed_receiver_ends_the_decode_without_error() {
    let (sender, receiver) = sync_channel::<u32>(10);
    drop(receiver);
    let count = forward_elements(&mut ItemSeed::new(sender), numbers(10)).unwrap();
    assert_eq!(count, 0);
}

#[test]
fn receiver_that_closes_after_three_of_ten_gets_count_three() {
    let (sender, receiver) = sync_channel::<u32>(10);
    let mut seed = ItemSeed::new(sender);
    let mut progress = Forwarding::new();
    let mut source = 0..10u32;
    let mut received = Vec::new();
    let mut receiver = Some(receiver);
    while progress.wants_more() {
        let item = match source.next() {
            Some(item) => item,
            None => break,
        };
        seed.forward(&mut progress, item);
        if let Some(r) = &receiver {
            received.push(r.recv().unwrap());
        }
        if received.len() == 3 {
            receiver = None;
        }
    }
    assert_eq!(progress.num_items(), 3);
    assert!(!progress.wants_more());
    assert_eq!(received, vec![0, 1, 2]);
    // The element that was refused was the fourth; the rest was never looked at.
    assert_eq!(source.next(), Some(4));
}

#[test]
fn closed_receiver_hides_a_later_malformed_element() {
    let (sender, receiver) = sync_channel::<u32>(10);
    drop(receiver);
    let elements = vec![Ok(1), Ok(2), Err(malformed("expected value"))];
    assert_eq!(forward_elements(&mut ItemSeed::new(sender), elements), Ok(0));
}

#[test]
fn malformed_element_is_an_error_after_the_elements_before_it_were_sent() {
    let (sender, receiver) = sync_channel::<u32>(10);
    let mut elements = numbers(10);
    elements[4] = Err(malformed("expected value at line 1 column 9"));
    let mut seed = ItemSeed::new(sender);
    let result = forward_elements(&mut seed, elements);
    drop(seed);
    assert_eq!(result, Err(malformed("expected value at line 1 column 9")));
    // Unlike the filtering decode, the channel has the four elements before the bad one.
    let received: Vec<u32> = receiver.iter().collect();
    assert_eq!(received, vec![0, 1, 2, 3]);
}

#[test]
fn forwarding_counts_deliveries_and_stops_at_the_first_refusal() {
    let mut progress = Forwarding::new();
    assert_eq!(progress.num_items(), 0);
    assert!(progress.wants_more());
    progress.record(true);
    progress.record(true);
    assert_eq!(progress.num_items(), 2);
    assert!(progress.wants_more());
    assert!(progress.is_receiving());
    progress.record(false);
    assert_eq!(progress.num_items(), 2);
    assert!(!progress.wants_more());
    // Nothing is noted once the hand-over has ended.
    progress.record(true);
    assert_eq!(progress.num_items(), 2);
    assert!(!progress.wants_more());
}

#[test]
fn nothing_is_sent_once_the_hand_over_has_ended() {
    let (sender, receiver) = sync_channel::<u32>(4);
    let mut seed = ItemSeed::new(sender);
    let mut progress = Forwarding::new();
    seed.forward(&mut progress, 1);
    progress.record(false);
    seed.forward(&mut progress, 2);
    assert_eq!(progress.num_items(), 1);
    drop(seed);
    let received: Vec<u32> = receiver.iter().collect();
    assert_eq!(received, vec![1]);
}

#[test]
fn fields_are_named_by_their_keys() {
    for field in [Field::ReportingEntityName, Field::ReportingEntityType, Field::ReportingStructure] {
        assert_eq!(recognize(field.name()), Some(field));
    }
    assert_eq!(Field::ReportingEntityName.name(), "reporting_entity_name");
    assert_eq!(Field::ReportingEntityType.name(), "reporting_entity_type");
    assert_eq!(Field::ReportingStructure.name(), "reporting_structure");
}

#[test]
fn channel_visitor_sends_every_element() {
    let (sender, receiver) = sync_channel::<u32>(3);
    let mut visitor = ChannelVisitor { sender: ItemSeed::new(sender), f: std::marker::PhantomData };
    assert_eq!(visitor.visit_seq(numbers(3)), Ok(()));
    drop(visitor);
    let received: Vec<u32> = receiver.iter().collect();
    assert_eq!(received, vec![0, 1, 2]);
}

#[test]
fn channel_visitor_returns_the_decode_error() {
    let (sender, _receiver) = sync_channel::<u32>(3);
    let mut visitor = ChannelVisitor { sender: ItemSeed::new(sender), f: std::marker::PhantomData };
    let elements = vec![Ok(1), Err(malformed("bad")), Ok(3)];
    assert_eq!(visitor.visit_seq(elements), Err(malformed("bad")));
}

#[test]
fn generator_yields_the_array_and_ends() {
    let mut generator: ChannelGenerator<u32> = deserialize_to_channel(numbers(5)).unwrap();
    let mut received = Vec::new();
    while let Some(item) = generator.next() {
        received.push(item);
    }
    assert_eq!(received, vec![0, 1, 2, 3, 4]);
    assert_eq!(generator.next(), None);
}

#[test]
fn generator_of_a_malformed_array_is_an_error() {
    let elements: Vec<Result<u32, DecodeError>> = vec![Ok(1), Err(malformed("bad"))];
    assert_eq!(deserialize_to_channel(elements).err(), Some(malformed("bad")));
}

#[test]
fn channels_of_an_ingestion_carry_a_document() {
    let (mut seed, mut metadata, mut structures) = index_file_channel(4);
    let fields = vec![
        text("reporting_entity_name", "cms"),
        text("reporting_entity_type", "payer"),
        array(&["a", "b", "c"]),
    ];
    let file = seed.deserialize(fields).unwrap();
    drop(seed);
    assert_eq!(file.reporting_structure_processing_stats.num_reporting_structures, 3);
    let announced = metadata.next().unwrap();
    assert_eq!(announced.reporting_entity_name, "cms");
    assert_eq!(announced.reporting_entity_type, "payer");
    assert!(metadata.poll().is_none());
    assert!(metadata.next().is_none());
    let mut names = Vec::new();
    while let Some(node) = structures.next() {
        names.push(node.reporting_plans[0].plan_name.clone());
    }
    assert_eq!(names, vec!["a".to_string(), "b".to_string(), "c".to_string()]);
}

#[test]
fn malformed_array_is_refused_before_anything_is_sent() {
    let elements: Vec<Result<u32, DecodeError>> =
        vec![Ok(1), Ok(2), Err(malformed("first")), Ok(4), Err(malformed("second"))];
    assert_eq!(deserialize_to_channel(elements).err(), Some(malformed("first")));
}

#[test]
fn index_file_seed_forwards_structures_one_by_one() {
    let (mut seed, _metadata, mut structures) = index_file_channel(4);
    let mut progress = Forwarding::new();
    seed.forward(&mut progress, structure("a"));
    seed.forward(&mut progress, structure("b"));
    assert_eq!(progress.num_items(), 2);
    drop(seed);
    assert_eq!(structures.next().unwrap().reporting_plans[0].plan_name, "a");
    assert_eq!(structures.next().unwrap().reporting_plans[0].plan_name, "b");
    assert!(structures.next().is_none());
}

#[test]
fn generator_of_an_empty_array_ends_at_once() {
    let mut generator: ChannelGenerator<u32> = deserialize_to_channel(vec![]).unwrap();
    assert_eq!(generator.poll(), None);
    assert_eq!(generator.next(), None);
}

#[test]
fn decoded_is_every_element_or_the_first_error() {
    assert_eq!(decoded(numbers(4)), Ok(vec![0, 1, 2, 3]));
    assert_eq!(decoded::<u32>(vec![]), Ok(vec![]));
    let elements: Vec<Result<u32, DecodeError>> =
        vec![Ok(1), Err(malformed("first")), Ok(3), Err(malformed("second"))];
    assert_eq!(decoded(elements), Err(malformed("first")));
}

#[test]
fn seed_sends_one_item_at_a_time() {
    let (sender, receiver) = sync_channel::<u32>(2);
    let mut seed = ItemSeed::new(sender);
    assert!(seed.send(7));
    assert!(seed.send(3));
    assert_eq!(receiver.recv(), Ok(7));
    assert_eq!(receiver.recv(), Ok(3));
    drop(receiver);
    assert!(!seed.send(9));
}

#[test]
fn keys_are_recognized_by_their_exact_name() {
    assert_eq!(recognize("reporting_entity_name"), Some(Field::ReportingEntityName));
    assert_eq!(recognize("reporting_entity_type"), Some(Field::ReportingEntityType));
    assert_eq!(recognize("reporting_structure"), Some(Field::ReportingStructure));
    assert_eq!(recognize("reporting_structures"), None);
    assert_eq!(recognize("Reporting_Entity_Name"), None);
    assert_eq!(recognize("version"), None);
    assert_eq!(recognize(""), None);
}

fn text(key: &str, value: &str) -> DocumentField {
    DocumentField { key: key.to_string(), value: FieldValue::Text(value.to_string()) }
}

fn structure(name: &str) -> ReportingStructure {
    ReportingStructure {
        reporting_plans: vec![ReportingPlan {
            plan_name: name.to_string(),
            plan_id_type: "EIN".to_string(),
            plan_id: "1".to_string(),
            plan_market_type: "group".to_string(),
        }],
        in_network_files: Some(vec![LinkedFile {
            description: "rates".to_string(),
            location: "https://example.com/rates.json".to_string(),
        }]),
        allowed_amount_file: None,
    }
}

fn array(names: &[&str]) -> DocumentField {
    let mut elements = Vec::new();
    for name in names {
        elements.push(Ok(structure(name)));
    }
    DocumentField { key: "reporting_structure".to_string(), value: FieldValue::Elements(elements) }
}

/// A seed that decodes one document and is then let go of, so that both
/// channels end.
struct OneDocument(IndexFileSeed);

impl OneDocument {
    fn deserialize(
        mut self,
        fields: Vec<DocumentField>,
    ) -> Result<rust_cms_json_parser::index_file_parsing::index_file::AsyncIndexFile, DecodeError> {
        self.0.deserialize(fields)
    }
}

fn seed(capacity: usize) -> (
    OneDocument,
    std::sync::mpsc::Receiver<IndexFileMetadata>,
    std::sync::mpsc::Receiver<ReportingStructure>,
) {
    let (metadata_sender, metadata_receiver) = sync_channel::<IndexFileMetadata>(1);
    let (reporting_structure_sender, structure_receiver) =
        sync_channel::<ReportingStructure>(capacity);
    (
        OneDocument(IndexFileSeed::new(metadata_sender, reporting_structure_sender)),
        metadata_receiver,
        structure_receiver,
    )
}

fn plan_names(receiver: std::sync::mpsc::Receiver<ReportingStructure>) -> Vec<String> {
    let mut names = Vec::new();
    for node in receiver.iter() {
        names.push(node.reporting_plans[0].plan_name.clone());
    }
    names
}

#[test]
fn document_is_decoded_into_a_summary() {
    let (seed, metadata, structures) = seed(8);
    let fields = vec![
        text("reporting_entity_name", "cms"),
        text("reporting_entity_type", "payer"),
        array(&["a", "b", "c"]),
    ];
    let file = seed.deserialize(fields).unwrap();
    assert_eq!(file.reporting_entity_name, "cms");
    assert_eq!(file.reporting_entity_type, "payer");
    assert_eq!(file.reporting_structure_processing_stats.num_reporting_structures, 3);
    let announced = metadata.recv().unwrap();
    assert_eq!(announced.reporting_entity_name, "cms");
    assert_eq!(announced.reporting_entity_type, "payer");
    assert!(metadata.recv().is_err());
    assert_eq!(plan_names(structures), vec!["a".to_string(), "b".to_string(), "c".to_string()]);
}

#[test]
fn fields_may_come_in_any_order() {
    let orders: Vec<Vec<usize>> = vec![
        vec![0, 1, 2],
        vec![0, 2, 1],
        vec![1, 0, 2],
        vec![1, 2, 0],
        vec![2, 0, 1],
        vec![2, 1, 0],
    ];
    for order in orders {
        let (seed, metadata, structures) = seed(8);
        let mut fields = Vec::new();
        for which in order {
            fields.push(match which {
                0 => text("reporting_entity_name", "cms"),
                1 => text("reporting_entity_type", "payer"),
                _ => array(&["a", "b"]),
            });
        }
        let file = seed.deserialize(fields).unwrap();
        assert_eq!(file.reporting_entity_name, "cms");
        assert_eq!(file.reporting_entity_type, "payer");
        assert_eq!(file.reporting_structure_processing_stats.num_reporting_structures, 2);
        assert_eq!(metadata.recv().unwrap().reporting_entity_name, "cms");
        assert_eq!(plan_names(structures), vec!["a".to_string(), "b".to_string()]);
    }
}

#[test]
fn unknown_fields_are_ignored() {
    let (seed, _metadata, _structures) = seed(8);
    let fields = vec![
        text("version", "1.0.0"),
        text("reporting_entity_name", "cms"),
        DocumentField { key: "extra".to_string(), value: FieldValue::Other },
        text("reporting_entity_type", "payer"),
        DocumentField { key: "more".to_string(), value: FieldValue::Elements(vec![]) },
        array(&[]),
        text("version", "again"),
    ];
    let file = seed.deserialize(fields).unwrap();
    assert_eq!(file.reporting_entity_name, "cms");
    assert_eq!(file.reporting_structure_processing_stats.num_reporting_structures, 0);
}

#[test]
fn missing_fields_are_reported_array_first() {
    let (s, _m, _r) = seed(8);
    assert_eq!(
        s.deserialize(vec![]).err(),
        Some(DecodeError::MissingField(Field::ReportingStructure))
    );
    let (s, _m, _r) = seed(8);
    assert_eq!(
        s.deserialize(vec![text("reporting_entity_name", "cms"), text("reporting_entity_type", "payer")])
            .err(),
        Some(DecodeError::MissingField(Field::ReportingStructure))
    );
    let (s, _m, _r) = seed(8);
    assert_eq!(
        s.deserialize(vec![array(&["a"])]).err(),
        Some(DecodeError::MissingField(Field::ReportingEntityName))
    );
    let (s, _m, _r) = seed(8);
    assert_eq!(
        s.deserialize(vec![array(&["a"]), text("reporting_entity_name", "cms")]).err(),
        Some(DecodeError::MissingField(Field::ReportingEntityType))
    );
}

#[test]
fn duplicate_fields_are_refused() {
    let (s, _m, _r) = seed(8);
    assert_eq!(
        s.deserialize(vec![text("reporting_entity_name", "cms"), text("reporting_entity_name", "cms")])
            .err(),
        Some(DecodeError::DuplicateField(Field::ReportingEntityName))
    );
    let (s, _m, _r) = seed(8);
    assert_eq!(
        s.deserialize(vec![
            text("reporting_entity_type", "payer"),
            DocumentField { key: "reporting_entity_type".to_string(), value: FieldValue::Other },
        ])
        .err(),
        Some(DecodeError::DuplicateField(Field::ReportingEntityType))
    );
    let (s, _m, structures) = seed(8);
    assert_eq!(
        s.deserialize(vec![array(&["a"]), array(&["b"])]).err(),
        Some(DecodeError::DuplicateField(Field::ReportingStructure))
    );
    // The second array was refused before any of its elements was sent.
    assert_eq!(plan_names(structures), vec!["a".to_string()]);
}

#[test]
fn values_of_the_wrong_kind_are_refused() {
    let (s, _m, _r) = seed(8);
    assert_eq!(
        s.deserialize(vec![DocumentField {
            key: "reporting_entity_name".to_string(),
            value: FieldValue::Other,
        }])
        .err(),
        Some(DecodeError::TypeMismatch(Field::ReportingEntityName))
    );
    let (s, _m, _r) = seed(8);
    assert_eq!(
        s.deserialize(vec![DocumentField {
            key: "reporting_entity_type".to_string(),
            value: FieldValue::Elements(vec![]),
        }])
        .err(),
        Some(DecodeError::TypeMismatch(Field::ReportingEntityType))
    );
    let (s, _m, _r) = seed(8);
    assert_eq!(
        s.deserialize(vec![text("reporting_structure", "none")]).err(),
        Some(DecodeError::TypeMismatch(Field::ReportingStructure))
    );
}

#[test]
fn malformed_structure_ends_the_document() {
    let (s, _m, structures) = seed(8);
    let elements = vec![Ok(structure("a")), Err(malformed("missing field `reporting_plans`"))];
    let fields = vec![
        text("reporting_entity_name", "cms"),
        DocumentField { key: "reporting_structure".to_string(), value: FieldValue::Elements(elements) },
        text("reporting_entity_type", "payer"),
    ];
    assert_eq!(s.deserialize(fields).err(), Some(malformed("missing field `reporting_plans`")));
    assert_eq!(plan_names(structures), vec!["a".to_string()]);
}

#[test]
fn closed_consumer_still_gives_a_summary() {
    let (s, _m, structures) = seed(8);
    drop(structures);
    let fields = vec![
        text("reporting_entity_name", "cms"),
        text("reporting_entity_type", "payer"),
        array(&["a", "b", "c"]),
    ];
    let file = s.deserialize(fields).unwrap();
    assert_eq!(file.reporting_structure_processing_stats.num_reporting_structures, 0);
}

#[test]
fn metadata_after_the_array_is_announced_when_it_arrives() {
    let (s, metadata, structures) = seed(8);
    let fields = vec![
        array(&["a"]),
        text("reporting_entity_type", "payer"),
        text("reporting_entity_name", "cms"),
    ];
    let file = s.deserialize(fields).unwrap();
    assert_eq!(file.reporting_structure_processing_stats.num_reporting_structures, 1);
    let announced = metadata.recv().unwrap();
    assert_eq!(announced.reporting_entity_name, "cms");
    assert_eq!(announced.reporting_entity_type, "payer");
    assert_eq!(plan_names(structures), vec!["a".to_string()]);
}

#[test]
fn decoder_walks_its_phases() {
    let mut decoder = IndexFileDecoder::new();
    assert_eq!(decoder.phase(), DecodePhase::Start);
    assert_eq!(decoder.begin(Field::ReportingEntityType), Ok(()));
    assert!(decoder.set_reporting_entity_type("payer".to_string()).unwrap().is_none());
    assert_eq!(decoder.phase(), DecodePhase::FieldsPartial);
    assert_eq!(
        decoder.begin(Field::ReportingEntityType),
        Err(DecodeError::DuplicateField(Field::ReportingEntityType))
    );
    assert_eq!(decoder.begin(Field::ReportingEntityName), Ok(()));
    let announce = decoder.set_reporting_entity_name("cms".to_string()).unwrap().unwrap();
    assert_eq!(announce.reporting_entity_name, "cms");
    assert_eq!(announce.reporting_entity_type, "payer");
    assert_eq!(decoder.phase(), DecodePhase::FieldsPartial);
    assert_eq!(decoder.begin(Field::ReportingStructure), Ok(()));
    assert_eq!(decoder.set_reporting_structure(12), Ok(()));
    assert_eq!(decoder.phase(), DecodePhase::Done);
    assert_eq!(
        decoder.set_reporting_structure(13),
        Err(DecodeError::DuplicateField(Field::ReportingStructure))
    );
    assert_eq!(
        decoder.set_reporting_entity_name("other".to_string()).err(),
        Some(DecodeError::DuplicateField(Field::ReportingEntityName))
    );
    assert_eq!(
        decoder.set_reporting_entity_type("other".to_string()).err(),
        Some(DecodeError::DuplicateField(Field::ReportingEntityType))
    );
    let file = decoder.finish().unwrap();
    assert_eq!(file.reporting_entity_name, "cms");
    assert_eq!(file.reporting_entity_type, "payer");
    assert_eq!(file.reporting_structure_processing_stats.num_reporting_structures, 12);
}

#[test]
fn decoder_that_ends_early_names_the_missing_field() {
    let mut decoder = IndexFileDecoder::new();
    decoder.set_reporting_structure(0).unwrap();
    decoder.set_reporting_entity_type("payer".to_string()).unwrap();
    assert_eq!(
        decoder.finish().err(),
        Some(DecodeError::MissingField(Field::ReportingEntityName))
    );
}

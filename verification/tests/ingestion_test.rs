use std::sync::mpsc::sync_channel;

use rust_cms_json_parser::error::{DecodeError, IngestError, StoreError};
use rust_cms_json_parser::generator::ChannelGenerator;
use rust_cms_json_parser::index_file_parsing::csv_meta_repository::{CsvMetaRepository, CsvTables};
use rust_cms_json_parser::index_file_parsing::index_file::{
    AsyncIndexFile, IndexFile, IndexFileMetadata, LinkedFile, ProcessingStats, ReportingPlan,
    ReportingStructure,
};
use rust_cms_json_parser::index_file_parsing::meta_repository_trait::{
    DbLinkInput, FileRowInput, Journal, MetaRepository, PlanInput,
};
use rust_cms_json_parser::index_file_parsing::results_dto::IndexFileParsingResults;
use rust_cms_json_parser::index_file_parsing::{
    _get_repo, handle_reporting_structure, parse_index_file_async, parse_index_file_sync,
    pipeline_result, AfterPoll, AfterTake, MetadataWait,
};

const FILES_HEADER: &str = "id,url,filename,reporting_entity_name,reporting_entity_type\n";
const LINKS_HEADER: &str = "id,from_id,from_type,to_id,to_type\n";
const PLANS_HEADER: &str = "id,plan_name,plan_id_type,plan_id,plan_market_type\n";

/// A store that keeps what it is handed and refuses the write with the
/// given number, counted over all three tables from 1.
struct RecordingRepo {
    files: Vec<(usize, String, String, String, String)>,
    plans: Vec<(usize, String, String, String, String)>,
    links: Vec<(usize, usize, String, usize, String)>,
    writes: usize,
    fail_at: Option<usize>,
}

impl RecordingRepo {
    fn new(fail_at: Option<usize>) -> Self {
        RecordingRepo { files: vec![], plans: vec![], links: vec![], writes: 0, fail_at }
    }

    fn refuses(&mut self) -> bool {
        self.writes += 1;
        self.fail_at == Some(self.writes)
    }
}

impl MetaRepository for RecordingRepo {
    fn add_file(&mut self, file: FileRowInput) -> Result<usize, StoreError> {
        if self.refuses() {
            return Err(StoreError::Backend("disk full".to_string()));
        }
        let id = 100 + self.files.len();
        self.files.push((
            id,
            file.url.to_string(),
            file.filename.to_string(),
            file.reporting_entity_name.to_string(),
            file.reporting_entity_type.to_string(),
        ));
        Ok(id)
    }

    fn add_link(&mut self, link: DbLinkInput) -> Result<usize, StoreError> {
        if self.refuses() {
            return Err(StoreError::Backend("disk full".to_string()));
        }
        let id = 1 + self.links.len();
        self.links.push((
            id,
            link.from_id,
            link.from_type.to_string(),
            link.to_id,
            link.to_type.to_string(),
        ));
        Ok(id)
    }

    fn add_plan(&mut self, plan: PlanInput) -> Result<usize, StoreError> {
        if self.refuses() {
            return Err(StoreError::Backend("disk full".to_string()));
        }
        let id = 500 + self.plans.len();
        self.plans.push((
            id,
            plan.plan_name.to_string(),
            plan.plan_id_type.to_string(),
            plan.plan_id.to_string(),
            plan.plan_market_type.to_string(),
        ));
        Ok(id)
    }
}

fn plan(name: &str) -> ReportingPlan {
    ReportingPlan {
        plan_name: name.to_string(),
        plan_id_type: "EIN".to_string(),
        plan_id: format!("id-{}", name),
        plan_market_type: "group".to_string(),
    }
}

fn linked(description: &str, location: &str) -> LinkedFile {
    LinkedFile { description: description.to_string(), location: location.to_string() }
}

fn structure(plans: usize, in_network: Option<usize>, allowed: bool) -> ReportingStructure {
    let mut reporting_plans = Vec::new();
    for i in 0..plans {
        reporting_plans.push(plan(&format!("plan{}", i)));
    }
    let in_network_files = match in_network {
        Some(n) => {
            let mut files = Vec::new();
            for i in 0..n {
                files.push(linked("in-network", &format!("https://example.com/rates/in{}.json", i)));
            }
            Some(files)
        }
        None => None,
    };
    let allowed_amount_file = if allowed {
        Some(linked("allowed amounts", "https://example.com/allowed.json"))
    } else {
        None
    };
    ReportingStructure { reporting_plans, in_network_files, allowed_amount_file }
}

fn link(id: usize, from_id: usize, from_type: &str, to_id: usize) -> (usize, usize, String, usize, String) {
    (id, from_id, from_type.to_string(), to_id, "rate_file".to_string())
}

#[test]
fn structure_with_two_plans_and_two_files_makes_six_links() {
    let mut journal = Journal::new(RecordingRepo::new(None));
    let node = structure(2, Some(1), true);
    let made = handle_reporting_structure(&mut journal, 7, "cms", "payer", &node).unwrap();

    assert_eq!(made.plan_ids, vec![500, 501]);
    assert_eq!(made.file_ids, vec![100, 101]);
    assert_eq!(
        journal.store().plans,
        vec![
            (500, "plan0".to_string(), "EIN".to_string(), "id-plan0".to_string(), "group".to_string()),
            (501, "plan1".to_string(), "EIN".to_string(), "id-plan1".to_string(), "group".to_string()),
        ]
    );
    assert_eq!(
        journal.store().files,
        vec![
            (
                100,
                "https://example.com/rates/in0.json".to_string(),
                "in0.json".to_string(),
                "cms".to_string(),
                "payer".to_string()
            ),
            (
                101,
                "https://example.com/allowed.json".to_string(),
                "allowed amounts".to_string(),
                "cms".to_string(),
                "payer".to_string()
            ),
        ]
    );
    assert_eq!(
        journal.store().links,
        vec![
            link(1, 7, "index_file", 100),
            link(2, 500, "plan", 100),
            link(3, 501, "plan", 100),
            link(4, 7, "index_file", 101),
            link(5, 500, "plan", 101),
            link(6, 501, "plan", 101),
        ]
    );
}

#[test]
fn links_are_the_cross_product_of_plans_and_files() {
    for plans in 0..4usize {
        for in_network in 0..4usize {
            for allowed in [false, true] {
                let mut journal = Journal::new(RecordingRepo::new(None));
                let node = structure(plans, Some(in_network), allowed);
                handle_reporting_structure(&mut journal, 1, "cms", "payer", &node).unwrap();
                let files = in_network + if allowed { 1 } else { 0 };
                assert_eq!(journal.store().plans.len(), plans);
                assert_eq!(journal.store().files.len(), files);
                assert_eq!(journal.store().links.len(), files + plans * files);
                let from_index = journal.store().links.iter().filter(|l| l.2 == "index_file").count();
                let from_plans = journal.store().links.iter().filter(|l| l.2 == "plan").count();
                assert_eq!(from_index, files);
                assert_eq!(from_plans, plans * files);
            }
        }
    }
}

#[test]
fn structure_without_in_network_files_links_the_allowed_amount_file() {
    let mut journal = Journal::new(RecordingRepo::new(None));
    let node = structure(1, None, true);
    let made = handle_reporting_structure(&mut journal, 3, "cms", "payer", &node).unwrap();
    assert_eq!(made.file_ids, vec![100]);
    assert_eq!(journal.store().links, vec![link(1, 3, "index_file", 100), link(2, 500, "plan", 100)]);
}

#[test]
fn structure_without_files_makes_no_links() {
    let mut journal = Journal::new(RecordingRepo::new(None));
    let node = structure(3, None, false);
    let made = handle_reporting_structure(&mut journal, 3, "cms", "payer", &node).unwrap();
    assert_eq!(made.plan_ids, vec![500, 501, 502]);
    assert!(made.file_ids.is_empty());
    assert!(journal.store().links.is_empty());
}

#[test]
fn empty_structure_writes_nothing() {
    let mut journal = Journal::new(RecordingRepo::new(Some(1)));
    let node = ReportingStructure::default();
    let made = handle_reporting_structure(&mut journal, 3, "cms", "payer", &node).unwrap();
    assert!(made.plan_ids.is_empty());
    assert!(made.file_ids.is_empty());
    assert_eq!(journal.store().writes, 0);
}

#[test]
fn refused_write_ends_the_structure() {
    let mut journal = Journal::new(RecordingRepo::new(Some(4)));
    let node = structure(2, Some(1), true);
    let result = handle_reporting_structure(&mut journal, 7, "cms", "payer", &node);
    assert_eq!(result.err(), Some(StoreError::Backend("disk full".to_string())));
    assert_eq!(journal.store().plans.len(), 2);
    assert_eq!(journal.store().files.len(), 1);
    assert!(journal.store().links.is_empty());
}

fn index_file(structures: Vec<ReportingStructure>) -> IndexFile {
    IndexFile {
        reporting_entity_name: "cms".to_string(),
        reporting_entity_type: "payer".to_string(),
        reporting_structure: structures,
    }
}

fn csv_repo() -> CsvMetaRepository {
    CsvMetaRepository {
        files_csv_path: "./db/files.csv",
        links_csv_path: "./db/links.csv",
        plans_csv_path: "./db/plans.csv",
        tables: CsvTables::open(
            FILES_HEADER.as_bytes().to_vec(),
            LINKS_HEADER.as_bytes().to_vec(),
            PLANS_HEADER.as_bytes().to_vec(),
        ),
    }
}

fn text(bytes: &Vec<u8>) -> String {
    String::from_utf8(bytes.clone()).unwrap()
}

#[test]
fn index_document_with_one_structure_is_ingested() {
    let mut journal = Journal::new(csv_repo());
    let document = index_file(vec![structure(2, Some(1), true)]);
    let results = parse_index_file_sync(&mut journal, "toc.json", &document).unwrap();

    assert_eq!(results.index_file_id, 1);
    assert_eq!(results.reporting_entity_name, "cms");
    assert_eq!(results.reporting_entity_type, "payer");
    assert_eq!(results.num_reporting_structures, 1);
    assert_eq!(results.num_plans, 2);
    assert_eq!(results.num_rate_files, 2);

    assert_eq!(
        text(journal.store().tables.plans_csv()),
        format!(
            "{}{}{}",
            PLANS_HEADER, "1,plan0,EIN,id-plan0,group\n", "2,plan1,EIN,id-plan1,group\n"
        )
    );
    assert_eq!(
        text(journal.store().tables.files_csv()),
        format!(
            "{}{}{}{}",
            FILES_HEADER,
            "1,toc.json,index,cms,payer\n",
            "2,https://example.com/rates/in0.json,in0.json,cms,payer\n",
            "3,https://example.com/allowed.json,allowed amounts,cms,payer\n"
        )
    );
    assert_eq!(
        text(journal.store().tables.links_csv()),
        format!(
            "{}{}{}{}{}{}{}",
            LINKS_HEADER,
            "1,1,index_file,2,rate_file\n",
            "2,1,plan,2,rate_file\n",
            "3,2,plan,2,rate_file\n",
            "4,1,index_file,3,rate_file\n",
            "5,1,plan,3,rate_file\n",
            "6,2,plan,3,rate_file\n"
        )
    );
}

#[test]
fn index_document_without_structures_writes_only_the_index_file() {
    let mut journal = Journal::new(RecordingRepo::new(None));
    let results = parse_index_file_sync(&mut journal, "toc.json", &index_file(vec![])).unwrap();
    assert_eq!(results.index_file_id, 100);
    assert_eq!(results.num_reporting_structures, 0);
    assert_eq!(results.num_plans, 0);
    assert_eq!(results.num_rate_files, 0);
    assert_eq!(
        journal.store().files,
        vec![(100, "toc.json".to_string(), "index".to_string(), "cms".to_string(), "payer".to_string())]
    );
    assert!(journal.store().plans.is_empty());
    assert!(journal.store().links.is_empty());
}

#[test]
fn index_document_counts_over_all_structures() {
    let mut journal = Journal::new(RecordingRepo::new(None));
    let document = index_file(vec![
        structure(2, Some(1), true),
        structure(0, Some(3), false),
        structure(4, None, true),
    ]);
    let results = parse_index_file_sync(&mut journal, "toc.json", &document).unwrap();
    assert_eq!(results.num_reporting_structures, 3);
    assert_eq!(results.num_plans, 6);
    assert_eq!(results.num_rate_files, 6);
    assert_eq!(journal.store().plans.len(), 6);
    assert_eq!(journal.store().files.len(), 7);
    assert_eq!(journal.store().links.len(), (2 + 2 * 2) + 3 + (1 + 4));
    // Links of the second structure start at the index file and end at its files only.
    assert_eq!(journal.store().links[6], link(7, 100, "index_file", 103));
    assert_eq!(journal.store().links[7], link(8, 100, "index_file", 104));
    assert_eq!(journal.store().links[8], link(9, 100, "index_file", 105));
    // Links of the third structure use its own plans.
    assert_eq!(journal.store().links[9], link(10, 100, "index_file", 106));
    assert_eq!(journal.store().links[10], link(11, 502, "plan", 106));
    assert_eq!(journal.store().links[13], link(14, 505, "plan", 106));
}

#[test]
fn store_error_ends_the_ingestion() {
    let mut journal = Journal::new(RecordingRepo::new(Some(1)));
    let result = parse_index_file_sync(&mut journal, "toc.json", &index_file(vec![structure(1, None, true)]));
    assert_eq!(
        result.err(),
        Some(IngestError::Store(StoreError::Backend("disk full".to_string())))
    );
    assert_eq!(journal.store().writes, 1);

    let mut journal = Journal::new(RecordingRepo::new(Some(3)));
    let result = parse_index_file_sync(&mut journal, "toc.json", &index_file(vec![structure(1, None, true)]));
    assert_eq!(
        result.err(),
        Some(IngestError::Store(StoreError::Backend("disk full".to_string())))
    );
    assert_eq!(journal.store().files.len(), 1);
    assert_eq!(journal.store().plans.len(), 1);
    assert!(journal.store().links.is_empty());
}

#[test]
fn consumer_takes_structures_in_the_order_sent() {
    let (metadata_sender, metadata_receiver) = sync_channel::<IndexFileMetadata>(1);
    let (structure_sender, structure_receiver) = sync_channel::<ReportingStructure>(8);
    let mut metadata = ChannelGenerator::new(metadata_receiver);
    let mut structures = ChannelGenerator::new(structure_receiver);
    metadata_sender
        .send(IndexFileMetadata {
            reporting_entity_name: "cms".to_string(),
            reporting_entity_type: "payer".to_string(),
        })
        .unwrap();
    structure_sender.send(structure(1, Some(1), false)).unwrap();
    structure_sender.send(structure(2, None, true)).unwrap();
    drop(metadata_sender);
    drop(structure_sender);

    let mut journal = Journal::new(RecordingRepo::new(None));
    let results =
        parse_index_file_async(&mut journal, "toc.json", &mut metadata, &mut structures, 8)
            .unwrap();
    assert_eq!(results.index_file_id, 100);
    assert_eq!(results.reporting_entity_name, "cms");
    assert_eq!(results.reporting_entity_type, "payer");
    assert_eq!(results.num_reporting_structures, 2);
    assert_eq!(results.num_plans, 3);
    assert_eq!(results.num_rate_files, 2);
    assert_eq!(journal.store().files[0].1, "toc.json");
    assert_eq!(journal.store().files[0].2, "index");
    assert_eq!(journal.store().files[1].2, "in0.json");
    assert_eq!(journal.store().files[2].2, "allowed amounts");
    assert_eq!(
        journal.store().links,
        vec![
            link(1, 100, "index_file", 101),
            link(2, 500, "plan", 101),
            link(3, 100, "index_file", 102),
            link(4, 501, "plan", 102),
            link(5, 502, "plan", 102),
        ]
    );
}

#[test]
fn consumer_without_metadata_writes_nothing() {
    let (metadata_sender, metadata_receiver) = sync_channel::<IndexFileMetadata>(1);
    let (structure_sender, structure_receiver) = sync_channel::<ReportingStructure>(8);
    let mut metadata = ChannelGenerator::new(metadata_receiver);
    let mut structures = ChannelGenerator::new(structure_receiver);
    structure_sender.send(structure(1, Some(1), false)).unwrap();
    drop(metadata_sender);
    drop(structure_sender);
    let mut journal = Journal::new(RecordingRepo::new(None));
    let result =
        parse_index_file_async(&mut journal, "toc.json", &mut metadata, &mut structures, 8);
    assert_eq!(result.err(), Some(IngestError::NoMetadata));
    assert_eq!(journal.store().writes, 0);
}

#[test]
fn consumer_holds_no_more_structures_than_it_was_told_while_metadata_is_late() {
    let (_metadata_sender, metadata_receiver) = sync_channel::<IndexFileMetadata>(1);
    let (structure_sender, structure_receiver) = sync_channel::<ReportingStructure>(8);
    let mut metadata = ChannelGenerator::new(metadata_receiver);
    let mut structures = ChannelGenerator::new(structure_receiver);
    structure_sender.send(structure(1, Some(1), false)).unwrap();
    structure_sender.send(structure(1, Some(1), false)).unwrap();
    structure_sender.send(structure(1, Some(1), false)).unwrap();
    let mut journal = Journal::new(RecordingRepo::new(None));
    let result =
        parse_index_file_async(&mut journal, "toc.json", &mut metadata, &mut structures, 2);
    assert_eq!(result.err(), Some(IngestError::MetadataLate));
    assert_eq!(journal.store().writes, 0);
    drop(metadata);
    drop(structures);
    assert!(structure_sender.send(structure(0, None, false)).is_err());
}

#[test]
fn consumer_takes_metadata_that_comes_behind_the_whole_array() {
    let (metadata_sender, metadata_receiver) = sync_channel::<IndexFileMetadata>(1);
    let (structure_sender, structure_receiver) = sync_channel::<ReportingStructure>(8);
    let mut metadata = ChannelGenerator::new(metadata_receiver);
    let mut structures = ChannelGenerator::new(structure_receiver);
    structure_sender.send(structure(1, Some(1), false)).unwrap();
    structure_sender.send(structure(2, None, true)).unwrap();
    drop(structure_sender);
    metadata_sender
        .send(IndexFileMetadata {
            reporting_entity_name: "cms".to_string(),
            reporting_entity_type: "payer".to_string(),
        })
        .unwrap();
    drop(metadata_sender);
    let mut journal = Journal::new(RecordingRepo::new(None));
    let results =
        parse_index_file_async(&mut journal, "toc.json", &mut metadata, &mut structures, 0)
            .unwrap();
    assert_eq!(results.num_reporting_structures, 2);
    assert_eq!(results.num_plans, 3);
    assert_eq!(results.num_rate_files, 2);
    assert_eq!(journal.store().files[0].2, "index");
    assert_eq!(journal.store().files[0].3, "cms");
}

#[test]
fn consumer_that_fails_lets_go_of_the_channel() {
    let (metadata_sender, metadata_receiver) = sync_channel::<IndexFileMetadata>(1);
    let (structure_sender, structure_receiver) = sync_channel::<ReportingStructure>(8);
    let mut metadata = ChannelGenerator::new(metadata_receiver);
    let mut structures = ChannelGenerator::new(structure_receiver);
    metadata_sender
        .send(IndexFileMetadata {
            reporting_entity_name: "cms".to_string(),
            reporting_entity_type: "payer".to_string(),
        })
        .unwrap();
    structure_sender.send(structure(1, Some(1), false)).unwrap();
    structure_sender.send(structure(1, Some(1), false)).unwrap();
    let mut journal = Journal::new(RecordingRepo::new(Some(2)));
    let result =
        parse_index_file_async(&mut journal, "toc.json", &mut metadata, &mut structures, 8);
    assert_eq!(
        result.err(),
        Some(IngestError::Store(StoreError::Backend("disk full".to_string())))
    );
    // Once the receiving halves are let go of, a producer that still sends finds
    // the channel closed.
    drop(metadata);
    drop(structures);
    assert!(structure_sender.send(structure(0, None, false)).is_err());
}

fn summary() -> IndexFileParsingResults {
    IndexFileParsingResults {
        index_file_id: 1,
        reporting_entity_name: "cms".to_string(),
        reporting_entity_type: "payer".to_string(),
        num_reporting_structures: 3,
        num_plans: 4,
        num_rate_files: 5,
    }
}

fn decoded() -> AsyncIndexFile {
    AsyncIndexFile {
        reporting_entity_name: "cms".to_string(),
        reporting_entity_type: "payer".to_string(),
        reporting_structure_processing_stats: ProcessingStats { num_reporting_structures: 3 },
    }
}

#[test]
fn pipeline_returns_the_summary_when_both_tasks_succeed() {
    let result = pipeline_result(Ok(decoded()), Ok(summary())).unwrap();
    assert_eq!(result.num_reporting_structures, 3);
    assert_eq!(result.num_plans, 4);
    assert_eq!(result.num_rate_files, 5);
}

#[test]
fn pipeline_surfaces_the_consumer_error_after_an_early_exit() {
    let result = pipeline_result(Ok(decoded()), Err(IngestError::Store(StoreError::IdsExhausted)));
    assert_eq!(result.err(), Some(IngestError::Store(StoreError::IdsExhausted)));
}

#[test]
fn pipeline_prefers_the_decode_error() {
    let malformed = DecodeError::Malformed("EOF while parsing a list".to_string());
    let result = pipeline_result(
        Err(DecodeError::Malformed("EOF while parsing a list".to_string())),
        Err(IngestError::Store(StoreError::IdsExhausted)),
    );
    assert_eq!(result.err(), Some(IngestError::Decode(malformed)));
    let result = pipeline_result(
        Err(DecodeError::Malformed("EOF while parsing a list".to_string())),
        Ok(summary()),
    );
    assert_eq!(
        result.err(),
        Some(IngestError::Decode(DecodeError::Malformed("EOF while parsing a list".to_string())))
    );
}

#[test]
fn usual_store_has_the_usual_paths_and_no_records() {
    let repo = _get_repo();
    assert_eq!(repo.files_csv_path, "./db/files.csv");
    assert_eq!(repo.links_csv_path, "./db/links.csv");
    assert_eq!(repo.plans_csv_path, "./db/plans.csv");
    assert_eq!(text(repo.tables.files_csv()), FILES_HEADER);
    assert_eq!(text(repo.tables.links_csv()), LINKS_HEADER);
    assert_eq!(text(repo.tables.plans_csv()), PLANS_HEADER);
}

fn metadata() -> IndexFileMetadata {
    IndexFileMetadata {
        reporting_entity_name: "cms".to_string(),
        reporting_entity_type: "payer".to_string(),
    }
}

#[test]
fn wait_is_over_when_the_metadata_is_there() {
    let wait = MetadataWait::new(2);
    match wait.polled(Some(metadata())) {
        AfterPoll::Ready(announced, pending) => {
            assert_eq!(announced.reporting_entity_name, "cms");
            assert!(pending.is_empty());
        }
        _ => panic!("the metadata was there"),
    }
}

#[test]
fn wait_holds_structures_in_their_order_up_to_its_limit() {
    let mut wait = MetadataWait::new(2);
    for plans in 1..=3usize {
        wait = match wait.polled(None) {
            AfterPoll::Take(taking) => match taking.took(Some(structure(plans, None, false))) {
                AfterTake::Poll(next) => next,
                AfterTake::Await(_) => panic!("a structure came"),
            },
            _ => panic!("there was room for another structure"),
        };
    }
    // Three structures are held, one more than may be: metadata that is there now
    // still ends the wait well, with all three.
    match MetadataWait::new(0).polled(None) {
        AfterPoll::Take(_) => {}
        _ => panic!("nothing is held yet"),
    }
    match wait.polled(Some(metadata())) {
        AfterPoll::Ready(_, pending) => {
            let plans: Vec<usize> = pending.iter().map(|n| n.reporting_plans.len()).collect();
            assert_eq!(plans, vec![1, 2, 3]);
        }
        _ => panic!("the metadata was there"),
    }
}

#[test]
fn wait_is_given_up_with_one_structure_too_many_and_no_metadata() {
    let mut wait = MetadataWait::new(1);
    for _ in 0..2 {
        wait = match wait.polled(None) {
            AfterPoll::Take(taking) => match taking.took(Some(structure(1, None, false))) {
                AfterTake::Poll(next) => next,
                AfterTake::Await(_) => panic!("a structure came"),
            },
            _ => panic!("there was room for another structure"),
        };
    }
    assert!(matches!(wait.polled(None), AfterPoll::Late));
}

#[test]
fn wait_turns_to_the_metadata_when_the_structures_end() {
    let wait = MetadataWait::new(4);
    let taking = match wait.polled(None) {
        AfterPoll::Take(taking) => taking,
        _ => panic!("nothing is held yet"),
    };
    let taking = match taking.took(Some(structure(2, None, true))) {
        AfterTake::Poll(next) => match next.polled(None) {
            AfterPoll::Take(taking) => taking,
            _ => panic!("there was room for another structure"),
        },
        AfterTake::Await(_) => panic!("a structure came"),
    };
    let pending = match taking.took(None) {
        AfterTake::Await(pending) => pending,
        AfterTake::Poll(_) => panic!("the structures ended"),
    };
    assert_eq!(pending.len(), 1);
    let (announced, pending) = MetadataWait::awaited(pending, Some(metadata())).unwrap();
    assert_eq!(announced.reporting_entity_type, "payer");
    assert_eq!(pending.len(), 1);
    assert_eq!(MetadataWait::awaited(vec![], None).err(), Some(IngestError::NoMetadata));
}

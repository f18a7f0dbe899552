use rust_cms_json_parser::error::DecodeError;
use rust_cms_json_parser::index_file_parsing::csv_meta_repository::{CsvMetaRepository, CsvTables};
use rust_cms_json_parser::index_file_parsing::index_file::{
    LinkedFile, ReportingPlan, ReportingStructure,
};
use rust_cms_json_parser::index_file_parsing::meta_repository_trait::{
    DbLinkInput, FileRowInput, Journal, MetaRepository, PlanInput,
};
use rust_cms_json_parser::index_file_parsing::seed_deserialization::{
    index_file_channel, DocumentField, FieldValue,
};
use rust_cms_json_parser::index_file_parsing::{parse_index_file_async, pipeline_result};

fn plan(name: &str, id_type: &str, id: &str, market: &str) -> ReportingPlan {
    ReportingPlan {
        plan_name: name.to_string(),
        plan_id_type: id_type.to_string(),
        plan_id: id.to_string(),
        plan_market_type: market.to_string(),
    }
}

fn linked(description: &str, location: &str) -> LinkedFile {
    LinkedFile { description: description.to_string(), location: location.to_string() }
}

/// A table-of-contents document of two reporting structures, key by key.
fn example_index_file() -> Vec<DocumentField> {
    let structures: Vec<Result<ReportingStructure, DecodeError>> = vec![
        Ok(ReportingStructure {
            reporting_plans: vec![
                plan("medicaid", "hios", "1111111111", "individual"),
                plan("medicare", "hios", "0000000000", "individual"),
            ],
            in_network_files: Some(vec![
                linked("in-network file", "https://www.some_site.com/files/in-network-file-123456.json"),
                linked("in-network file", "https://www.some_site.com/files/in-network-file-7891011.json"),
            ]),
            allowed_amount_file: Some(linked(
                "allowed amount file",
                "https://www.some_site.com/files/allowed-amounts.json",
            )),
        }),
        Ok(ReportingStructure {
            reporting_plans: vec![plan("medicare", "hios", "0000000000", "individual")],
            in_network_files: Some(vec![linked(
                "in-network file",
                "https://www.some_site.com/files/in-network-file.json",
            )]),
            allowed_amount_file: None,
        }),
    ];
    vec![
        DocumentField {
            key: "reporting_entity_name".to_string(),
            value: FieldValue::Text("medicare".to_string()),
        },
        DocumentField {
            key: "reporting_entity_type".to_string(),
            value: FieldValue::Text("medicare".to_string()),
        },
        DocumentField {
            key: "reporting_structure".to_string(),
            value: FieldValue::Elements(structures),
        },
    ]
}

#[test]
fn it_parses_the_example_index_file() {
    let (mut seed, mut metadata, mut reporting_structures) = index_file_channel(32);
    let decoded = seed.deserialize(example_index_file());
    drop(seed);

    let mut journal = Journal::new(CsvMetaRepository {
        files_csv_path: "./db/files.csv",
        links_csv_path: "./db/links.csv",
        plans_csv_path: "./db/plans.csv",
        tables: CsvTables::open(b"id\n".to_vec(), b"id\n".to_vec(), b"id\n".to_vec()),
    });
    let consumed = parse_index_file_async(
        &mut journal,
        "./price-transparency-guide/examples/table-of-contents/table-of-contents-sample.json",
        &mut metadata,
        &mut reporting_structures,
        32,
    );

    let results = pipeline_result(decoded, consumed).unwrap();
    assert_eq!(results.index_file_id, 1);
    assert_eq!(results.reporting_entity_name, "medicare");
    assert_eq!(results.reporting_entity_type, "medicare");
    assert_eq!(results.num_reporting_structures, 2);
    assert_eq!(results.num_plans, 3);
    assert_eq!(results.num_rate_files, 4);

    let files = String::from_utf8(journal.store().tables.files_csv().clone()).unwrap();
    assert_eq!(
        files,
        "id\n\
         1,./price-transparency-guide/examples/table-of-contents/table-of-contents-sample.json,index,medicare,medicare\n\
         2,https://www.some_site.com/files/in-network-file-123456.json,in-network-file-123456.json,medicare,medicare\n\
         3,https://www.some_site.com/files/in-network-file-7891011.json,in-network-file-7891011.json,medicare,medicare\n\
         4,https://www.some_site.com/files/allowed-amounts.json,allowed amount file,medicare,medicare\n\
         5,https://www.some_site.com/files/in-network-file.json,in-network-file.json,medicare,medicare\n"
    );
    let plans = String::from_utf8(journal.store().tables.plans_csv().clone()).unwrap();
    assert_eq!(
        plans,
        "id\n1,medicaid,hios,1111111111,individual\n2,medicare,hios,0000000000,individual\n\
         3,medicare,hios,0000000000,individual\n"
    );
    let links = String::from_utf8(journal.store().tables.links_csv().clone()).unwrap();
    assert_eq!(links.lines().count(), 1 + (3 + 2 * 3) + (1 + 1));
    assert_eq!(links.lines().nth(1), Some("1,1,index_file,2,rate_file"));
    assert_eq!(links.lines().nth(9), Some("9,2,plan,4,rate_file"));
    assert_eq!(links.lines().nth(10), Some("10,1,index_file,5,rate_file"));
    assert_eq!(links.lines().nth(11), Some("11,3,plan,5,rate_file"));
}

#[test]
fn it_writes_to_csv_meta_repo() {
    let mut repo: CsvMetaRepository = CsvMetaRepository {
        files_csv_path: "./db/files.csv",
        links_csv_path: "./db/links.csv",
        plans_csv_path: "./db/plans.csv",
        tables: CsvTables::new(),
    };

    let file_id: usize = repo
        .add_file(FileRowInput {
            url: "example.com/file.json",
            filename: "file.json",
            reporting_entity_name: "drew",
            reporting_entity_type: "type1",
        })
        .unwrap();

    let plan_id: usize = repo
        .add_plan(PlanInput {
            plan_name: "plan1",
            plan_id_type: "type1",
            plan_market_type: "market_type1",
            plan_id: "0000000",
        })
        .unwrap();

    repo.add_link(DbLinkInput {
        from_id: file_id,
        from_type: "rate_file",
        to_id: plan_id,
        to_type: "plan",
    })
    .unwrap();

    assert_eq!(file_id, 1);
    assert_eq!(plan_id, 1);
    assert_eq!(
        String::from_utf8(repo.tables.files_csv().clone()).unwrap(),
        "id,url,filename,reporting_entity_name,reporting_entity_type\n\
         1,example.com/file.json,file.json,drew,type1\n"
    );
    assert_eq!(
        String::from_utf8(repo.tables.plans_csv().clone()).unwrap(),
        "id,plan_name,plan_id_type,plan_id,plan_market_type\n1,plan1,type1,0000000,market_type1\n"
    );
    assert_eq!(
        String::from_utf8(repo.tables.links_csv().clone()).unwrap(),
        "id,from_id,from_type,to_id,to_type\n1,1,rate_file,1,plan\n"
    );
}

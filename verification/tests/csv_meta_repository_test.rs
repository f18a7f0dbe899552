use rust_cms_json_parser::error::StoreError;
use rust_cms_json_parser::index_file_parsing::csv_meta_repository::{
    id_after, next_id, CsvMetaRepository, CsvRow, CsvTables,
};
use rust_cms_json_parser::index_file_parsing::index_file::ReportingPlan;
use rust_cms_json_parser::index_file_parsing::meta_repository_trait::{
    DbLink, DbLinkInput, FileRow, FileRowInput, FromInput, MetaRepository, Plan, PlanInput,
};
use rust_cms_json_parser::index_file_parsing::mysql_meta_repository::{link_params, LinkParams};

fn file_input<'a>() -> FileRowInput<'a> {
    FileRowInput {
        url: "example.com/file.json",
        filename: "file.json",
        reporting_entity_name: "drew",
        reporting_entity_type: "type1",
    }
}

fn text(bytes: &Vec<u8>) -> String {
    String::from_utf8(bytes.clone()).unwrap()
}

#[test]
fn rows_take_their_fields_from_the_input() {
    let input = file_input();
    let row = FileRow::from_input(42, &input);
    assert_eq!(row.id, 42);
    assert_eq!(row.url, "example.com/file.json");
    assert_eq!(row.filename, "file.json");
    assert_eq!(row.reporting_entity_name, "drew");
    assert_eq!(row.reporting_entity_type, "type1");

    let input = DbLinkInput { from_id: 1, from_type: "plan", to_id: 2, to_type: "rate_file" };
    let row = DbLink::from_input(3, &input);
    assert_eq!((row.id, row.from_id, row.from_type, row.to_id, row.to_type), (3, 1, "plan", 2, "rate_file"));

    let input = PlanInput {
        plan_name: "plan1",
        plan_id_type: "type1",
        plan_market_type: "market_type1",
        plan_id: "0000000",
    };
    let row = Plan::from_input(9, &input);
    assert_eq!(
        (row.id, row.plan_name, row.plan_id_type, row.plan_market_type, row.plan_id),
        (9, "plan1", "type1", "market_type1", "0000000")
    );
}

#[test]
fn plan_input_borrows_the_reporting_plan() {
    let plan = ReportingPlan {
        plan_name: "gold".to_string(),
        plan_id_type: "EIN".to_string(),
        plan_id: "12-345".to_string(),
        plan_market_type: "group".to_string(),
    };
    let input = PlanInput::from_reporting_plan(&plan);
    assert_eq!(input.plan_name, "gold");
    assert_eq!(input.plan_id_type, "EIN");
    assert_eq!(input.plan_id, "12-345");
    assert_eq!(input.plan_market_type, "group");
}

#[test]
fn file_row_iterator_yields_five_fields() {
    let input = file_input();
    let mut fields = FileRow::from_input(12, &input).into_iter();
    assert_eq!(fields.next(), Some(b"12".to_vec()));
    assert_eq!(fields.next(), Some(b"example.com/file.json".to_vec()));
    assert_eq!(fields.next(), Some(b"file.json".to_vec()));
    assert_eq!(fields.next(), Some(b"drew".to_vec()));
    assert_eq!(fields.next(), Some(b"type1".to_vec()));
    assert_eq!(fields.next(), None);
    assert_eq!(fields.next(), None);
}

#[test]
fn link_row_iterator_yields_five_fields() {
    let input = DbLinkInput { from_id: 10, from_type: "index_file", to_id: 205, to_type: "rate_file" };
    let mut fields = DbLink::from_input(3, &input).into_iter();
    assert_eq!(fields.next(), Some(b"3".to_vec()));
    assert_eq!(fields.next(), Some(b"10".to_vec()));
    assert_eq!(fields.next(), Some(b"index_file".to_vec()));
    assert_eq!(fields.next(), Some(b"205".to_vec()));
    assert_eq!(fields.next(), Some(b"rate_file".to_vec()));
    assert_eq!(fields.next(), None);
}

#[test]
fn plan_row_iterator_yields_five_fields() {
    let input = PlanInput {
        plan_name: "plan1",
        plan_id_type: "type1",
        plan_market_type: "market_type1",
        plan_id: "0000000",
    };
    let mut fields = Plan::from_input(1, &input).into_iter();
    assert_eq!(fields.next(), Some(b"1".to_vec()));
    assert_eq!(fields.next(), Some(b"plan1".to_vec()));
    assert_eq!(fields.next(), Some(b"type1".to_vec()));
    assert_eq!(fields.next(), Some(b"0000000".to_vec()));
    assert_eq!(fields.next(), Some(b"market_type1".to_vec()));
    assert_eq!(fields.next(), None);
}

#[test]
fn row_field_by_column() {
    let input = file_input();
    let row = FileRow::from_input(7, &input);
    assert_eq!(row.field(0), Some(b"7".to_vec()));
    assert_eq!(row.field(4), Some(b"type1".to_vec()));
    assert_eq!(row.field(5), None);
    assert_eq!(row.field(usize::MAX), None);
}

#[test]
fn next_id_counts_records_behind_the_header() {
    assert_eq!(next_id(b""), Ok(1));
    assert_eq!(next_id(b"id,url\n"), Ok(1));
    assert_eq!(next_id(b"id,url\n1,a\n"), Ok(2));
    assert_eq!(next_id(b"id,url\n1,a\n2,b\n3,c\n"), Ok(4));
    assert_eq!(next_id(b"id,url\n1,\"a\nb\"\n"), Ok(2));
}

#[test]
fn store_numbers_records_after_those_in_the_table() {
    let mut repo = CsvMetaRepository {
        files_csv_path: "./db/files.csv",
        links_csv_path: "./db/links.csv",
        plans_csv_path: "./db/plans.csv",
        tables: CsvTables::open(
            b"id,url,filename,reporting_entity_name,reporting_entity_type\n1,u,f,n,t\n".to_vec(),
            b"id,from_id,from_type,to_id,to_type\n".to_vec(),
            b"id,plan_name,plan_id_type,plan_id,plan_market_type\n".to_vec(),
        ),
    };
    assert_eq!(repo.add_file(file_input()), Ok(2));
    assert_eq!(repo.add_file(file_input()), Ok(3));
    assert_eq!(
        repo.add_link(DbLinkInput { from_id: 2, from_type: "index_file", to_id: 3, to_type: "rate_file" }),
        Ok(1)
    );
    assert_eq!(
        text(repo.tables.files_csv()),
        "id,url,filename,reporting_entity_name,reporting_entity_type\n1,u,f,n,t\n\
         2,example.com/file.json,file.json,drew,type1\n3,example.com/file.json,file.json,drew,type1\n"
    );
    assert_eq!(
        text(repo.tables.links_csv()),
        "id,from_id,from_type,to_id,to_type\n1,2,index_file,3,rate_file\n"
    );
    assert_eq!(
        text(repo.tables.plans_csv()),
        "id,plan_name,plan_id_type,plan_id,plan_market_type\n"
    );
}

#[test]
fn store_quotes_fields_that_need_it() {
    let mut repo = CsvMetaRepository::new("f.csv", "l.csv", "p.csv");
    let id = repo
        .add_plan(PlanInput {
            plan_name: "gold, silver",
            plan_id_type: "say \"EIN\"",
            plan_market_type: "",
            plan_id: "two\nlines",
        })
        .unwrap();
    assert_eq!(id, 1);
    assert_eq!(
        text(repo.tables.plans_csv()),
        "id,plan_name,plan_id_type,plan_id,plan_market_type\n\
         1,\"gold, silver\",\"say \"\"EIN\"\"\",\"two\nlines\",\n"
    );
}

#[test]
fn new_store_holds_its_header_rows() {
    let repo = CsvMetaRepository::new("f.csv", "l.csv", "p.csv");
    assert_eq!(
        text(repo.tables.files_csv()),
        "id,url,filename,reporting_entity_name,reporting_entity_type\n"
    );
    assert_eq!(text(repo.tables.links_csv()), "id,from_id,from_type,to_id,to_type\n");
    assert_eq!(
        text(repo.tables.plans_csv()),
        "id,plan_name,plan_id_type,plan_id,plan_market_type\n"
    );
    assert_eq!(next_id(repo.tables.files_csv()), Ok(1));
}

#[test]
fn ids_of_a_new_store_are_unused_and_rise_by_one() {
    let mut repo = CsvMetaRepository::new("f.csv", "l.csv", "p.csv");
    assert_eq!(repo.add_file(file_input()), Ok(1));
    assert_eq!(repo.add_file(file_input()), Ok(2));
    assert_eq!(repo.add_file(file_input()), Ok(3));
    // Each table numbers its own records.
    assert_eq!(
        repo.add_link(DbLinkInput { from_id: 1, from_type: "index_file", to_id: 2, to_type: "rate_file" }),
        Ok(1)
    );
    // A reader of the table agrees with the store on the next identifier.
    assert_eq!(next_id(repo.tables.files_csv()), Ok(4));
    assert_eq!(next_id(repo.tables.links_csv()), Ok(2));
}

#[test]
fn row_writer_returns_the_identifier_behind_the_count() {
    let mut table = b"id,url,filename,reporting_entity_name,reporting_entity_type\n".to_vec();
    let input = file_input();
    let id = CsvMetaRepository::_write_row_to_file_db::<FileRowInput, FileRow>(&mut table, 41, &input);
    assert_eq!(id, Ok(42));
    let next = CsvMetaRepository::_write_row_to_file_db::<FileRowInput, FileRow>(&mut table, 42, &input);
    assert_eq!(next, Ok(43));
    assert_eq!(
        text(&table),
        "id,url,filename,reporting_entity_name,reporting_entity_type\n\
         42,example.com/file.json,file.json,drew,type1\n\
         43,example.com/file.json,file.json,drew,type1\n"
    );
    let full = CsvMetaRepository::_write_row_to_file_db::<FileRowInput, FileRow>(
        &mut table,
        usize::MAX,
        &input,
    );
    assert_eq!(full, Err(StoreError::IdsExhausted));
    assert_eq!(text(&table).lines().count(), 3);
}

#[test]
fn id_follows_the_record_count() {
    assert_eq!(id_after(0), Ok(1));
    assert_eq!(id_after(41), Ok(42));
    assert_eq!(id_after(usize::MAX - 1), Ok(usize::MAX));
    assert_eq!(id_after(usize::MAX), Err(StoreError::IdsExhausted));
}

#[test]
fn table_length_is_the_record_count() {
    let repo = CsvMetaRepository::new("f.csv", "l.csv", "p.csv");
    assert_eq!(repo._get_length_of_file_db(b""), 0);
    assert_eq!(repo._get_length_of_file_db(b"h\n"), 0);
    assert_eq!(repo._get_length_of_file_db(b"h\na\nb\n"), 2);
}

#[test]
fn store_errors_can_be_told_apart() {
    assert_ne!(StoreError::IdsExhausted, StoreError::Backend("full".to_string()));
    assert_ne!(StoreError::Backend("a".to_string()), StoreError::Backend("b".to_string()));
}

#[test]
fn link_to_a_plan_starts_at_a_data_file() {
    let link = DbLinkInput { from_id: 4, from_type: "rate_file", to_id: 9, to_type: "plan" };
    assert_eq!(
        link_params(&link),
        Some(LinkParams { index_file_id: None, data_file_id: 4, plan_id: Some(9) })
    );
}

#[test]
fn link_to_a_rate_file_starts_at_the_index_file() {
    let link = DbLinkInput { from_id: 4, from_type: "index_file", to_id: 9, to_type: "rate_file" };
    assert_eq!(
        link_params(&link),
        Some(LinkParams { index_file_id: Some(4), data_file_id: 9, plan_id: None })
    );
}

#[test]
fn link_to_anything_else_has_no_row() {
    let link = DbLinkInput { from_id: 4, from_type: "plan", to_id: 9, to_type: "index_file" };
    assert_eq!(link_params(&link), None);
    let link = DbLinkInput { from_id: 4, from_type: "plan", to_id: 9, to_type: "" };
    assert_eq!(link_params(&link), None);
}

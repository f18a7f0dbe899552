//! A metadata store that keeps each of its three tables as CSV text.

use vstd::prelude::*;
use vstd::string::*;
use vstd::utf8::encode_utf8;
use crate::error::StoreError;
use crate::index_file_parsing::meta_repository_trait::{
    DbLink, DbLinkInput, FileRecord, FileRow, FileRowInput, FromInput, LinkRecord, MetaRepository,
    Plan, PlanInput, PlanRecord,
};
use crate::text::{decimal_bytes, decimal_digits};

verus! {

/// `csv::Error`, what the CSV writer fails with.
#[verifier::external_type_specification]
#[verifier::external_body]
pub struct ExCsvError(csv::Error);

/// The number of records that a CSV reader with its default settings
/// finds in the given bytes. By default the first row is taken for a
/// header and is not counted.
pub uninterp spec fn csv_record_count(db: Seq<u8>) -> usize;

/// The bytes that a CSV writer with its default settings writes for one
/// record of the given fields.
pub uninterp spec fn csv_record(fields: Seq<Seq<u8>>) -> Seq<u8>;

/// The contents of a list of fields.
pub open spec fn field_bytes(fields: Seq<Vec<u8>>) -> Seq<Seq<u8>> {
    fields.map_values(|field: Vec<u8>| field@)
}

/// `csv::Reader::from_reader`, `Reader::into_records` and the count of
/// what that iterator yields: the number of records in the bytes, rows
/// that the reader finds fault with included.
#[verifier::external_body]
fn count_records(db: &[u8]) -> (n: usize)
    ensures
        n == csv_record_count(db@),
{
    csv::Reader::from_reader(db).into_records().count()
}

/// `csv::Writer::from_writer` on an empty buffer, `Writer::write_record`
/// and `Writer::into_inner`: the bytes of one record. The writer succeeds:
/// it fails only where the buffer under it refuses bytes, which a `Vec`
/// does not, or where a record has another number of fields than the
/// first one written, and this writer writes one record.
#[verifier::external_body]
fn encode_record(fields: &Vec<Vec<u8>>) -> (r: Result<Vec<u8>, csv::Error>)
    ensures
        r is Ok,
        r matches Ok(bytes) ==> bytes@ == csv_record(field_bytes(fields@)),
{
    let mut writer = csv::Writer::from_writer(Vec::new());
    writer.write_record(fields)?;
    match writer.into_inner() {
        Ok(bytes) => Ok(bytes),
        Err(e) => Err(csv::Error::from(e.into_error())),
    }
}

/// A record of a table, as the fields of its row.
pub trait CsvRow {
    /// The fields of the row, in the order of its columns.
    spec fn fields(&self) -> Seq<Seq<u8>>;

    /// A row has five columns.
    proof fn lemma_width(&self)
        ensures
            self.fields().len() == 5,
    ;

    /// The field in one column of the row; `None` behind the last column.
    fn field(&self, index: usize) -> (field: Option<Vec<u8>>)
        ensures
            match field {
                Some(bytes) => index < self.fields().len() && bytes@ == self.fields()[index as int],
                None => index >= self.fields().len(),
            },
    ;
}

/// The row of a file record: its identifier in decimal digits, then its
/// URL, its filename and the entity's name and type, as UTF-8.
pub open spec fn file_row_fields(row: FileRecord) -> Seq<Seq<u8>> {
    seq![
        decimal_digits(row.id as nat),
        encode_utf8(row.fields.url),
        encode_utf8(row.fields.filename),
        encode_utf8(row.fields.reporting_entity_name),
        encode_utf8(row.fields.reporting_entity_type),
    ]
}

/// The row of a link record: its identifier, then where it starts and
/// where it ends, each as an identifier in decimal digits and a kind.
pub open spec fn link_row_fields(row: LinkRecord) -> Seq<Seq<u8>> {
    seq![
        decimal_digits(row.id as nat),
        decimal_digits(row.fields.from_id as nat),
        encode_utf8(row.fields.from_type),
        decimal_digits(row.fields.to_id as nat),
        encode_utf8(row.fields.to_type),
    ]
}

/// The row of a plan record: its identifier in decimal digits, then the
/// plan's name, the kind of its identifier, its identifier and its
/// market, as UTF-8.
pub open spec fn plan_row_fields(row: PlanRecord) -> Seq<Seq<u8>> {
    seq![
        decimal_digits(row.id as nat),
        encode_utf8(row.fields.plan_name),
        encode_utf8(row.fields.plan_id_type),
        encode_utf8(row.fields.plan_id),
        encode_utf8(row.fields.plan_market_type),
    ]
}

impl<'a> CsvRow for FileRow<'a> {
    open spec fn fields(&self) -> Seq<Seq<u8>> {
        file_row_fields(self@)
    }

    proof fn lemma_width(&self) {
    }

    fn field(&self, index: usize) -> (field: Option<Vec<u8>>) {
        match index {
            0 => Some(decimal_bytes(self.id)),
            1 => Some(self.url.as_bytes_vec()),
            2 => Some(self.filename.as_bytes_vec()),
            3 => Some(self.reporting_entity_name.as_bytes_vec()),
            4 => Some(self.reporting_entity_type.as_bytes_vec()),
            _ => None,
        }
    }
}

impl<'a> CsvRow for DbLink<'a> {
    open spec fn fields(&self) -> Seq<Seq<u8>> {
        link_row_fields(self@)
    }

    proof fn lemma_width(&self) {
    }

    fn field(&self, index: usize) -> (field: Option<Vec<u8>>) {
        match index {
            0 => Some(decimal_bytes(self.id)),
            1 => Some(decimal_bytes(self.from_id)),
            2 => Some(self.from_type.as_bytes_vec()),
            3 => Some(decimal_bytes(self.to_id)),
            4 => Some(self.to_type.as_bytes_vec()),
            _ => None,
        }
    }
}

impl<'a> CsvRow for Plan<'a> {
    open spec fn fields(&self) -> Seq<Seq<u8>> {
        plan_row_fields(self@)
    }

    proof fn lemma_width(&self) {
    }

    fn field(&self, index: usize) -> (field: Option<Vec<u8>>) {
        match index {
            0 => Some(decimal_bytes(self.id)),
            1 => Some(self.plan_name.as_bytes_vec()),
            2 => Some(self.plan_id_type.as_bytes_vec()),
            3 => Some(self.plan_id.as_bytes_vec()),
            4 => Some(self.plan_market_type.as_bytes_vec()),
            _ => None,
        }
    }
}

/// Walks the fields of a file row.
pub struct FileRowIterator<'a> {
    file_row: FileRow<'a>,
    index: usize,
}

impl<'a> FileRowIterator<'a> {
    /// The row that is walked.
    pub closed spec fn row(&self) -> FileRecord {
        self.file_row@
    }

    /// The column that `next` returns next.
    pub closed spec fn position(&self) -> nat {
        self.index as nat
    }

    pub fn next(&mut self) -> (field: Option<Vec<u8>>)
        ensures
            final(self).row() == old(self).row(),
            match field {
                Some(bytes) => {
                    &&& old(self).position() < 5
                    &&& bytes@ == file_row_fields(old(self).row())[old(self).position() as int]
                    &&& final(self).position() == old(self).position() + 1
                },
                None => old(self).position() >= 5 && final(self).position() == old(
                    self,
                ).position(),
            },
    {
        let field = self.file_row.field(self.index);
        if field.is_some() {
            self.index = self.index + 1;
        }
        field
    }
}

impl<'a> FileRow<'a> {
    pub fn into_iter(self) -> (fields: FileRowIterator<'a>)
        ensures
            fields.row() == self@,
            fields.position() == 0,
    {
        FileRowIterator { file_row: self, index: 0 }
    }
}

/// Walks the fields of a link row.
pub struct DbLinkIterator<'a> {
    db_link: DbLink<'a>,
    index: usize,
}

impl<'a> DbLinkIterator<'a> {
    /// The row that is walked.
    pub closed spec fn row(&self) -> LinkRecord {
        self.db_link@
    }

    /// The column that `next` returns next.
    pub closed spec fn position(&self) -> nat {
        self.index as nat
    }

    pub fn next(&mut self) -> (field: Option<Vec<u8>>)
        ensures
            final(self).row() == old(self).row(),
            match field {
                Some(bytes) => {
                    &&& old(self).position() < 5
                    &&& bytes@ == link_row_fields(old(self).row())[old(self).position() as int]
                    &&& final(self).position() == old(self).position() + 1
                },
                None => old(self).position() >= 5 && final(self).position() == old(
                    self,
                ).position(),
            },
    {
        let field = self.db_link.field(self.index);
        if field.is_some() {
            self.index = self.index + 1;
        }
        field
    }
}

impl<'a> DbLink<'a> {
    pub fn into_iter(self) -> (fields: DbLinkIterator<'a>)
        ensures
            fields.row() == self@,
            fields.position() == 0,
    {
        DbLinkIterator { db_link: self, index: 0 }
    }
}

/// Walks the fields of a plan row.
pub struct PlanIterator<'a> {
    plan: Plan<'a>,
    index: usize,
}

impl<'a> PlanIterator<'a> {
    /// The row that is walked.
    pub closed spec fn row(&self) -> PlanRecord {
        self.plan@
    }

    /// The column that `next` returns next.
    pub closed spec fn position(&self) -> nat {
        self.index as nat
    }

    pub fn next(&mut self) -> (field: Option<Vec<u8>>)
        ensures
            final(self).row() == old(self).row(),
            match field {
                Some(bytes) => {
                    &&& old(self).position() < 5
                    &&& bytes@ == plan_row_fields(old(self).row())[old(self).position() as int]
                    &&& final(self).position() == old(self).position() + 1
                },
                None => old(self).position() >= 5 && final(self).position() == old(
                    self,
                ).position(),
            },
    {
        let field = self.plan.field(self.index);
        if field.is_some() {
            self.index = self.index + 1;
        }
        field
    }
}

impl<'a> Plan<'a> {
    pub fn into_iter(self) -> (fields: PlanIterator<'a>)
        ensures
            fields.row() == self@,
            fields.position() == 0,
    {
        PlanIterator { plan: self, index: 0 }
    }
}

/// The fields of a row, in the order of its columns.
fn row_fields<Row: CsvRow>(row: &Row) -> (fields: Vec<Vec<u8>>)
    ensures
        field_bytes(fields@) == row.fields(),
{
    proof {
        row.lemma_width();
    }
    let mut fields: Vec<Vec<u8>> = Vec::new();
    let mut index: usize = 0;
    while index < usize::MAX
        invariant
            index <= row.fields().len() < usize::MAX,
            index == fields.len(),
            field_bytes(fields@) == row.fields().take(index as int),
        decreases usize::MAX - index,
    {
        match row.field(index) {
            Some(bytes) => {
                proof {
                    assert(field_bytes(fields@.push(bytes)) =~= row.fields().take(index + 1));
                }
                fields.push(bytes);
            },
            None => {
                assert(row.fields().take(index as int) =~= row.fields());
                return fields;
            },
        }
        index += 1;
    }
    fields
}

/// The column names of the file table.
pub open spec fn file_header() -> Seq<Seq<u8>> {
    seq![
        encode_utf8("id"@),
        encode_utf8("url"@),
        encode_utf8("filename"@),
        encode_utf8("reporting_entity_name"@),
        encode_utf8("reporting_entity_type"@),
    ]
}

/// The column names of the link table.
pub open spec fn link_header() -> Seq<Seq<u8>> {
    seq![
        encode_utf8("id"@),
        encode_utf8("from_id"@),
        encode_utf8("from_type"@),
        encode_utf8("to_id"@),
        encode_utf8("to_type"@),
    ]
}

/// The column names of the plan table.
pub open spec fn plan_header() -> Seq<Seq<u8>> {
    seq![
        encode_utf8("id"@),
        encode_utf8("plan_name"@),
        encode_utf8("plan_id_type"@),
        encode_utf8("plan_id"@),
        encode_utf8("plan_market_type"@),
    ]
}

/// The bytes of one record of five pieces of text.
fn text_record(a: &str, b: &str, c: &str, d: &str, e: &str) -> (bytes: Vec<u8>)
    ensures
        bytes@ == csv_record(
            seq![
                encode_utf8(a@),
                encode_utf8(b@),
                encode_utf8(c@),
                encode_utf8(d@),
                encode_utf8(e@),
            ],
        ),
{
    let mut fields: Vec<Vec<u8>> = Vec::new();
    fields.push(a.as_bytes_vec());
    fields.push(b.as_bytes_vec());
    fields.push(c.as_bytes_vec());
    fields.push(d.as_bytes_vec());
    fields.push(e.as_bytes_vec());
    assert(field_bytes(fields@) =~= seq![
        encode_utf8(a@),
        encode_utf8(b@),
        encode_utf8(c@),
        encode_utf8(d@),
        encode_utf8(e@),
    ]);
    match encode_record(&fields) {
        Ok(bytes) => bytes,
        Err(_) => Vec::new(),
    }
}

/// The identifier of the record that follows `count` records: one more
/// than their number, as long as identifiers last.
pub fn id_after(count: usize) -> (r: Result<usize, StoreError>)
    ensures
        r == if count < usize::MAX {
            Ok::<usize, StoreError>((count + 1) as usize)
        } else {
            Err::<usize, StoreError>(StoreError::IdsExhausted)
        },
{
    if count < usize::MAX {
        Ok(count + 1)
    } else {
        Err(StoreError::IdsExhausted)
    }
}

/// The identifier of the next record of a table: one more than the
/// number of records that the table holds.
pub fn next_id(db: &[u8]) -> (r: Result<usize, StoreError>)
    ensures
        r == if csv_record_count(db@) < usize::MAX {
            Ok::<usize, StoreError>((csv_record_count(db@) + 1) as usize)
        } else {
            Err::<usize, StoreError>(StoreError::IdsExhausted)
        },
{
    id_after(count_records(db))
}

/// The contents of the three tables of a CSV store, as CSV text: a
/// header row, then one row for each record; and the number of records
/// in each.
pub struct CsvTables {
    files_csv: Vec<u8>,
    links_csv: Vec<u8>,
    plans_csv: Vec<u8>,
    files_count: usize,
    links_count: usize,
    plans_count: usize,
}

/// A metadata store whose three tables are CSV text. The paths say where
/// the tables are kept; the store itself works on their contents. Within
/// one table the identifiers rise by one from record to record.
pub struct CsvMetaRepository {
    pub files_csv_path: &'static str,
    pub links_csv_path: &'static str,
    pub plans_csv_path: &'static str,
    pub tables: CsvTables,
}

impl CsvTables {
    /// The file table as CSV text.
    pub closed spec fn files_table(&self) -> Seq<u8> {
        self.files_csv@
    }

    /// The link table as CSV text.
    pub closed spec fn links_table(&self) -> Seq<u8> {
        self.links_csv@
    }

    /// The plan table as CSV text.
    pub closed spec fn plans_table(&self) -> Seq<u8> {
        self.plans_csv@
    }

    /// The number of records in the file table.
    pub closed spec fn files_count(&self) -> usize {
        self.files_count
    }

    /// The number of records in the link table.
    pub closed spec fn links_count(&self) -> usize {
        self.links_count
    }

    /// The number of records in the plan table.
    pub closed spec fn plans_count(&self) -> usize {
        self.plans_count
    }

    /// Three tables without records: each holds its header row.
    pub fn new() -> (tables: Self)
        ensures
            tables.files_table() == csv_record(file_header()),
            tables.links_table() == csv_record(link_header()),
            tables.plans_table() == csv_record(plan_header()),
            tables.files_count() == 0,
            tables.links_count() == 0,
            tables.plans_count() == 0,
    {
        CsvTables {
            files_csv: text_record(
                "id",
                "url",
                "filename",
                "reporting_entity_name",
                "reporting_entity_type",
            ),
            links_csv: text_record("id", "from_id", "from_type", "to_id", "to_type"),
            plans_csv: text_record(
                "id",
                "plan_name",
                "plan_id_type",
                "plan_id",
                "plan_market_type",
            ),
            files_count: 0,
            links_count: 0,
            plans_count: 0,
        }
    }

    /// Tables that exist already, given as their contents: each holds as
    /// many records as a CSV reader finds in it.
    pub fn open(files_csv: Vec<u8>, links_csv: Vec<u8>, plans_csv: Vec<u8>) -> (tables: Self)
        ensures
            tables.files_table() == files_csv@,
            tables.links_table() == links_csv@,
            tables.plans_table() == plans_csv@,
            tables.files_count() == csv_record_count(files_csv@),
            tables.links_count() == csv_record_count(links_csv@),
            tables.plans_count() == csv_record_count(plans_csv@),
    {
        let files_count = count_records(files_csv.as_slice());
        let links_count = count_records(links_csv.as_slice());
        let plans_count = count_records(plans_csv.as_slice());
        CsvTables { files_csv, links_csv, plans_csv, files_count, links_count, plans_count }
    }

    pub fn files_csv(&self) -> (table: &Vec<u8>)
        ensures
            table@ == self.files_table(),
    {
        &self.files_csv
    }

    pub fn links_csv(&self) -> (table: &Vec<u8>)
        ensures
            table@ == self.links_table(),
    {
        &self.links_csv
    }

    pub fn plans_csv(&self) -> (table: &Vec<u8>)
        ensures
            table@ == self.plans_table(),
    {
        &self.plans_csv
    }

    /// Appends a file record to the file table. Its identifier is one
    /// more than the number of records that the table held; the one
    /// failure is that identifiers have run out.
    fn add_file(&mut self, file: &FileRowInput) -> (r: Result<usize, StoreError>)
        ensures
            final(self).links_table() == old(self).links_table(),
            final(self).plans_table() == old(self).plans_table(),
            final(self).links_count() == old(self).links_count(),
            final(self).plans_count() == old(self).plans_count(),
            match r {
                Ok(id) => {
                    &&& id == old(self).files_count() + 1
                    &&& final(self).files_count() == id
                    &&& final(self).files_table() == old(self).files_table() + csv_record(
                        file_row_fields(FileRecord { id, fields: file@ }),
                    )
                },
                Err(e) => {
                    &&& e == StoreError::IdsExhausted
                    &&& old(self).files_count() == usize::MAX
                    &&& final(self).files_count() == old(self).files_count()
                    &&& final(self).files_table() == old(self).files_table()
                },
            },
    {
        let id = match CsvMetaRepository::_write_row_to_file_db::<FileRowInput, FileRow>(
            &mut self.files_csv,
            self.files_count,
            file,
        ) {
            Ok(id) => id,
            Err(e) => {
                return Err(e);
            },
        };
        self.files_count = id;
        Ok(id)
    }

    /// Appends a link record to the link table. Its identifier is one
    /// more than the number of records that the table held; the one
    /// failure is that identifiers have run out.
    fn add_link(&mut self, link: &DbLinkInput) -> (r: Result<usize, StoreError>)
        ensures
            final(self).files_table() == old(self).files_table(),
            final(self).plans_table() == old(self).plans_table(),
            final(self).files_count() == old(self).files_count(),
            final(self).plans_count() == old(self).plans_count(),
            match r {
                Ok(id) => {
                    &&& id == old(self).links_count() + 1
                    &&& final(self).links_count() == id
                    &&& final(self).links_table() == old(self).links_table() + csv_record(
                        link_row_fields(LinkRecord { id, fields: link@ }),
                    )
                },
                Err(e) => {
                    &&& e == StoreError::IdsExhausted
                    &&& old(self).links_count() == usize::MAX
                    &&& final(self).links_count() == old(self).links_count()
                    &&& final(self).links_table() == old(self).links_table()
                },
            },
    {
        let id = match CsvMetaRepository::_write_row_to_file_db::<DbLinkInput, DbLink>(
            &mut self.links_csv,
            self.links_count,
            link,
        ) {
            Ok(id) => id,
            Err(e) => {
                return Err(e);
            },
        };
        self.links_count = id;
        Ok(id)
    }

    /// Appends a plan record to the plan table. Its identifier is one
    /// more than the number of records that the table held; the one
    /// failure is that identifiers have run out.
    fn add_plan(&mut self, plan: &PlanInput) -> (r: Result<usize, StoreError>)
        ensures
            final(self).files_table() == old(self).files_table(),
            final(self).links_table() == old(self).links_table(),
            final(self).files_count() == old(self).files_count(),
            final(self).links_count() == old(self).links_count(),
            match r {
                Ok(id) => {
                    &&& id == old(self).plans_count() + 1
                    &&& final(self).plans_count() == id
                    &&& final(self).plans_table() == old(self).plans_table() + csv_record(
                        plan_row_fields(PlanRecord { id, fields: plan@ }),
                    )
                },
                Err(e) => {
                    &&& e == StoreError::IdsExhausted
                    &&& old(self).plans_count() == usize::MAX
                    &&& final(self).plans_count() == old(self).plans_count()
                    &&& final(self).plans_table() == old(self).plans_table()
                },
            },
    {
        let id = match CsvMetaRepository::_write_row_to_file_db::<PlanInput, Plan>(
            &mut self.plans_csv,
            self.plans_count,
            plan,
        ) {
            Ok(id) => id,
            Err(e) => {
                return Err(e);
            },
        };
        self.plans_count = id;
        Ok(id)
    }
}

impl CsvMetaRepository {
    /// A store without records: each of its tables holds its header row.
    pub fn new(
        files_csv_path: &'static str,
        links_csv_path: &'static str,
        plans_csv_path: &'static str,
    ) -> (repo: Self)
        ensures
            repo.files_csv_path == files_csv_path,
            repo.links_csv_path == links_csv_path,
            repo.plans_csv_path == plans_csv_path,
            repo.tables.files_table() == csv_record(file_header()),
            repo.tables.links_table() == csv_record(link_header()),
            repo.tables.plans_table() == csv_record(plan_header()),
            repo.tables.files_count() == 0,
            repo.tables.links_count() == 0,
            repo.tables.plans_count() == 0,
    {
        CsvMetaRepository {
            files_csv_path,
            links_csv_path,
            plans_csv_path,
            tables: CsvTables::new(),
        }
    }

    /// The number of records in a table.
    pub fn _get_length_of_file_db(&self, db: &[u8]) -> (n: usize)
        ensures
            n == csv_record_count(db@),
    {
        count_records(db)
    }

    /// Appends the row of one more record to a table that holds `count`
    /// records, and returns the identifier of the record: one more than
    /// `count`. The one failure is that identifiers have run out; the
    /// table then stays as it was.
    pub fn _write_row_to_file_db<'a, Input, Row: FromInput<'a, Input, Row> + CsvRow>(
        db: &mut Vec<u8>,
        count: usize,
        row: &'a Input,
    ) -> (r: Result<usize, StoreError>)
        ensures
            match r {
                Ok(id) => count < usize::MAX && id == count + 1 && final(db)@ == old(db)@
                    + csv_record(Row::row(id, row).fields()),
                Err(e) => count == usize::MAX && e == StoreError::IdsExhausted && final(db)@
                    == old(db)@,
            },
    {
        let id = match id_after(count) {
            Ok(id) => id,
            Err(e) => {
                return Err(e);
            },
        };
        let made = Row::from_input(id, row);
        let fields = row_fields(&made);
        match encode_record(&fields) {
            Ok(mut bytes) => {
                db.append(&mut bytes);
            },
            Err(_) => {},
        }
        Ok(id)
    }
}

impl MetaRepository for CsvMetaRepository {
    /// Appends a file record. Its identifier is one more than the number
    /// of records that the file table held; the call fails only where
    /// identifiers have run out.
    fn add_file(&mut self, file: FileRowInput) -> (r: Result<usize, StoreError>)
        ensures
            final(self).files_csv_path == old(self).files_csv_path,
            final(self).links_csv_path == old(self).links_csv_path,
            final(self).plans_csv_path == old(self).plans_csv_path,
            final(self).tables.links_table() == old(self).tables.links_table(),
            final(self).tables.plans_table() == old(self).tables.plans_table(),
            final(self).tables.links_count() == old(self).tables.links_count(),
            final(self).tables.plans_count() == old(self).tables.plans_count(),
            r is Err <==> old(self).tables.files_count() == usize::MAX,
            match r {
                Ok(id) => {
                    &&& id == old(self).tables.files_count() + 1
                    &&& final(self).tables.files_count() == id
                    &&& final(self).tables.files_table() == old(self).tables.files_table()
                        + csv_record(file_row_fields(FileRecord { id, fields: file@ }))
                },
                Err(e) => {
                    &&& e == StoreError::IdsExhausted
                    &&& final(self).tables.files_count() == old(self).tables.files_count()
                    &&& final(self).tables.files_table() == old(self).tables.files_table()
                },
            },
    {
        self.tables.add_file(&file)
    }

    /// Appends a link record. Its identifier is one more than the number
    /// of records that the link table held; the call fails only where
    /// identifiers have run out.
    fn add_link(&mut self, link: DbLinkInput) -> (r: Result<usize, StoreError>)
        ensures
            final(self).files_csv_path == old(self).files_csv_path,
            final(self).links_csv_path == old(self).links_csv_path,
            final(self).plans_csv_path == old(self).plans_csv_path,
            final(self).tables.files_table() == old(self).tables.files_table(),
            final(self).tables.plans_table() == old(self).tables.plans_table(),
            final(self).tables.files_count() == old(self).tables.files_count(),
            final(self).tables.plans_count() == old(self).tables.plans_count(),
            r is Err <==> old(self).tables.links_count() == usize::MAX,
            match r {
                Ok(id) => {
                    &&& id == old(self).tables.links_count() + 1
                    &&& final(self).tables.links_count() == id
                    &&& final(self).tables.links_table() == old(self).tables.links_table()
                        + csv_record(link_row_fields(LinkRecord { id, fields: link@ }))
                },
                Err(e) => {
                    &&& e == StoreError::IdsExhausted
                    &&& final(self).tables.links_count() == old(self).tables.links_count()
                    &&& final(self).tables.links_table() == old(self).tables.links_table()
                },
            },
    {
        self.tables.add_link(&link)
    }

    /// Appends a plan record. Its identifier is one more than the number
    /// of records that the plan table held; the call fails only where
    /// identifiers have run out.
    fn add_plan(&mut self, plan: PlanInput) -> (r: Result<usize, StoreError>)
        ensures
            final(self).files_csv_path == old(self).files_csv_path,
            final(self).links_csv_path == old(self).links_csv_path,
            final(self).plans_csv_path == old(self).plans_csv_path,
            final(self).tables.files_table() == old(self).tables.files_table(),
            final(self).tables.links_table() == old(self).tables.links_table(),
            final(self).tables.files_count() == old(self).tables.files_count(),
            final(self).tables.links_count() == old(self).tables.links_count(),
            r is Err <==> old(self).tables.plans_count() == usize::MAX,
            match r {
                Ok(id) => {
                    &&& id == old(self).tables.plans_count() + 1
                    &&& final(self).tables.plans_count() == id
                    &&& final(self).tables.plans_table() == old(self).tables.plans_table()
                        + csv_record(plan_row_fields(PlanRecord { id, fields: plan@ }))
                },
                Err(e) => {
                    &&& e == StoreError::IdsExhausted
                    &&& final(self).tables.plans_count() == old(self).tables.plans_count()
                    &&& final(self).tables.plans_table() == old(self).tables.plans_table()
                },
            },
    {
        self.tables.add_plan(&plan)
    }
}

} // verus!

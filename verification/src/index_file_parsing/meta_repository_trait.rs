//! The metadata store as the ingestion sees it: three append-only tables
//! of files, plans and links, each of which numbers its own records; and
//! the journal that the ingestion keeps of what it wrote.

use vstd::prelude::*;
use crate::error::StoreError;
use crate::index_file_parsing::index_file::ReportingPlan;

verus! {

/// What a file record says, without its identifier.
pub struct FileFields {
    pub url: Seq<char>,
    pub filename: Seq<char>,
    pub reporting_entity_name: Seq<char>,
    pub reporting_entity_type: Seq<char>,
}

/// A file record as the store holds it.
pub struct FileRecord {
    pub id: usize,
    pub fields: FileFields,
}

/// What a plan record says, without its identifier.
pub struct PlanFields {
    pub plan_name: Seq<char>,
    pub plan_id_type: Seq<char>,
    pub plan_market_type: Seq<char>,
    pub plan_id: Seq<char>,
}

/// A plan record as the store holds it.
pub struct PlanRecord {
    pub id: usize,
    pub fields: PlanFields,
}

/// What a link record says, without its identifier.
pub struct LinkFields {
    pub from_id: usize,
    pub from_type: Seq<char>,
    pub to_id: usize,
    pub to_type: Seq<char>,
}

/// A link record as the store holds it.
pub struct LinkRecord {
    pub id: usize,
    pub fields: LinkFields,
}

/// A store of file, plan and link records: three append-only tables, each
/// of which numbers its own records. A call appends one record and
/// returns the identifier that the store gave it, or fails.
pub trait MetaRepository {
    fn add_file(&mut self, file: FileRowInput) -> Result<usize, StoreError>;

    fn add_link(&mut self, link: DbLinkInput) -> Result<usize, StoreError>;

    fn add_plan(&mut self, plan: PlanInput) -> Result<usize, StoreError>;
}

/// What a store was asked to write.
pub enum Request {
    File(FileFields),
    Link(LinkFields),
    Plan(PlanFields),
}

/// One call of a store: what it was asked to write, and what it answered.
pub struct Call {
    pub request: Request,
    pub answer: Result<usize, StoreError>,
}

/// A store together with the journal of what was written through it:
/// every call that was made of the store, with its answer, oldest first;
/// and every record that the store took, with the identifier that the
/// store returned for it, table by table and oldest first.
pub struct Journal<R: MetaRepository> {
    store: R,
    calls: Ghost<Seq<Call>>,
    files: Ghost<Seq<FileRecord>>,
    links: Ghost<Seq<LinkRecord>>,
    plans: Ghost<Seq<PlanRecord>>,
}

impl<R: MetaRepository> Journal<R> {
    /// The store that is written to.
    pub closed spec fn inner(&self) -> R {
        self.store
    }

    /// The calls that were made of the store, oldest first.
    pub closed spec fn calls(&self) -> Seq<Call> {
        self.calls@
    }

    /// The file records that the store took, oldest first.
    pub closed spec fn files(&self) -> Seq<FileRecord> {
        self.files@
    }

    /// The link records that the store took, oldest first.
    pub closed spec fn links(&self) -> Seq<LinkRecord> {
        self.links@
    }

    /// The plan records that the store took, oldest first.
    pub closed spec fn plans(&self) -> Seq<PlanRecord> {
        self.plans@
    }

    /// Starts an empty journal over a store.
    pub fn new(store: R) -> (journal: Self)
        ensures
            journal.inner() == store,
            journal.calls() == Seq::<Call>::empty(),
            journal.files() == Seq::<FileRecord>::empty(),
            journal.links() == Seq::<LinkRecord>::empty(),
            journal.plans() == Seq::<PlanRecord>::empty(),
    {
        Journal {
            store,
            calls: Ghost(Seq::empty()),
            files: Ghost(Seq::empty()),
            links: Ghost(Seq::empty()),
            plans: Ghost(Seq::empty()),
        }
    }

    pub fn store(&self) -> (store: &R)
        ensures
            *store == self.inner(),
    {
        &self.store
    }

    pub fn into_store(self) -> (store: R)
        ensures
            store == self.inner(),
    {
        self.store
    }

    /// Hands a file record to the store, once, and returns the store's
    /// answer. The journal grows by the call, and by the record if the
    /// store took it.
    pub fn add_file(&mut self, file: FileRowInput) -> (r: Result<usize, StoreError>)
        ensures
            final(self).calls() == old(self).calls().push(
                Call { request: Request::File(file@), answer: r },
            ),
            final(self).links() == old(self).links(),
            final(self).plans() == old(self).plans(),
            match r {
                Ok(id) => final(self).files() == old(self).files().push(
                    FileRecord { id, fields: file@ },
                ),
                Err(_) => final(self).files() == old(self).files(),
            },
    {
        let ghost fields = file@;
        let r = self.store.add_file(file);
        proof {
            self.calls@ = self.calls@.push(Call { request: Request::File(fields), answer: r });
            if let Ok(id) = r {
                self.files@ = self.files@.push(FileRecord { id, fields });
            }
        }
        r
    }

    /// Hands a link record to the store, once, and returns the store's
    /// answer. The journal grows by the call, and by the record if the
    /// store took it.
    pub fn add_link(&mut self, link: DbLinkInput) -> (r: Result<usize, StoreError>)
        ensures
            final(self).calls() == old(self).calls().push(
                Call { request: Request::Link(link@), answer: r },
            ),
            final(self).files() == old(self).files(),
            final(self).plans() == old(self).plans(),
            match r {
                Ok(id) => final(self).links() == old(self).links().push(
                    LinkRecord { id, fields: link@ },
                ),
                Err(_) => final(self).links() == old(self).links(),
            },
    {
        let ghost fields = link@;
        let r = self.store.add_link(link);
        proof {
            self.calls@ = self.calls@.push(Call { request: Request::Link(fields), answer: r });
            if let Ok(id) = r {
                self.links@ = self.links@.push(LinkRecord { id, fields });
            }
        }
        r
    }

    /// Hands a plan record to the store, once, and returns the store's
    /// answer. The journal grows by the call, and by the record if the
    /// store took it.
    pub fn add_plan(&mut self, plan: PlanInput) -> (r: Result<usize, StoreError>)
        ensures
            final(self).calls() == old(self).calls().push(
                Call { request: Request::Plan(plan@), answer: r },
            ),
            final(self).files() == old(self).files(),
            final(self).links() == old(self).links(),
            match r {
                Ok(id) => final(self).plans() == old(self).plans().push(
                    PlanRecord { id, fields: plan@ },
                ),
                Err(_) => final(self).plans() == old(self).plans(),
            },
    {
        let ghost fields = plan@;
        let r = self.store.add_plan(plan);
        proof {
            self.calls@ = self.calls@.push(Call { request: Request::Plan(fields), answer: r });
            if let Ok(id) = r {
                self.plans@ = self.plans@.push(PlanRecord { id, fields });
            }
        }
        r
    }
}

/// Makes the row that a table stores from an identifier and what a caller
/// handed in.
pub trait FromInput<'a, I, O> {
    /// The row of a record with the given identifier.
    spec fn row(id: usize, item: &'a I) -> O;

    fn from_input(id: usize, item: &'a I) -> (row: O)
        ensures
            row == Self::row(id, item),
    ;
}

#[derive(Clone, Copy)]
pub struct FileRowInput<'a> {
    pub url: &'a str,
    pub filename: &'a str,
    pub reporting_entity_name: &'a str,
    pub reporting_entity_type: &'a str,
}

impl<'a> View for FileRowInput<'a> {
    type V = FileFields;

    open spec fn view(&self) -> FileFields {
        FileFields {
            url: self.url@,
            filename: self.filename@,
            reporting_entity_name: self.reporting_entity_name@,
            reporting_entity_type: self.reporting_entity_type@,
        }
    }
}

#[derive(Clone, Copy)]
pub struct FileRow<'a> {
    pub id: usize,
    pub url: &'a str,
    pub filename: &'a str,
    pub reporting_entity_name: &'a str,
    pub reporting_entity_type: &'a str,
}

impl<'a> View for FileRow<'a> {
    type V = FileRecord;

    open spec fn view(&self) -> FileRecord {
        FileRecord {
            id: self.id,
            fields: FileFields {
                url: self.url@,
                filename: self.filename@,
                reporting_entity_name: self.reporting_entity_name@,
                reporting_entity_type: self.reporting_entity_type@,
            },
        }
    }
}

impl<'a> FromInput<'a, FileRowInput<'a>, FileRow<'a>> for FileRow<'a> {
    open spec fn row(id: usize, file: &'a FileRowInput<'a>) -> FileRow<'a> {
        FileRow {
            id,
            url: file.url,
            filename: file.filename,
            reporting_entity_name: file.reporting_entity_name,
            reporting_entity_type: file.reporting_entity_type,
        }
    }

    fn from_input(id: usize, file: &'a FileRowInput<'a>) -> (row: FileRow<'a>)
        ensures
            row@ == (FileRecord { id, fields: file@ }),
    {
        FileRow {
            id,
            url: file.url,
            filename: file.filename,
            reporting_entity_name: file.reporting_entity_name,
            reporting_entity_type: file.reporting_entity_type,
        }
    }
}

#[derive(Clone, Copy)]
pub struct DbLinkInput<'a> {
    pub from_id: usize,
    pub from_type: &'a str,
    pub to_id: usize,
    pub to_type: &'a str,
}

impl<'a> View for DbLinkInput<'a> {
    type V = LinkFields;

    open spec fn view(&self) -> LinkFields {
        LinkFields {
            from_id: self.from_id,
            from_type: self.from_type@,
            to_id: self.to_id,
            to_type: self.to_type@,
        }
    }
}

#[derive(Clone, Copy)]
pub struct DbLink<'a> {
    pub id: usize,
    pub from_id: usize,
    pub from_type: &'a str,
    pub to_id: usize,
    pub to_type: &'a str,
}

impl<'a> View for DbLink<'a> {
    type V = LinkRecord;

    open spec fn view(&self) -> LinkRecord {
        LinkRecord {
            id: self.id,
            fields: LinkFields {
                from_id: self.from_id,
                from_type: self.from_type@,
                to_id: self.to_id,
                to_type: self.to_type@,
            },
        }
    }
}

impl<'a> FromInput<'a, DbLinkInput<'a>, DbLink<'a>> for DbLink<'a> {
    open spec fn row(id: usize, link: &'a DbLinkInput<'a>) -> DbLink<'a> {
        DbLink {
            id,
            from_id: link.from_id,
            from_type: link.from_type,
            to_id: link.to_id,
            to_type: link.to_type,
        }
    }

    fn from_input(id: usize, link: &'a DbLinkInput<'a>) -> (row: DbLink<'a>)
        ensures
            row@ == (LinkRecord { id, fields: link@ }),
    {
        DbLink {
            id,
            from_id: link.from_id,
            from_type: link.from_type,
            to_id: link.to_id,
            to_type: link.to_type,
        }
    }
}

#[derive(Clone, Copy)]
pub struct PlanInput<'a> {
    pub plan_name: &'a str,
    pub plan_id_type: &'a str,
    pub plan_market_type: &'a str,
    pub plan_id: &'a str,
}

impl<'a> View for PlanInput<'a> {
    type V = PlanFields;

    open spec fn view(&self) -> PlanFields {
        PlanFields {
            plan_name: self.plan_name@,
            plan_id_type: self.plan_id_type@,
            plan_market_type: self.plan_market_type@,
            plan_id: self.plan_id@,
        }
    }
}

/// What the plan record of a reporting plan says.
pub open spec fn plan_fields(plan: ReportingPlan) -> PlanFields {
    PlanFields {
        plan_name: plan.plan_name@,
        plan_id_type: plan.plan_id_type@,
        plan_market_type: plan.plan_market_type@,
        plan_id: plan.plan_id@,
    }
}

impl<'a> PlanInput<'a> {
    pub fn from_reporting_plan(plan: &'a ReportingPlan) -> (input: PlanInput<'a>)
        ensures
            input@ == plan_fields(*plan),
    {
        PlanInput {
            plan_name: plan.plan_name.as_str(),
            plan_id_type: plan.plan_id_type.as_str(),
            plan_market_type: plan.plan_market_type.as_str(),
            plan_id: plan.plan_id.as_str(),
        }
    }
}

#[derive(Clone, Copy)]
pub struct Plan<'a> {
    pub id: usize,
    pub plan_name: &'a str,
    pub plan_id_type: &'a str,
    pub plan_market_type: &'a str,
    pub plan_id: &'a str,
}

impl<'a> View for Plan<'a> {
    type V = PlanRecord;

    open spec fn view(&self) -> PlanRecord {
        PlanRecord {
            id: self.id,
            fields: PlanFields {
                plan_name: self.plan_name@,
                plan_id_type: self.plan_id_type@,
                plan_market_type: self.plan_market_type@,
                plan_id: self.plan_id@,
            },
        }
    }
}

impl<'a> FromInput<'a, PlanInput<'a>, Plan<'a>> for Plan<'a> {
    open spec fn row(id: usize, plan: &'a PlanInput<'a>) -> Plan<'a> {
        Plan {
            id,
            plan_name: plan.plan_name,
            plan_id_type: plan.plan_id_type,
            plan_market_type: plan.plan_market_type,
            plan_id: plan.plan_id,
        }
    }

    fn from_input(id: usize, plan: &'a PlanInput<'a>) -> (row: Plan<'a>)
        ensures
            row@ == (PlanRecord { id, fields: plan@ }),
    {
        Plan {
            id,
            plan_name: plan.plan_name,
            plan_id_type: plan.plan_id_type,
            plan_market_type: plan.plan_market_type,
            plan_id: plan.plan_id,
        }
    }
}

} // verus!

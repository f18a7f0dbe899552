//! Ingestion of an index document into the metadata store.

use vstd::prelude::*;
use crate::error::{DecodeError, IngestError, StoreError};
use crate::generator::ChannelGenerator;
use crate::index_file_parsing::csv_meta_repository::{
    CsvMetaRepository, csv_record, file_header, link_header, plan_header,
};
use crate::index_file_parsing::index_file::{
    AsyncIndexFile, IndexFile, IndexFileMetadata, LinkedFile, ReportingPlan, ReportingStructure,
};
use crate::index_file_parsing::results_dto::IndexFileParsingResults;
use crate::index_file_parsing::meta_repository_trait::{
    Call, DbLinkInput, FileFields, FileRecord, FileRowInput, Journal, LinkFields, LinkRecord,
    MetaRepository, Request,
    PlanFields, PlanInput, PlanRecord, plan_fields,
};
pub use crate::text::_get_filename_from_url;
use crate::text::filename_from_url;

pub mod csv_meta_repository;
pub mod index_file;
pub mod meta_repository_trait;
pub mod mysql_meta_repository;
pub mod results_dto;
pub mod seed_deserialization;

verus! {

/// The identifiers of file records, in the records' order.
pub open spec fn file_record_ids(records: Seq<FileRecord>) -> Seq<usize> {
    records.map_values(|r: FileRecord| r.id)
}

/// What file records say, in the records' order.
pub open spec fn file_fields(records: Seq<FileRecord>) -> Seq<FileFields> {
    records.map_values(|r: FileRecord| r.fields)
}

/// The identifiers of plan records, in the records' order.
pub open spec fn plan_record_ids(records: Seq<PlanRecord>) -> Seq<usize> {
    records.map_values(|r: PlanRecord| r.id)
}

/// What plan records say, in the records' order.
pub open spec fn plan_record_fields(records: Seq<PlanRecord>) -> Seq<PlanFields> {
    records.map_values(|r: PlanRecord| r.fields)
}

/// What link records say, in the records' order.
pub open spec fn link_fields(records: Seq<LinkRecord>) -> Seq<LinkFields> {
    records.map_values(|r: LinkRecord| r.fields)
}

/// The plan records that a reporting structure asks for: one for each of
/// its plans, in their order.
pub open spec fn structure_plans(node: ReportingStructure) -> Seq<PlanFields> {
    node.reporting_plans@.map_values(|p: ReportingPlan| plan_fields(p))
}

/// The file record of an in-network file: it is named by the last segment
/// of its URL.
pub open spec fn in_network_file_fields(
    file: LinkedFile,
    reporting_entity_name: Seq<char>,
    reporting_entity_type: Seq<char>,
) -> FileFields {
    FileFields {
        url: file.location@,
        filename: filename_from_url(file.location@),
        reporting_entity_name,
        reporting_entity_type,
    }
}

/// The file record of an allowed-amount file: it is named by its
/// description.
pub open spec fn allowed_amount_file_fields(
    file: LinkedFile,
    reporting_entity_name: Seq<char>,
    reporting_entity_type: Seq<char>,
) -> FileFields {
    FileFields {
        url: file.location@,
        filename: file.description@,
        reporting_entity_name,
        reporting_entity_type,
    }
}

/// The file records of the in-network files of a reporting structure.
pub open spec fn structure_in_network_files(
    node: ReportingStructure,
    reporting_entity_name: Seq<char>,
    reporting_entity_type: Seq<char>,
) -> Seq<FileFields> {
    match node.in_network_files {
        Some(files) => files@.map_values(
            |f: LinkedFile| in_network_file_fields(f, reporting_entity_name, reporting_entity_type),
        ),
        None => Seq::empty(),
    }
}

/// The file records that a reporting structure asks for: its in-network
/// files in their order, then its allowed-amount file if it has one.
pub open spec fn structure_files(
    node: ReportingStructure,
    reporting_entity_name: Seq<char>,
    reporting_entity_type: Seq<char>,
) -> Seq<FileFields> {
    let in_network = structure_in_network_files(
        node,
        reporting_entity_name,
        reporting_entity_type,
    );
    match node.allowed_amount_file {
        Some(file) => in_network.push(
            allowed_amount_file_fields(file, reporting_entity_name, reporting_entity_type),
        ),
        None => in_network,
    }
}

/// The link from the index file to one rate file.
pub open spec fn index_link(index_file_id: usize, file_id: usize) -> LinkFields {
    LinkFields {
        from_id: index_file_id,
        from_type: "index_file"@,
        to_id: file_id,
        to_type: "rate_file"@,
    }
}

/// The link from one plan to one rate file.
pub open spec fn plan_link(plan_id: usize, file_id: usize) -> LinkFields {
    LinkFields { from_id: plan_id, from_type: "plan"@, to_id: file_id, to_type: "rate_file"@ }
}

/// The links that end at one rate file: the one from the index file, then
/// one from every plan, in the plans' order.
pub open spec fn file_links(index_file_id: usize, plans: Seq<usize>, file_id: usize) -> Seq<
    LinkFields,
> {
    seq![index_link(index_file_id, file_id)] + plans.map_values(
        |p: usize| plan_link(p, file_id),
    )
}

/// The links of one reporting structure: for each of its files, in their
/// order, the links that end at it.
pub open spec fn structure_links(index_file_id: usize, plans: Seq<usize>, files: Seq<usize>) -> Seq<
    LinkFields,
>
    decreases files.len(),
{
    if files.len() == 0 {
        Seq::empty()
    } else {
        structure_links(index_file_id, plans, files.drop_last()) + file_links(
            index_file_id,
            plans,
            files.last(),
        )
    }
}

/// Whether the given plan, file and link records are those of one
/// reporting structure: its plans, its files, and the links of every one
/// of these files, the identifiers in the links being those that the store
/// gave the records.
pub open spec fn structure_recorded(
    node: ReportingStructure,
    index_file_id: usize,
    reporting_entity_name: Seq<char>,
    reporting_entity_type: Seq<char>,
    plans: Seq<PlanRecord>,
    files: Seq<FileRecord>,
    links: Seq<LinkRecord>,
) -> bool {
    &&& plan_record_fields(plans) == structure_plans(node)
    &&& file_fields(files) == structure_files(node, reporting_entity_name, reporting_entity_type)
    &&& link_fields(links) == structure_links(index_file_id, plan_record_ids(plans), file_record_ids(files))
}

/// The number of plan records that a reporting structure asks for.
pub open spec fn plan_count(node: ReportingStructure) -> nat {
    node.reporting_plans@.len()
}

/// The number of file records that a reporting structure asks for.
pub open spec fn file_count(node: ReportingStructure) -> nat {
    let in_network = match node.in_network_files {
        Some(files) => files@.len(),
        None => 0nat,
    };
    if node.allowed_amount_file is Some {
        in_network + 1
    } else {
        in_network
    }
}

/// The number of link records that a reporting structure asks for: every
/// file is linked to the index file and to every plan.
pub open spec fn link_count(node: ReportingStructure) -> nat {
    file_count(node) + plan_count(node) * file_count(node)
}

/// A reporting structure asks for as many plan and file records as it
/// holds plans and files.
pub proof fn lemma_structure_counts(
    node: ReportingStructure,
    reporting_entity_name: Seq<char>,
    reporting_entity_type: Seq<char>,
)
    ensures
        structure_plans(node).len() == plan_count(node),
        structure_files(node, reporting_entity_name, reporting_entity_type).len() == file_count(
            node,
        ),
{
}

/// The identifiers that the store gave to the plan and file records of one
/// reporting structure, each list in the order in which the records were
/// made.
#[derive(Debug)]
pub struct StructureRecords {
    pub plan_ids: Vec<usize>,
    pub file_ids: Vec<usize>,
}

/// The links of the first files of a reporting structure stand at the
/// head of the links of all its files.
pub proof fn lemma_structure_links_take(
    index_file_id: usize,
    plans: Seq<usize>,
    files: Seq<usize>,
    n: int,
)
    requires
        0 <= n <= files.len(),
    ensures
        structure_links(index_file_id, plans, files.take(n)).is_prefix_of(
            structure_links(index_file_id, plans, files),
        ),
    decreases files.len(),
{
    if n == files.len() {
        assert(files.take(n) =~= files);
    } else {
        let rest = files.drop_last();
        assert(files.take(n) =~= rest.take(n));
        lemma_structure_links_take(index_file_id, plans, rest, n);
    }
}

/// The links of the first `k` files of a reporting structure, followed by
/// some of the links of the next file, stand at the head of the links of
/// all its files.
proof fn lemma_structure_links_prefix(
    index_file_id: usize,
    plans: Seq<usize>,
    files: Seq<usize>,
    k: int,
    partial: Seq<LinkFields>,
)
    requires
        0 <= k < files.len(),
        partial.is_prefix_of(file_links(index_file_id, plans, files[k])),
    ensures
        (structure_links(index_file_id, plans, files.take(k)) + partial).is_prefix_of(
            structure_links(index_file_id, plans, files),
        ),
{
    let upto = files.take(k + 1);
    assert(upto.drop_last() =~= files.take(k));
    assert(upto.last() == files[k]);
    lemma_structure_links_take(index_file_id, plans, files, k + 1);
}

/// Whether the store took every one of the calls.
pub open spec fn all_taken(calls: Seq<Call>) -> bool {
    forall|i: int| 0 <= i < calls.len() ==> (#[trigger] calls[i]).answer is Ok
}

/// What the calls asked the store to write, call by call.
pub open spec fn requests(calls: Seq<Call>) -> Seq<Request> {
    calls.map_values(|call: Call| call.request)
}

/// The requests to write the given links, link by link.
pub open spec fn link_requests(links: Seq<LinkFields>) -> Seq<Request> {
    links.map_values(|link: LinkFields| Request::Link(link))
}

/// Whether the calls are those of someone who asks the store for the
/// wanted writes one after the other and stops at the first that the
/// store refuses: the calls ask for the wanted writes in their order;
/// without a refusal they are all there and all were taken; with one, it
/// is the answer to the last call, and every call before it was taken.
pub open spec fn written_in_turn(
    calls: Seq<Call>,
    wanted: Seq<Request>,
    refusal: Option<StoreError>,
) -> bool {
    &&& calls.len() <= wanted.len()
    &&& requests(calls) == wanted.take(calls.len() as int)
    &&& match refusal {
        None => calls.len() == wanted.len() && all_taken(calls),
        Some(e) => {
            &&& calls.len() > 0
            &&& calls.last().answer == Err::<usize, StoreError>(e)
            &&& all_taken(calls.drop_last())
        },
    }
}

/// The refusal that a result stands for, if it stands for one.
pub open spec fn refusal_of<A>(r: Result<A, StoreError>) -> Option<StoreError> {
    match r {
        Ok(_) => None,
        Err(e) => Some(e),
    }
}

/// Writes the link from the index file to one rate file and the links
/// from every plan to it, one after the other, and stops at the first
/// that the store refuses.
fn add_file_links<R: MetaRepository>(
    repo: &mut Journal<R>,
    index_file_id: usize,
    plans: &Vec<usize>,
    file_id: usize,
) -> (r: Result<(), StoreError>)
    ensures
        final(repo).files() == old(repo).files(),
        final(repo).plans() == old(repo).plans(),
        old(repo).links().is_prefix_of(final(repo).links()),
        r is Ok ==> link_fields(final(repo).links().skip(old(repo).links().len() as int))
            == file_links(index_file_id, plans@, file_id),
        r is Err ==> link_fields(
            final(repo).links().skip(old(repo).links().len() as int),
        ).is_prefix_of(file_links(index_file_id, plans@, file_id)),
        old(repo).calls().is_prefix_of(final(repo).calls()),
        written_in_turn(
            final(repo).calls().skip(old(repo).calls().len() as int),
            link_requests(file_links(index_file_id, plans@, file_id)),
            refusal_of(r),
        ),
{
    let ghost links0 = repo.links();
    let ghost calls0 = repo.calls();
    let ghost wanted = link_requests(file_links(index_file_id, plans@, file_id));
    proof {
        lemma_file_links(index_file_id, plans@, file_id);
    }
    match repo.add_link(
        DbLinkInput {
            from_id: index_file_id,
            from_type: "index_file",
            to_id: file_id,
            to_type: "rate_file",
        },
    ) {
        Ok(_) => {},
        Err(e) => {
            proof {
                let made = repo.calls().skip(calls0.len() as int);
                assert(link_fields(repo.links().skip(links0.len() as int)) =~= Seq::empty());
                assert(made =~= seq![repo.calls().last()]);
                assert(made.drop_last() =~= Seq::empty());
                assert(requests(made) =~= wanted.take(1));
            }
            return Err(e);
        },
    }
    proof {
        let made = repo.calls().skip(calls0.len() as int);
        assert(made =~= seq![repo.calls().last()]);
        assert(requests(made) =~= link_requests(
            file_links(index_file_id, plans@.take(0), file_id),
        ));
    }
    let mut i: usize = 0;
    while i < plans.len()
        invariant
            i <= plans.len(),
            repo.files() == old(repo).files(),
            repo.plans() == old(repo).plans(),
            links0 == old(repo).links(),
            calls0 == old(repo).calls(),
            wanted == link_requests(file_links(index_file_id, plans@, file_id)),
            wanted.len() == 1 + plans.len(),
            calls0.is_prefix_of(repo.calls()),
            repo.calls().len() == calls0.len() + 1 + i,
            all_taken(repo.calls().skip(calls0.len() as int)),
            requests(repo.calls().skip(calls0.len() as int)) == link_requests(
                file_links(index_file_id, plans@.take(i as int), file_id),
            ),
            links0.is_prefix_of(repo.links()),
            repo.links().len() == links0.len() + 1 + i,
            link_fields(repo.links().skip(links0.len() as int)) == file_links(
                index_file_id,
                plans@.take(i as int),
                file_id,
            ),
        decreases plans.len() - i,
    {
        let ghost before = repo.links();
        let ghost calls_before = repo.calls();
        match repo.add_link(
            DbLinkInput {
                from_id: plans[i],
                from_type: "plan",
                to_id: file_id,
                to_type: "rate_file",
            },
        ) {
            Ok(_) => {},
            Err(e) => {
                proof {
                    let made = repo.calls().skip(calls0.len() as int);
                    assert(file_links(index_file_id, plans@.take(i as int), file_id).is_prefix_of(
                        file_links(index_file_id, plans@, file_id),
                    ));
                    let step = plan_link(plans@[i as int], file_id);
                    let upto = file_links(index_file_id, plans@.take(i + 1), file_id);
                    assert(made =~= calls_before.skip(calls0.len() as int).push(
                        repo.calls().last(),
                    ));
                    assert(made.drop_last() =~= calls_before.skip(calls0.len() as int));
                    assert(repo.calls().last().request == Request::Link(step));
                    assert(plans@.take(i + 1) =~= plans@.take(i as int).push(plans@[i as int]));
                    assert(upto =~= file_links(
                        index_file_id,
                        plans@.take(i as int),
                        file_id,
                    ).push(step));
                    assert(upto =~= file_links(index_file_id, plans@, file_id).take(i + 2));
                    assert(requests(made) =~= requests(
                        calls_before.skip(calls0.len() as int),
                    ).push(Request::Link(step)));
                    assert(link_requests(upto) =~= link_requests(
                        file_links(index_file_id, plans@.take(i as int), file_id),
                    ).push(Request::Link(step)));
                    assert(requests(made) =~= link_requests(upto));
                    assert(link_requests(upto) =~= wanted.take(i + 2));
                }
                return Err(e);
            },
        }
        proof {
            let made = repo.calls().skip(calls0.len() as int);
            let step = plan_link(plans@[i as int], file_id);
            let upto = file_links(index_file_id, plans@.take(i + 1), file_id);
            assert(made =~= calls_before.skip(calls0.len() as int).push(repo.calls().last()));
            assert(repo.calls().last().request == Request::Link(step));
            assert(plans@.take(i + 1) =~= plans@.take(i as int).push(plans@[i as int]));
            assert(upto =~= file_links(index_file_id, plans@.take(i as int), file_id).push(step));
            assert(requests(made) =~= requests(calls_before.skip(calls0.len() as int)).push(
                Request::Link(step),
            ));
            assert(link_requests(upto) =~= link_requests(
                file_links(index_file_id, plans@.take(i as int), file_id),
            ).push(Request::Link(step)));
            assert(requests(made) =~= link_requests(upto));
        }
        proof {
            let after = repo.links();
            assert(plans@.take(i + 1) =~= plans@.take(i as int).push(plans@[i as int]));
            assert(after.skip(links0.len() as int) =~= before.skip(links0.len() as int).push(
                after.last(),
            ));
            assert(after.last().fields == plan_link(plans@[i as int], file_id));
            assert(link_fields(after.skip(links0.len() as int)) =~= link_fields(
                before.skip(links0.len() as int),
            ).push(after.last().fields));
            assert(file_links(index_file_id, plans@.take(i + 1), file_id) =~= file_links(
                index_file_id,
                plans@.take(i as int),
                file_id,
            ).push(plan_link(plans@[i as int], file_id)));
            assert(link_fields(after.skip(links0.len() as int)) =~= file_links(
                index_file_id,
                plans@.take(i + 1),
                file_id,
            ));
        }
        i += 1;
    }
    assert(plans@.take(i as int) =~= plans@);
    proof {
        let made = repo.calls().skip(calls0.len() as int);
        assert(wanted.take(made.len() as int) =~= wanted);
    }
    Ok(())
}

/// The requests to write the given plans, plan by plan.
pub open spec fn plan_requests(plans: Seq<PlanFields>) -> Seq<Request> {
    plans.map_values(|plan: PlanFields| Request::Plan(plan))
}

/// The requests to write the given files, file by file.
pub open spec fn file_requests(files: Seq<FileFields>) -> Seq<Request> {
    files.map_values(|file: FileFields| Request::File(file))
}

/// The writes that one reporting structure asks of the store, in the
/// order in which they are made: its plans, its files, then the links of
/// every file, which name the identifiers that the store gave the plans
/// and the files.
pub open spec fn structure_requests(
    node: ReportingStructure,
    reporting_entity_name: Seq<char>,
    reporting_entity_type: Seq<char>,
    index_file_id: usize,
    plans: Seq<usize>,
    files: Seq<usize>,
) -> Seq<Request> {
    plan_requests(structure_plans(node)) + file_requests(
        structure_files(node, reporting_entity_name, reporting_entity_type),
    ) + link_requests(structure_links(index_file_id, plans, files))
}

/// One call, taken for itself, is a sequence of writes made in turn.
pub proof fn lemma_written_once(call: Call)
    ensures
        written_in_turn(seq![call], seq![call.request], refusal_of(call.answer)),
{
    assert(requests(seq![call]) =~= seq![call.request].take(1));
    assert(seq![call].drop_last() =~= Seq::<Call>::empty());
}

/// Writes made in turn and all taken, followed by writes made in turn,
/// are writes made in turn.
pub proof fn lemma_written_then(
    first: Seq<Call>,
    wanted_first: Seq<Request>,
    next: Seq<Call>,
    wanted_next: Seq<Request>,
    refusal: Option<StoreError>,
)
    requires
        written_in_turn(first, wanted_first, None),
        written_in_turn(next, wanted_next, refusal),
    ensures
        written_in_turn(first + next, wanted_first + wanted_next, refusal),
{
    let calls = first + next;
    let wanted = wanted_first + wanted_next;
    assert(wanted_first.take(first.len() as int) =~= wanted_first);
    assert(requests(calls) =~= requests(first) + requests(next));
    assert(wanted.take(calls.len() as int) =~= wanted_first + wanted_next.take(next.len() as int));
    match refusal {
        None => {
            assert forall|i: int| 0 <= i < calls.len() implies (#[trigger] calls[i]).answer is Ok by {
                if i < first.len() {
                    assert(calls[i] == first[i]);
                } else {
                    assert(calls[i] == next[i - first.len()]);
                }
            }
        },
        Some(e) => {
            let before = calls.drop_last();
            assert(calls.last() == next.last());
            assert forall|i: int| 0 <= i < before.len() implies (#[trigger] before[i]).answer is Ok by {
                if i < first.len() {
                    assert(before[i] == first[i]);
                } else {
                    assert(before[i] == next.drop_last()[i - first.len()]);
                }
            }
        },
    }
}

/// Writes that stopped at a refusal are the same writes whatever would
/// have been wanted behind the refused one.
pub proof fn lemma_written_stopped(
    calls: Seq<Call>,
    wanted: Seq<Request>,
    e: StoreError,
    all_wanted: Seq<Request>,
)
    requires
        written_in_turn(calls, wanted, Some(e)),
        calls.len() <= all_wanted.len(),
        all_wanted.take(calls.len() as int) == wanted.take(calls.len() as int),
    ensures
        written_in_turn(calls, all_wanted, Some(e)),
{
}

/// Turns one reporting structure into metadata records: a plan record for
/// each of its plans, a file record for each of its in-network files and
/// for its allowed-amount file, and a link to every one of these files
/// from the index file and from every one of these plans.
///
/// The writes are asked of the store one after the other. The first
/// that the store refuses ends the work, and its refusal is returned;
/// what was written before it stays. There is no other error.
pub fn handle_reporting_structure<R: MetaRepository>(
    repo: &mut Journal<R>,
    index_file_id: usize,
    reporting_entity_name: &str,
    reporting_entity_type: &str,
    node: &ReportingStructure,
) -> (r: Result<StructureRecords, StoreError>)
    ensures
        old(repo).calls().is_prefix_of(final(repo).calls()),
        old(repo).plans().is_prefix_of(final(repo).plans()),
        old(repo).files().is_prefix_of(final(repo).files()),
        old(repo).links().is_prefix_of(final(repo).links()),
        written_in_turn(
            final(repo).calls().skip(old(repo).calls().len() as int),
            structure_requests(
                *node,
                reporting_entity_name@,
                reporting_entity_type@,
                index_file_id,
                plan_record_ids(final(repo).plans().skip(old(repo).plans().len() as int)),
                file_record_ids(final(repo).files().skip(old(repo).files().len() as int)),
            ),
            refusal_of(r),
        ),
        plan_count(*node) == 0 && file_count(*node) == 0 ==> r is Ok,
        match r {
            Ok(made) => {
                let new_plans = final(repo).plans().skip(old(repo).plans().len() as int);
                let new_files = final(repo).files().skip(old(repo).files().len() as int);
                let new_links = final(repo).links().skip(old(repo).links().len() as int);
                &&& structure_recorded(
                    *node,
                    index_file_id,
                    reporting_entity_name@,
                    reporting_entity_type@,
                    new_plans,
                    new_files,
                    new_links,
                )
                &&& made.plan_ids@ == plan_record_ids(new_plans)
                &&& made.file_ids@ == file_record_ids(new_files)
            },
            Err(_) => {
                let new_plans = final(repo).plans().skip(old(repo).plans().len() as int);
                let new_files = final(repo).files().skip(old(repo).files().len() as int);
                let new_links = final(repo).links().skip(old(repo).links().len() as int);
                &&& plan_record_fields(new_plans).is_prefix_of(structure_plans(*node))
                &&& file_fields(new_files).is_prefix_of(
                    structure_files(*node, reporting_entity_name@, reporting_entity_type@),
                )
                &&& link_fields(new_links).is_prefix_of(
                    structure_links(
                        index_file_id,
                        plan_record_ids(new_plans),
                        file_record_ids(new_files),
                    ),
                )
            },
        },
{
    let ghost calls0 = repo.calls();
    let ghost plans0 = repo.plans();
    let ghost files0 = repo.files();
    let ghost links0 = repo.links();
    let ghost name = reporting_entity_name@;
    let ghost entity_type = reporting_entity_type@;
    let ghost want_plans = plan_requests(structure_plans(*node));
    let ghost in_network = structure_in_network_files(*node, name, entity_type);
    let ghost want_files = file_requests(structure_files(*node, name, entity_type));
    let mut plan_ids: Vec<usize> = Vec::new();
    let mut file_ids: Vec<usize> = Vec::new();
    proof {
        lemma_structure_counts(*node, name, entity_type);
        assert(repo.calls().skip(calls0.len() as int) =~= Seq::empty());
        assert(plan_requests(structure_plans(*node).take(0)) =~= Seq::empty());
        assert(requests(Seq::<Call>::empty()) =~= Seq::<Request>::empty().take(0));
    }

    let mut i: usize = 0;
    while i < node.reporting_plans.len()
        invariant
            i <= node.reporting_plans.len(),
            calls0 == old(repo).calls(),
            plans0 == old(repo).plans(),
            files0 == old(repo).files(),
            links0 == old(repo).links(),
            name == reporting_entity_name@,
            entity_type == reporting_entity_type@,
            want_plans == plan_requests(structure_plans(*node)),
            want_files == file_requests(structure_files(*node, name, entity_type)),
            want_plans.len() == node.reporting_plans.len(),
            repo.files() == files0,
            repo.links() == links0,
            calls0.is_prefix_of(repo.calls()),
            written_in_turn(
                repo.calls().skip(calls0.len() as int),
                plan_requests(structure_plans(*node).take(i as int)),
                None,
            ),
            plans0.is_prefix_of(repo.plans()),
            repo.plans().len() == plans0.len() + i,
            plan_record_fields(repo.plans().skip(plans0.len() as int)) == structure_plans(
                *node,
            ).take(i as int),
            plan_ids@ == plan_record_ids(repo.plans().skip(plans0.len() as int)),
        decreases node.reporting_plans.len() - i,
    {
        let ghost before = repo.plans();
        let ghost calls_before = repo.calls();
        let added = repo.add_plan(PlanInput::from_reporting_plan(&node.reporting_plans[i]));
        proof {
            let call = repo.calls().last();
            let made = repo.calls().skip(calls0.len() as int);
            let upto = plan_requests(structure_plans(*node).take(i + 1));
            lemma_written_once(call);
            lemma_written_then(
                calls_before.skip(calls0.len() as int),
                plan_requests(structure_plans(*node).take(i as int)),
                seq![call],
                seq![call.request],
                refusal_of(call.answer),
            );
            assert(made =~= calls_before.skip(calls0.len() as int) + seq![call]);
            assert(upto =~= plan_requests(structure_plans(*node).take(i as int)) + seq![
                call.request,
            ]);
            if added is Err {
                let e = added->Err_0;
                let all_wanted = structure_requests(
                    *node,
                    name,
                    entity_type,
                    index_file_id,
                    plan_record_ids(repo.plans().skip(plans0.len() as int)),
                    file_record_ids(repo.files().skip(files0.len() as int)),
                );
                assert(all_wanted.take(made.len() as int) =~= upto.take(made.len() as int));
                lemma_written_stopped(made, upto, e, all_wanted);
                assert(link_fields(repo.links().skip(links0.len() as int)) =~= Seq::empty());
                assert(file_fields(repo.files().skip(files0.len() as int)) =~= Seq::empty());
            }
        }
        match added {
            Ok(id) => {
                plan_ids.push(id);
            },
            Err(e) => {
                return Err(e);
            },
        }
        proof {
            let after = repo.plans();
            assert(after.skip(plans0.len() as int) =~= before.skip(plans0.len() as int).push(
                after.last(),
            ));
            assert(plan_record_fields(after.skip(plans0.len() as int)) =~= structure_plans(
                *node,
            ).take(i + 1));
            assert(plan_ids@ =~= plan_record_ids(after.skip(plans0.len() as int)));
        }
        i += 1;
    }
    assert(structure_plans(*node).take(i as int) =~= structure_plans(*node));
    let ghost new_plans = repo.plans().skip(plans0.len() as int);
    assert(plans0 + new_plans =~= repo.plans());
    proof {
        assert(file_requests(in_network.take(0)) =~= Seq::empty());
        assert(want_plans + file_requests(in_network.take(0)) =~= want_plans);
    }

    match &node.in_network_files {
        Some(files) => {
            let mut j: usize = 0;
            while j < files.len()
                invariant
                    j <= files.len(),
                    node.in_network_files == Some(*files),
                    calls0 == old(repo).calls(),
                    plans0 == old(repo).plans(),
                    files0 == old(repo).files(),
                    links0 == old(repo).links(),
                    name == reporting_entity_name@,
                    entity_type == reporting_entity_type@,
                    want_plans == plan_requests(structure_plans(*node)),
                    want_files == file_requests(structure_files(*node, name, entity_type)),
                    in_network == structure_in_network_files(*node, name, entity_type),
                    in_network.len() == files.len(),
                    repo.plans() == plans0 + new_plans,
                    repo.links() == links0,
                    plan_record_fields(new_plans) == structure_plans(*node),
                    calls0.is_prefix_of(repo.calls()),
                    written_in_turn(
                        repo.calls().skip(calls0.len() as int),
                        want_plans + file_requests(in_network.take(j as int)),
                        None,
                    ),
                    files0.is_prefix_of(repo.files()),
                    repo.files().len() == files0.len() + j,
                    file_fields(repo.files().skip(files0.len() as int)) == in_network.take(
                        j as int,
                    ),
                    file_ids@ == file_record_ids(repo.files().skip(files0.len() as int)),
                decreases files.len() - j,
            {
                let ghost before = repo.files();
                let ghost calls_before = repo.calls();
                let filename = _get_filename_from_url(files[j].location.as_str());
                let added = repo.add_file(
                    FileRowInput {
                        url: files[j].location.as_str(),
                        filename: filename.as_str(),
                        reporting_entity_name,
                        reporting_entity_type,
                    },
                );
                proof {
                    let call = repo.calls().last();
                    let made = repo.calls().skip(calls0.len() as int);
                    let upto = want_plans + file_requests(in_network.take(j + 1));
                    lemma_written_once(call);
                    lemma_written_then(
                        calls_before.skip(calls0.len() as int),
                        want_plans + file_requests(in_network.take(j as int)),
                        seq![call],
                        seq![call.request],
                        refusal_of(call.answer),
                    );
                    assert(made =~= calls_before.skip(calls0.len() as int) + seq![call]);
                    assert(call.request == Request::File(in_network[j as int]));
                    assert(upto =~= want_plans + file_requests(in_network.take(j as int)) + seq![
                        call.request,
                    ]);
                    assert((plans0 + new_plans).skip(plans0.len() as int) =~= new_plans);
                    if added is Err {
                let e = added->Err_0;
                        let all_wanted = structure_requests(
                            *node,
                            name,
                            entity_type,
                            index_file_id,
                            plan_record_ids(repo.plans().skip(plans0.len() as int)),
                            file_record_ids(repo.files().skip(files0.len() as int)),
                        );
                        assert(all_wanted.take(made.len() as int) =~= upto.take(
                            made.len() as int,
                        ));
                        lemma_written_stopped(made, upto, e, all_wanted);
                        assert(link_fields(repo.links().skip(links0.len() as int))
                            =~= Seq::empty());
                    }
                }
                match added {
                    Ok(id) => {
                        file_ids.push(id);
                    },
                    Err(e) => {
                        return Err(e);
                    },
                }
                proof {
                    let after = repo.files();
                    assert(after.skip(files0.len() as int) =~= before.skip(
                        files0.len() as int,
                    ).push(after.last()));
                    assert(file_fields(after.skip(files0.len() as int)) =~= in_network.take(
                        j + 1,
                    ));
                    assert(file_ids@ =~= file_record_ids(after.skip(files0.len() as int)));
                }
                j += 1;
            }
            assert(in_network.take(j as int) =~= in_network);
        },
        None => {
            assert(repo.files().skip(files0.len() as int) =~= Seq::empty());
            assert(file_fields(repo.files().skip(files0.len() as int)) =~= Seq::empty());
            assert(file_ids@ =~= file_record_ids(repo.files().skip(files0.len() as int)));
            assert(in_network.take(0) =~= in_network);
        },
    }

    match &node.allowed_amount_file {
        Some(file) => {
            let ghost before = repo.files();
            let ghost calls_before = repo.calls();
            let added = repo.add_file(
                FileRowInput {
                    url: file.location.as_str(),
                    filename: file.description.as_str(),
                    reporting_entity_name,
                    reporting_entity_type,
                },
            );
            proof {
                let call = repo.calls().last();
                let made = repo.calls().skip(calls0.len() as int);
                lemma_written_once(call);
                lemma_written_then(
                    calls_before.skip(calls0.len() as int),
                    want_plans + file_requests(in_network),
                    seq![call],
                    seq![call.request],
                    refusal_of(call.answer),
                );
                assert(made =~= calls_before.skip(calls0.len() as int) + seq![call]);
                assert(want_plans + want_files =~= want_plans + file_requests(in_network) + seq![
                    call.request,
                ]);
                assert((plans0 + new_plans).skip(plans0.len() as int) =~= new_plans);
                if added is Err {
                let e = added->Err_0;
                    let all_wanted = structure_requests(
                        *node,
                        name,
                        entity_type,
                        index_file_id,
                        plan_record_ids(repo.plans().skip(plans0.len() as int)),
                        file_record_ids(repo.files().skip(files0.len() as int)),
                    );
                    assert(all_wanted.take(made.len() as int) =~= (want_plans + want_files).take(
                        made.len() as int,
                    ));
                    lemma_written_stopped(made, want_plans + want_files, e, all_wanted);
                    assert(link_fields(repo.links().skip(links0.len() as int)) =~= Seq::empty());
                }
            }
            match added {
                Ok(id) => {
                    file_ids.push(id);
                },
                Err(e) => {
                    return Err(e);
                },
            }
            proof {
                let after = repo.files();
                assert(after.skip(files0.len() as int) =~= before.skip(files0.len() as int).push(
                    after.last(),
                ));
                assert(file_fields(after.skip(files0.len() as int)) =~= structure_files(
                    *node,
                    name,
                    entity_type,
                ));
                assert(file_ids@ =~= file_record_ids(after.skip(files0.len() as int)));
            }
        },
        None => {
            assert(want_files =~= file_requests(in_network));
        },
    }
    let ghost new_files = repo.files().skip(files0.len() as int);
    assert(files0 + new_files =~= repo.files());
    proof {
        assert(file_fields(new_files).len() == new_files.len());
        assert(structure_links(index_file_id, plan_ids@, file_ids@.take(0)) =~= Seq::empty());
        assert(want_plans + want_files + link_requests(Seq::empty()) =~= want_plans + want_files);
    }

    let mut k: usize = 0;
    while k < file_ids.len()
        invariant
            k <= file_ids.len(),
            calls0 == old(repo).calls(),
            links0 == old(repo).links(),
            plans0 == old(repo).plans(),
            files0 == old(repo).files(),
            name == reporting_entity_name@,
            entity_type == reporting_entity_type@,
            want_plans == plan_requests(structure_plans(*node)),
            want_files == file_requests(structure_files(*node, name, entity_type)),
            repo.plans() == plans0 + new_plans,
            repo.files() == files0 + new_files,
            plan_record_fields(new_plans) == structure_plans(*node),
            file_fields(new_files) == structure_files(*node, name, entity_type),
            file_ids@.len() == file_count(*node),
            plan_ids@ == plan_record_ids(new_plans),
            file_ids@ == file_record_ids(new_files),
            calls0.is_prefix_of(repo.calls()),
            written_in_turn(
                repo.calls().skip(calls0.len() as int),
                want_plans + want_files + link_requests(
                    structure_links(index_file_id, plan_ids@, file_ids@.take(k as int)),
                ),
                None,
            ),
            links0.is_prefix_of(repo.links()),
            link_fields(repo.links().skip(links0.len() as int)) == structure_links(
                index_file_id,
                plan_ids@,
                file_ids@.take(k as int),
            ),
        decreases file_ids.len() - k,
    {
        let ghost before = repo.links();
        let ghost calls_before = repo.calls();
        let linked = add_file_links(repo, index_file_id, &plan_ids, file_ids[k]);
        proof {
            let after = repo.links();
            let made = repo.calls().skip(calls0.len() as int);
            let chunk = repo.calls().skip(calls_before.len() as int);
            let done = structure_links(index_file_id, plan_ids@, file_ids@.take(k as int));
            let these = file_links(index_file_id, plan_ids@, file_ids@[k as int]);
            let all_links = structure_links(index_file_id, plan_ids@, file_ids@);
            assert((plans0 + new_plans).skip(plans0.len() as int) =~= new_plans);
            assert((files0 + new_files).skip(files0.len() as int) =~= new_files);
            assert(file_ids@.take(k + 1).drop_last() =~= file_ids@.take(k as int));
            assert(after.skip(links0.len() as int) =~= before.skip(links0.len() as int)
                + after.skip(before.len() as int));
            assert(link_fields(after.skip(links0.len() as int)) =~= link_fields(
                before.skip(links0.len() as int),
            ) + link_fields(after.skip(before.len() as int)));
            assert(made =~= calls_before.skip(calls0.len() as int) + chunk);
            lemma_written_then(
                calls_before.skip(calls0.len() as int),
                want_plans + want_files + link_requests(done),
                chunk,
                link_requests(these),
                refusal_of(linked),
            );
            assert(want_plans + want_files + link_requests(done) + link_requests(these)
                =~= want_plans + want_files + link_requests(done + these));
            if linked is Err {
                let e = linked->Err_0;
                lemma_structure_links_prefix(
                    index_file_id,
                    plan_ids@,
                    file_ids@,
                    k as int,
                    link_fields(after.skip(before.len() as int)),
                );
                lemma_structure_links_take(index_file_id, plan_ids@, file_ids@, k + 1);
                let upto = want_plans + want_files + link_requests(done + these);
                let all_wanted = want_plans + want_files + link_requests(all_links);
                assert((done + these).is_prefix_of(all_links));
                assert(all_wanted.take(made.len() as int) =~= upto.take(made.len() as int));
                lemma_written_stopped(made, upto, e, all_wanted);
            }
        }
        match linked {
            Ok(()) => {},
            Err(e) => {
                return Err(e);
            },
        }
        k += 1;
    }
    assert(file_ids@.take(k as int) =~= file_ids@);
    proof {
        assert((plans0 + new_plans).skip(plans0.len() as int) =~= new_plans);
        assert((files0 + new_files).skip(files0.len() as int) =~= new_files);
    }
    Ok(StructureRecords { plan_ids, file_ids })
}

/// Every file of a reporting structure gets one link from the index file
/// and one from each plan: with `P` plans and `F` files these are `F`
/// links from the index file and `P * F` links from plans, `F + P * F`
/// in all.
pub proof fn lemma_structure_links(index_file_id: usize, plans: Seq<usize>, files: Seq<usize>)
    ensures
        structure_links(index_file_id, plans, files).len() == files.len() + plans.len()
            * files.len(),
        structure_links(index_file_id, plans, files).filter(
            |link: LinkFields| link.from_type == "index_file"@,
        ).len() == files.len(),
        structure_links(index_file_id, plans, files).filter(
            |link: LinkFields| link.from_type == "plan"@,
        ).len() == plans.len() * files.len(),
    decreases files.len(),
{
    let from_index = |link: LinkFields| link.from_type == "index_file"@;
    let from_plan = |link: LinkFields| link.from_type == "plan"@;
    if files.len() == 0 {
        assert(plans.len() * files.len() == 0) by (nonlinear_arith)
            requires
                files.len() == 0,
        ;
    } else {
        let rest = files.drop_last();
        let head = structure_links(index_file_id, plans, rest);
        let tail = file_links(index_file_id, plans, files.last());
        lemma_structure_links(index_file_id, plans, rest);
        lemma_file_links(index_file_id, plans, files.last());
        Seq::filter_distributes_over_add(head, tail, from_index);
        Seq::filter_distributes_over_add(head, tail, from_plan);
        assert(plans.len() * files.len() == plans.len() * rest.len() + plans.len())
            by (nonlinear_arith)
            requires
                rest.len() + 1 == files.len(),
        ;
    }
}

/// Of the links that end at one file, one comes from the index file and
/// one from each plan.
pub proof fn lemma_file_links(index_file_id: usize, plans: Seq<usize>, file_id: usize)
    ensures
        file_links(index_file_id, plans, file_id).len() == 1 + plans.len(),
        file_links(index_file_id, plans, file_id).filter(
            |link: LinkFields| link.from_type == "index_file"@,
        ).len() == 1,
        file_links(index_file_id, plans, file_id).filter(
            |link: LinkFields| link.from_type == "plan"@,
        ).len() == plans.len(),
    decreases plans.len(),
{
    let from_index = |link: LinkFields| link.from_type == "index_file"@;
    let from_plan = |link: LinkFields| link.from_type == "plan"@;
    reveal_strlit("index_file");
    reveal_strlit("plan");
    assert("index_file"@ != "plan"@) by {
        assert("index_file"@.len() != "plan"@.len());
    }
    if plans.len() == 0 {
        let only = seq![index_link(index_file_id, file_id)];
        assert(file_links(index_file_id, plans, file_id) =~= only);
        assert(only =~= Seq::<LinkFields>::empty().push(index_link(index_file_id, file_id)));
        Seq::<LinkFields>::empty().lemma_filter_push(
            index_link(index_file_id, file_id),
            from_index,
        );
        Seq::<LinkFields>::empty().lemma_filter_push(
            index_link(index_file_id, file_id),
            from_plan,
        );
        assert(Seq::<LinkFields>::empty().filter(from_index) =~= Seq::<LinkFields>::empty()) by {
            reveal(Seq::filter);
        }
        assert(Seq::<LinkFields>::empty().filter(from_plan) =~= Seq::<LinkFields>::empty()) by {
            reveal(Seq::filter);
        }
    } else {
        let rest = plans.drop_last();
        let before = file_links(index_file_id, rest, file_id);
        let last = plan_link(plans.last(), file_id);
        lemma_file_links(index_file_id, rest, file_id);
        assert(file_links(index_file_id, plans, file_id) =~= before.push(last));
        before.lemma_filter_push(last, from_index);
        before.lemma_filter_push(last, from_plan);
    }
}

/// The sum of the first `i` of a list of counts.
pub open spec fn sum_before(counts: Seq<nat>, i: int) -> nat
    decreases i,
{
    if i <= 0 {
        0
    } else {
        sum_before(counts, i - 1) + counts[i - 1]
    }
}

/// The number of plan records that the first `i` of a list of reporting
/// structures ask for.
pub open spec fn plans_before(nodes: Seq<ReportingStructure>, i: int) -> nat {
    sum_before(nodes.map_values(|n: ReportingStructure| plan_count(n)), i)
}

/// The number of file records that the first `i` of a list of reporting
/// structures ask for.
pub open spec fn files_before(nodes: Seq<ReportingStructure>, i: int) -> nat {
    sum_before(nodes.map_values(|n: ReportingStructure| file_count(n)), i)
}

/// The number of link records that the first `i` of a list of reporting
/// structures ask for.
pub open spec fn links_before(nodes: Seq<ReportingStructure>, i: int) -> nat {
    sum_before(nodes.map_values(|n: ReportingStructure| link_count(n)), i)
}

/// Whether, in the records of a list of reporting structures, those of
/// the `i`-th stand where the records of the structures before it end,
/// and are the records of that structure.
pub open spec fn nth_recorded(
    nodes: Seq<ReportingStructure>,
    i: int,
    index_file_id: usize,
    reporting_entity_name: Seq<char>,
    reporting_entity_type: Seq<char>,
    plans: Seq<PlanRecord>,
    files: Seq<FileRecord>,
    links: Seq<LinkRecord>,
) -> bool {
    structure_recorded(
        nodes[i],
        index_file_id,
        reporting_entity_name,
        reporting_entity_type,
        plans.subrange(plans_before(nodes, i) as int, plans_before(nodes, i + 1) as int),
        files.subrange(files_before(nodes, i) as int, files_before(nodes, i + 1) as int),
        links.subrange(links_before(nodes, i) as int, links_before(nodes, i + 1) as int),
    )
}

/// Whether the given plan, file and link records are those of a list of
/// reporting structures, structure after structure in the list's order,
/// and nothing else.
pub open spec fn structures_recorded(
    nodes: Seq<ReportingStructure>,
    index_file_id: usize,
    reporting_entity_name: Seq<char>,
    reporting_entity_type: Seq<char>,
    plans: Seq<PlanRecord>,
    files: Seq<FileRecord>,
    links: Seq<LinkRecord>,
) -> bool {
    &&& plans.len() == plans_before(nodes, nodes.len() as int)
    &&& files.len() == files_before(nodes, nodes.len() as int)
    &&& links.len() == links_before(nodes, nodes.len() as int)
    &&& forall|i: int|
        0 <= i < nodes.len() ==> #[trigger] nth_recorded(
            nodes,
            i,
            index_file_id,
            reporting_entity_name,
            reporting_entity_type,
            plans,
            files,
            links,
        )
}

/// What the file record of the index file itself says.
pub open spec fn index_file_fields(
    path: Seq<char>,
    reporting_entity_name: Seq<char>,
    reporting_entity_type: Seq<char>,
) -> FileFields {
    FileFields { url: path, filename: "index"@, reporting_entity_name, reporting_entity_type }
}

/// Whether the given records are those of one ingested index document,
/// and the summary is theirs: the file record of the index file comes
/// first, then the records of its reporting structures.
pub open spec fn index_file_ingested(
    nodes: Seq<ReportingStructure>,
    path: Seq<char>,
    results: IndexFileParsingResults,
    plans: Seq<PlanRecord>,
    files: Seq<FileRecord>,
    links: Seq<LinkRecord>,
) -> bool {
    &&& files.len() >= 1
    &&& files[0] == (FileRecord {
        id: results.index_file_id,
        fields: index_file_fields(
            path,
            results.reporting_entity_name@,
            results.reporting_entity_type@,
        ),
    })
    &&& structures_recorded(
        nodes,
        results.index_file_id,
        results.reporting_entity_name@,
        results.reporting_entity_type@,
        plans,
        files.skip(1),
        links,
    )
    &&& results.num_reporting_structures == nodes.len()
    &&& results.num_plans == plans.len()
    &&& results.num_rate_files == files.len() - 1
}

proof fn lemma_sum_before_push(counts: Seq<nat>, count: nat, i: int)
    requires
        i <= counts.len(),
    ensures
        sum_before(counts.push(count), i) == sum_before(counts, i),
    decreases i,
{
    if i > 0 {
        lemma_sum_before_push(counts, count, i - 1);
    }
}

proof fn lemma_sum_before_monotone(counts: Seq<nat>, i: int, j: int)
    requires
        i <= j,
    ensures
        sum_before(counts, i) <= sum_before(counts, j),
    decreases j - i,
{
    if i < j {
        lemma_sum_before_monotone(counts, i, j - 1);
    }
}

/// The records of a list of reporting structures, followed by the
/// records of one more, are the records of the longer list.
pub proof fn lemma_structures_recorded_push(
    nodes: Seq<ReportingStructure>,
    node: ReportingStructure,
    index_file_id: usize,
    reporting_entity_name: Seq<char>,
    reporting_entity_type: Seq<char>,
    plans: Seq<PlanRecord>,
    files: Seq<FileRecord>,
    links: Seq<LinkRecord>,
    new_plans: Seq<PlanRecord>,
    new_files: Seq<FileRecord>,
    new_links: Seq<LinkRecord>,
)
    requires
        structures_recorded(
            nodes,
            index_file_id,
            reporting_entity_name,
            reporting_entity_type,
            plans,
            files,
            links,
        ),
        structure_recorded(
            node,
            index_file_id,
            reporting_entity_name,
            reporting_entity_type,
            new_plans,
            new_files,
            new_links,
        ),
    ensures
        structures_recorded(
            nodes.push(node),
            index_file_id,
            reporting_entity_name,
            reporting_entity_type,
            plans + new_plans,
            files + new_files,
            links + new_links,
        ),
{
    let longer = nodes.push(node);
    let n = nodes.len() as int;
    let plan_counts = nodes.map_values(|n: ReportingStructure| plan_count(n));
    let file_counts = nodes.map_values(|n: ReportingStructure| file_count(n));
    let link_counts = nodes.map_values(|n: ReportingStructure| link_count(n));
    assert(longer.map_values(|n: ReportingStructure| plan_count(n)) =~= plan_counts.push(
        plan_count(node),
    ));
    assert(longer.map_values(|n: ReportingStructure| file_count(n)) =~= file_counts.push(
        file_count(node),
    ));
    assert(longer.map_values(|n: ReportingStructure| link_count(n)) =~= link_counts.push(
        link_count(node),
    ));
    lemma_structure_counts(node, reporting_entity_name, reporting_entity_type);
    lemma_structure_links(index_file_id, plan_record_ids(new_plans), file_record_ids(new_files));
    assert(plan_record_fields(new_plans).len() == new_plans.len());
    assert(file_fields(new_files).len() == new_files.len());
    assert(link_fields(new_links).len() == new_links.len());
    assert(new_links.len() == link_count(node));
    lemma_sum_before_push(plan_counts, plan_count(node), n);
    lemma_sum_before_push(file_counts, file_count(node), n);
    lemma_sum_before_push(link_counts, link_count(node), n);
    assert forall|i: int| 0 <= i < longer.len() implies #[trigger] nth_recorded(
        longer,
        i,
        index_file_id,
        reporting_entity_name,
        reporting_entity_type,
        plans + new_plans,
        files + new_files,
        links + new_links,
    ) by {
        if i < n {
            assert(nth_recorded(
                nodes,
                i,
                index_file_id,
                reporting_entity_name,
                reporting_entity_type,
                plans,
                files,
                links,
            ));
            lemma_sum_before_push(plan_counts, plan_count(node), i);
            lemma_sum_before_push(plan_counts, plan_count(node), i + 1);
            lemma_sum_before_push(file_counts, file_count(node), i);
            lemma_sum_before_push(file_counts, file_count(node), i + 1);
            lemma_sum_before_push(link_counts, link_count(node), i);
            lemma_sum_before_push(link_counts, link_count(node), i + 1);
            lemma_sum_before_monotone(plan_counts, i, i + 1);
            lemma_sum_before_monotone(file_counts, i, i + 1);
            lemma_sum_before_monotone(link_counts, i, i + 1);
            lemma_sum_before_monotone(plan_counts, i + 1, n);
            lemma_sum_before_monotone(file_counts, i + 1, n);
            lemma_sum_before_monotone(link_counts, i + 1, n);
            assert((plans + new_plans).subrange(
                plans_before(nodes, i) as int,
                plans_before(nodes, i + 1) as int,
            ) =~= plans.subrange(
                plans_before(nodes, i) as int,
                plans_before(nodes, i + 1) as int,
            ));
            assert((files + new_files).subrange(
                files_before(nodes, i) as int,
                files_before(nodes, i + 1) as int,
            ) =~= files.subrange(
                files_before(nodes, i) as int,
                files_before(nodes, i + 1) as int,
            ));
            assert((links + new_links).subrange(
                links_before(nodes, i) as int,
                links_before(nodes, i + 1) as int,
            ) =~= links.subrange(
                links_before(nodes, i) as int,
                links_before(nodes, i + 1) as int,
            ));
            assert(longer[i] == nodes[i]);
        } else {
            assert((plans + new_plans).subrange(
                plans.len() as int,
                (plans.len() + new_plans.len()) as int,
            ) =~= new_plans);
            assert((files + new_files).subrange(
                files.len() as int,
                (files.len() + new_files.len()) as int,
            ) =~= new_files);
            assert((links + new_links).subrange(
                links.len() as int,
                (links.len() + new_links.len()) as int,
            ) =~= new_links);
            assert(longer[i] == node);
        }
    }
}

/// Asks the store, once, for the file record of the index file itself,
/// and starts the summary of its ingestion with the identifier that the
/// store returned; a refusal is returned as it is.
fn begin_index_file<R: MetaRepository>(
    repo: &mut Journal<R>,
    path: &str,
    reporting_entity_name: String,
    reporting_entity_type: String,
) -> (r: Result<IndexFileParsingResults, StoreError>)
    ensures
        final(repo).calls() == old(repo).calls().push(
            Call {
                request: Request::File(
                    index_file_fields(path@, reporting_entity_name@, reporting_entity_type@),
                ),
                answer: match r {
                    Ok(results) => Ok(results.index_file_id),
                    Err(e) => Err(e),
                },
            },
        ),
        final(repo).plans() == old(repo).plans(),
        final(repo).links() == old(repo).links(),
        match r {
            Ok(results) => {
                &&& final(repo).files() == old(repo).files().push(
                    FileRecord {
                        id: results.index_file_id,
                        fields: index_file_fields(
                            path@,
                            reporting_entity_name@,
                            reporting_entity_type@,
                        ),
                    },
                )
                &&& results.reporting_entity_name == reporting_entity_name
                &&& results.reporting_entity_type == reporting_entity_type
                &&& results.num_reporting_structures == 0
                &&& results.num_plans == 0
                &&& results.num_rate_files == 0
            },
            Err(_) => final(repo).files() == old(repo).files(),
        },
{
    let added = repo.add_file(
        FileRowInput {
            url: path,
            filename: "index",
            reporting_entity_name: reporting_entity_name.as_str(),
            reporting_entity_type: reporting_entity_type.as_str(),
        },
    );
    match added {
        Ok(index_file_id) => Ok(
            IndexFileParsingResults {
                index_file_id,
                reporting_entity_name,
                reporting_entity_type,
                num_reporting_structures: 0,
                num_plans: 0,
                num_rate_files: 0,
            },
        ),
        Err(e) => Err(e),
    }
}

/// The writes that the first `i` reporting structures of a list ask of
/// the store, structure after structure, given the records that the store
/// made of them: the links of each structure name the identifiers of its
/// own plan and file records.
pub open spec fn structures_requests(
    nodes: Seq<ReportingStructure>,
    i: int,
    reporting_entity_name: Seq<char>,
    reporting_entity_type: Seq<char>,
    index_file_id: usize,
    plans: Seq<PlanRecord>,
    files: Seq<FileRecord>,
) -> Seq<Request>
    decreases i,
{
    if i <= 0 {
        Seq::empty()
    } else {
        structures_requests(
            nodes,
            i - 1,
            reporting_entity_name,
            reporting_entity_type,
            index_file_id,
            plans,
            files,
        ) + structure_requests(
            nodes[i - 1],
            reporting_entity_name,
            reporting_entity_type,
            index_file_id,
            plan_record_ids(
                plans.subrange(plans_before(nodes, i - 1) as int, plans_before(nodes, i) as int),
            ),
            file_record_ids(
                files.subrange(files_before(nodes, i - 1) as int, files_before(nodes, i) as int),
            ),
        )
    }
}

/// The writes that the ingestion of an index document asks of the store,
/// in the order in which they are made: the file record of the index file
/// itself, then the writes of its reporting structures, structure after
/// structure. `plans` and `files` are the records that the store made of
/// the structures.
pub open spec fn document_requests(
    nodes: Seq<ReportingStructure>,
    path: Seq<char>,
    reporting_entity_name: Seq<char>,
    reporting_entity_type: Seq<char>,
    index_file_id: usize,
    plans: Seq<PlanRecord>,
    files: Seq<FileRecord>,
) -> Seq<Request> {
    seq![
        Request::File(index_file_fields(path, reporting_entity_name, reporting_entity_type)),
    ] + structures_requests(
        nodes,
        nodes.len() as int,
        reporting_entity_name,
        reporting_entity_type,
        index_file_id,
        plans,
        files,
    )
}

/// The refusal of the store that an ingestion ended with, if it ended
/// with one.
pub open spec fn store_refusal<A>(r: Result<A, IngestError>) -> Option<StoreError> {
    match r {
        Err(IngestError::Store(e)) => Some(e),
        _ => None,
    }
}

/// Whether the calls are those of an ingestion that the store ended by
/// refusing a write: the first call asked for the file record of the
/// index file, the last one was answered with the refusal, and the store
/// took every call before it.
pub open spec fn ended_by_refusal(calls: Seq<Call>, index_file: FileFields, e: StoreError) -> bool {
    &&& calls.len() > 0
    &&& calls[0].request == Request::File(index_file)
    &&& calls.last().answer == Err::<usize, StoreError>(e)
    &&& all_taken(calls.drop_last())
}

/// Whether the records and the calls are those of an ingestion that the
/// store ended by refusing a write of the structure at `done`: the file
/// record of the index file comes first; the structures before `done`
/// were written whole; what was written of the structure at `done` stands
/// at the head of its records; and the calls asked for these writes one
/// after the other, the last of them being the one that was refused.
pub open spec fn refused_at(
    nodes: Seq<ReportingStructure>,
    done: int,
    path: Seq<char>,
    reporting_entity_name: Seq<char>,
    reporting_entity_type: Seq<char>,
    e: StoreError,
    calls: Seq<Call>,
    plans: Seq<PlanRecord>,
    files: Seq<FileRecord>,
    links: Seq<LinkRecord>,
) -> bool {
    let id = files[0].id;
    let before_plans = plans_before(nodes, done) as int;
    let before_files = files_before(nodes, done) as int;
    let before_links = links_before(nodes, done) as int;
    let node_plans = plans.skip(before_plans);
    let node_files = files.skip(1).skip(before_files);
    let node_links = links.skip(before_links);
    &&& 0 <= done < nodes.len()
    &&& files.len() >= 1 + before_files
    &&& plans.len() >= before_plans
    &&& links.len() >= before_links
    &&& files[0].fields == index_file_fields(path, reporting_entity_name, reporting_entity_type)
    &&& structures_recorded(
        nodes.take(done),
        id,
        reporting_entity_name,
        reporting_entity_type,
        plans.take(before_plans),
        files.skip(1).take(before_files),
        links.take(before_links),
    )
    &&& plan_record_fields(node_plans).is_prefix_of(structure_plans(nodes[done]))
    &&& file_fields(node_files).is_prefix_of(
        structure_files(nodes[done], reporting_entity_name, reporting_entity_type),
    )
    &&& link_fields(node_links).is_prefix_of(
        structure_links(id, plan_record_ids(node_plans), file_record_ids(node_files)),
    )
    &&& written_in_turn(
        calls,
        document_requests(
            nodes.take(done),
            path,
            reporting_entity_name,
            reporting_entity_type,
            id,
            plans.take(before_plans),
            files.skip(1).take(before_files),
        ) + structure_requests(
            nodes[done],
            reporting_entity_name,
            reporting_entity_type,
            id,
            plan_record_ids(node_plans),
            file_record_ids(node_files),
        ),
        Some(e),
    )
}

/// Whether the records and the calls are those of an ingestion of the
/// given structures that the store ended by refusing a write: either it
/// refused the file record of the index file, and nothing was written;
/// or it refused a write of one of the structures.
pub open spec fn refused_in_document(
    nodes: Seq<ReportingStructure>,
    path: Seq<char>,
    reporting_entity_name: Seq<char>,
    reporting_entity_type: Seq<char>,
    e: StoreError,
    calls: Seq<Call>,
    plans: Seq<PlanRecord>,
    files: Seq<FileRecord>,
    links: Seq<LinkRecord>,
) -> bool {
    if files.len() == 0 {
        &&& plans.len() == 0
        &&& links.len() == 0
        &&& written_in_turn(
            calls,
            seq![
                Request::File(
                    index_file_fields(path, reporting_entity_name, reporting_entity_type),
                ),
            ],
            Some(e),
        )
    } else {
        exists|done: int| #[trigger]
            refused_at(
                nodes,
                done,
                path,
                reporting_entity_name,
                reporting_entity_type,
                e,
                calls,
                plans,
                files,
                links,
            )
    }
}

proof fn lemma_structures_requests_stable(
    nodes: Seq<ReportingStructure>,
    node: ReportingStructure,
    i: int,
    reporting_entity_name: Seq<char>,
    reporting_entity_type: Seq<char>,
    index_file_id: usize,
    plans: Seq<PlanRecord>,
    files: Seq<FileRecord>,
    more_plans: Seq<PlanRecord>,
    more_files: Seq<FileRecord>,
)
    requires
        0 <= i <= nodes.len(),
        plans.len() == plans_before(nodes, nodes.len() as int),
        files.len() == files_before(nodes, nodes.len() as int),
    ensures
        structures_requests(
            nodes.push(node),
            i,
            reporting_entity_name,
            reporting_entity_type,
            index_file_id,
            plans + more_plans,
            files + more_files,
        ) == structures_requests(
            nodes,
            i,
            reporting_entity_name,
            reporting_entity_type,
            index_file_id,
            plans,
            files,
        ),
        plans_before(nodes.push(node), i) == plans_before(nodes, i),
        files_before(nodes.push(node), i) == files_before(nodes, i),
    decreases i,
{
    let longer = nodes.push(node);
    let plan_counts = nodes.map_values(|n: ReportingStructure| plan_count(n));
    let file_counts = nodes.map_values(|n: ReportingStructure| file_count(n));
    assert(longer.map_values(|n: ReportingStructure| plan_count(n)) =~= plan_counts.push(
        plan_count(node),
    ));
    assert(longer.map_values(|n: ReportingStructure| file_count(n)) =~= file_counts.push(
        file_count(node),
    ));
    lemma_sum_before_push(plan_counts, plan_count(node), i);
    lemma_sum_before_push(file_counts, file_count(node), i);
    if i > 0 {
        lemma_structures_requests_stable(
            nodes,
            node,
            i - 1,
            reporting_entity_name,
            reporting_entity_type,
            index_file_id,
            plans,
            files,
            more_plans,
            more_files,
        );
        lemma_sum_before_monotone(plan_counts, i - 1, i);
        lemma_sum_before_monotone(file_counts, i - 1, i);
        lemma_sum_before_monotone(plan_counts, i, nodes.len() as int);
        lemma_sum_before_monotone(file_counts, i, nodes.len() as int);
        assert(longer[i - 1] == nodes[i - 1]);
        assert((plans + more_plans).subrange(
            plans_before(nodes, i - 1) as int,
            plans_before(nodes, i) as int,
        ) =~= plans.subrange(plans_before(nodes, i - 1) as int, plans_before(nodes, i) as int));
        assert((files + more_files).subrange(
            files_before(nodes, i - 1) as int,
            files_before(nodes, i) as int,
        ) =~= files.subrange(files_before(nodes, i - 1) as int, files_before(nodes, i) as int));
    }
}

/// The writes of a document of some reporting structures, followed by
/// the writes of one more structure, are the writes of the longer
/// document.
proof fn lemma_called_one_more(
    nodes: Seq<ReportingStructure>,
    node: ReportingStructure,
    path: Seq<char>,
    reporting_entity_name: Seq<char>,
    reporting_entity_type: Seq<char>,
    index_file_id: usize,
    plans: Seq<PlanRecord>,
    files: Seq<FileRecord>,
    new_plans: Seq<PlanRecord>,
    new_files: Seq<FileRecord>,
    made: Seq<Call>,
    next: Seq<Call>,
    refusal: Option<StoreError>,
)
    requires
        plans.len() == plans_before(nodes, nodes.len() as int),
        files.len() == files_before(nodes, nodes.len() as int),
        written_in_turn(
            made,
            document_requests(
                nodes,
                path,
                reporting_entity_name,
                reporting_entity_type,
                index_file_id,
                plans,
                files,
            ),
            None,
        ),
        written_in_turn(
            next,
            structure_requests(
                node,
                reporting_entity_name,
                reporting_entity_type,
                index_file_id,
                plan_record_ids(new_plans),
                file_record_ids(new_files),
            ),
            refusal,
        ),
    ensures
        written_in_turn(
            made + next,
            document_requests(
                nodes,
                path,
                reporting_entity_name,
                reporting_entity_type,
                index_file_id,
                plans,
                files,
            ) + structure_requests(
                node,
                reporting_entity_name,
                reporting_entity_type,
                index_file_id,
                plan_record_ids(new_plans),
                file_record_ids(new_files),
            ),
            refusal,
        ),
        refusal matches Some(e) ==> ended_by_refusal(
            made + next,
            index_file_fields(path, reporting_entity_name, reporting_entity_type),
            e,
        ),
        new_plans.len() == plan_count(node) && new_files.len() == file_count(node)
            ==> document_requests(
            nodes,
            path,
            reporting_entity_name,
            reporting_entity_type,
            index_file_id,
            plans,
            files,
        ) + structure_requests(
            node,
            reporting_entity_name,
            reporting_entity_type,
            index_file_id,
            plan_record_ids(new_plans),
            file_record_ids(new_files),
        ) == document_requests(
            nodes.push(node),
            path,
            reporting_entity_name,
            reporting_entity_type,
            index_file_id,
            plans + new_plans,
            files + new_files,
        ),
{
    let wanted = document_requests(
        nodes,
        path,
        reporting_entity_name,
        reporting_entity_type,
        index_file_id,
        plans,
        files,
    );
    let these = structure_requests(
        node,
        reporting_entity_name,
        reporting_entity_type,
        index_file_id,
        plan_record_ids(new_plans),
        file_record_ids(new_files),
    );
    lemma_written_then(made, wanted, next, these, refusal);
    assert(made.len() > 0);
    assert(requests(made)[0] == wanted[0]);
    assert((made + next)[0] == made[0]);
    if new_plans.len() == plan_count(node) && new_files.len() == file_count(node) {
        let longer = nodes.push(node);
        let n = nodes.len() as int;
        let plan_counts = nodes.map_values(|n: ReportingStructure| plan_count(n));
        let file_counts = nodes.map_values(|n: ReportingStructure| file_count(n));
        assert(longer.map_values(|n: ReportingStructure| plan_count(n)) =~= plan_counts.push(
            plan_count(node),
        ));
        assert(longer.map_values(|n: ReportingStructure| file_count(n)) =~= file_counts.push(
            file_count(node),
        ));
        lemma_structures_requests_stable(
            nodes,
            node,
            n,
            reporting_entity_name,
            reporting_entity_type,
            index_file_id,
            plans,
            files,
            new_plans,
            new_files,
        );
        assert(longer[n] == node);
        assert((plans + new_plans).subrange(
            plans_before(longer, n) as int,
            plans_before(longer, n + 1) as int,
        ) =~= new_plans);
        assert((files + new_files).subrange(
            files_before(longer, n) as int,
            files_before(longer, n + 1) as int,
        ) =~= new_files);
        assert(wanted + these =~= document_requests(
            longer,
            path,
            reporting_entity_name,
            reporting_entity_type,
            index_file_id,
            plans + new_plans,
            files + new_files,
        ));
    }
}

/// Turns one more reporting structure into records and counts it in the
/// summary. A structure that the counts have no room for is refused
/// before anything is asked of the store; a refusal of the store is
/// returned as it is; there is no other error.
fn record_structure<R: MetaRepository>(
    repo: &mut Journal<R>,
    results: &mut IndexFileParsingResults,
    node: &ReportingStructure,
) -> (r: Result<(), IngestError>)
    ensures
        old(repo).calls().is_prefix_of(final(repo).calls()),
        old(repo).plans().is_prefix_of(final(repo).plans()),
        old(repo).files().is_prefix_of(final(repo).files()),
        old(repo).links().is_prefix_of(final(repo).links()),
        final(results).index_file_id == old(results).index_file_id,
        final(results).reporting_entity_name == old(results).reporting_entity_name,
        final(results).reporting_entity_type == old(results).reporting_entity_type,
        r is Err ==> *final(results) == *old(results),
        match r {
            Err(IngestError::CountOverflow) => {
                &&& final(repo).calls() == old(repo).calls()
                &&& final(repo).plans() == old(repo).plans()
                &&& final(repo).files() == old(repo).files()
                &&& final(repo).links() == old(repo).links()
                &&& (old(results).num_reporting_structures + 1 > usize::MAX || old(
                    results,
                ).num_plans + plan_count(*node) > usize::MAX || old(results).num_rate_files
                    + file_count(*node) > usize::MAX)
            },
            Ok(_) | Err(IngestError::Store(_)) => written_in_turn(
                final(repo).calls().skip(old(repo).calls().len() as int),
                structure_requests(
                    *node,
                    old(results).reporting_entity_name@,
                    old(results).reporting_entity_type@,
                    old(results).index_file_id,
                    plan_record_ids(final(repo).plans().skip(old(repo).plans().len() as int)),
                    file_record_ids(final(repo).files().skip(old(repo).files().len() as int)),
                ),
                store_refusal(r),
            ),
            Err(_) => false,
        },
        r matches Err(IngestError::Store(_)) ==> {
            let new_plans = final(repo).plans().skip(old(repo).plans().len() as int);
            let new_files = final(repo).files().skip(old(repo).files().len() as int);
            let new_links = final(repo).links().skip(old(repo).links().len() as int);
            &&& plan_record_fields(new_plans).is_prefix_of(structure_plans(*node))
            &&& file_fields(new_files).is_prefix_of(
                structure_files(
                    *node,
                    old(results).reporting_entity_name@,
                    old(results).reporting_entity_type@,
                ),
            )
            &&& link_fields(new_links).is_prefix_of(
                structure_links(
                    old(results).index_file_id,
                    plan_record_ids(new_plans),
                    file_record_ids(new_files),
                ),
            )
        },
        r is Ok ==> {
            &&& structure_recorded(
                *node,
                old(results).index_file_id,
                old(results).reporting_entity_name@,
                old(results).reporting_entity_type@,
                final(repo).plans().skip(old(repo).plans().len() as int),
                final(repo).files().skip(old(repo).files().len() as int),
                final(repo).links().skip(old(repo).links().len() as int),
            )
            &&& final(results).num_reporting_structures == old(results).num_reporting_structures
                + 1
            &&& final(results).num_plans == old(results).num_plans + plan_count(*node)
            &&& final(results).num_rate_files == old(results).num_rate_files + file_count(*node)
        },
{
    let in_network: usize = match &node.in_network_files {
        Some(files) => files.len(),
        None => 0,
    };
    let allowed: usize = if node.allowed_amount_file.is_some() {
        1
    } else {
        0
    };
    let num_files = match in_network.checked_add(allowed) {
        Some(n) => n,
        None => {
            return Err(IngestError::CountOverflow);
        },
    };
    let num_reporting_structures = match results.num_reporting_structures.checked_add(1) {
        Some(n) => n,
        None => {
            return Err(IngestError::CountOverflow);
        },
    };
    let num_plans = match results.num_plans.checked_add(node.reporting_plans.len()) {
        Some(n) => n,
        None => {
            return Err(IngestError::CountOverflow);
        },
    };
    let num_rate_files = match results.num_rate_files.checked_add(num_files) {
        Some(n) => n,
        None => {
            return Err(IngestError::CountOverflow);
        },
    };
    match handle_reporting_structure(
        repo,
        results.index_file_id,
        results.reporting_entity_name.as_str(),
        results.reporting_entity_type.as_str(),
        node,
    ) {
        Ok(_) => {},
        Err(e) => {
            return Err(IngestError::Store(e));
        },
    }
    results.num_reporting_structures = num_reporting_structures;
    results.num_plans = num_plans;
    results.num_rate_files = num_rate_files;
    Ok(())
}

/// Ingests an index document that is held in memory as a whole: asks the
/// store for the file record of the index file itself, then for the
/// records of every reporting structure in the document's order, and
/// returns the summary.
///
/// The first write that the store refuses ends the ingestion with that
/// refusal; a summary count that no longer fits ends it before the
/// structure that would overflow it is written. There is no other error.
pub fn parse_index_file_sync<R: MetaRepository>(
    repo: &mut Journal<R>,
    path: &str,
    index_file: &IndexFile,
) -> (r: Result<IndexFileParsingResults, IngestError>)
    ensures
        old(repo).calls().is_prefix_of(final(repo).calls()),
        old(repo).plans().is_prefix_of(final(repo).plans()),
        old(repo).files().is_prefix_of(final(repo).files()),
        old(repo).links().is_prefix_of(final(repo).links()),
        match r {
            Ok(results) => {
                &&& index_file_ingested(
                    index_file.reporting_structure@,
                    path@,
                    results,
                    final(repo).plans().skip(old(repo).plans().len() as int),
                    final(repo).files().skip(old(repo).files().len() as int),
                    final(repo).links().skip(old(repo).links().len() as int),
                )
                &&& results.reporting_entity_name@ == index_file.reporting_entity_name@
                &&& results.reporting_entity_type@ == index_file.reporting_entity_type@
                &&& written_in_turn(
                    final(repo).calls().skip(old(repo).calls().len() as int),
                    document_requests(
                        index_file.reporting_structure@,
                        path@,
                        index_file.reporting_entity_name@,
                        index_file.reporting_entity_type@,
                        results.index_file_id,
                        final(repo).plans().skip(old(repo).plans().len() as int),
                        final(repo).files().skip(old(repo).files().len() as int).skip(1),
                    ),
                    None,
                )
            },
            Err(IngestError::CountOverflow) => {
                let nodes = index_file.reporting_structure@;
                &&& plans_before(nodes, nodes.len() as int) > usize::MAX || files_before(
                    nodes,
                    nodes.len() as int,
                ) > usize::MAX
                &&& all_taken(final(repo).calls().skip(old(repo).calls().len() as int))
            },
            Err(IngestError::Store(e)) => {
                &&& ended_by_refusal(
                    final(repo).calls().skip(old(repo).calls().len() as int),
                    index_file_fields(
                        path@,
                        index_file.reporting_entity_name@,
                        index_file.reporting_entity_type@,
                    ),
                    e,
                )
                &&& refused_in_document(
                    index_file.reporting_structure@,
                    path@,
                    index_file.reporting_entity_name@,
                    index_file.reporting_entity_type@,
                    e,
                    final(repo).calls().skip(old(repo).calls().len() as int),
                    final(repo).plans().skip(old(repo).plans().len() as int),
                    final(repo).files().skip(old(repo).files().len() as int),
                    final(repo).links().skip(old(repo).links().len() as int),
                )
            },
            Err(_) => false,
        },
{
    let ghost calls0 = repo.calls();
    let ghost plans0 = repo.plans();
    let ghost files0 = repo.files();
    let ghost links0 = repo.links();
    let ghost all = index_file.reporting_structure@;
    let ghost name = index_file.reporting_entity_name@;
    let ghost entity_type = index_file.reporting_entity_type@;
    let begun = begin_index_file(
        repo,
        path,
        index_file.reporting_entity_name.clone(),
        index_file.reporting_entity_type.clone(),
    );
    proof {
        let call = repo.calls().last();
        lemma_written_once(call);
        assert(repo.calls().skip(calls0.len() as int) =~= seq![call]);
        assert(seq![call].drop_last() =~= Seq::<Call>::empty());
        assert(repo.plans().skip(plans0.len() as int) =~= Seq::empty());
        assert(repo.links().skip(links0.len() as int) =~= Seq::empty());
        if begun is Err {
            assert(repo.files().skip(files0.len() as int) =~= Seq::empty());
        }
    }
    let mut results = match begun {
        Ok(results) => results,
        Err(e) => {
            return Err(IngestError::Store(e));
        },
    };
    let ghost index_file_id = results.index_file_id;
    proof {
        assert(repo.files().skip(files0.len() as int).skip(1) =~= Seq::empty());
        assert(repo.plans().skip(plans0.len() as int) =~= Seq::empty());
        assert(repo.links().skip(links0.len() as int) =~= Seq::empty());
        assert(all.take(0) =~= Seq::empty());
        assert(document_requests(
            all.take(0),
            path@,
            name,
            entity_type,
            index_file_id,
            Seq::empty(),
            Seq::empty(),
        ) =~= seq![Request::File(index_file_fields(path@, name, entity_type))]);
    }
    let mut i: usize = 0;
    while i < index_file.reporting_structure.len()
        invariant
            i <= index_file.reporting_structure.len(),
            all == index_file.reporting_structure@,
            calls0 == old(repo).calls(),
            plans0 == old(repo).plans(),
            files0 == old(repo).files(),
            links0 == old(repo).links(),
            calls0.is_prefix_of(repo.calls()),
            plans0.is_prefix_of(repo.plans()),
            files0.is_prefix_of(repo.files()),
            links0.is_prefix_of(repo.links()),
            results.index_file_id == index_file_id,
            results.reporting_entity_name@ == name,
            results.reporting_entity_type@ == entity_type,
            name == index_file.reporting_entity_name@,
            entity_type == index_file.reporting_entity_type@,
            index_file_ingested(
                all.take(i as int),
                path@,
                results,
                repo.plans().skip(plans0.len() as int),
                repo.files().skip(files0.len() as int),
                repo.links().skip(links0.len() as int),
            ),
            written_in_turn(
                repo.calls().skip(calls0.len() as int),
                document_requests(
                    all.take(i as int),
                    path@,
                    name,
                    entity_type,
                    index_file_id,
                    repo.plans().skip(plans0.len() as int),
                    repo.files().skip(files0.len() as int).skip(1),
                ),
                None,
            ),
        decreases index_file.reporting_structure.len() - i,
    {
        let ghost calls1 = repo.calls();
        let ghost plans1 = repo.plans();
        let ghost files1 = repo.files();
        let ghost links1 = repo.links();
        let recorded = record_structure(repo, &mut results, &index_file.reporting_structure[i]);
        proof {
            assert(all.take(i + 1) =~= all.take(i as int).push(all[i as int]));
            lemma_one_more_structure(
                all.take(i as int),
                all[i as int],
                all,
                path@,
                name,
                entity_type,
                index_file_id,
                calls0,
                plans0,
                files0,
                links0,
                calls1,
                plans1,
                files1,
                links1,
                repo.calls(),
                repo.plans(),
                repo.files(),
                repo.links(),
                store_refusal(recorded),
                recorded matches Err(IngestError::CountOverflow),
            );
            let plan_counts = all.map_values(|n: ReportingStructure| plan_count(n));
            let file_counts = all.map_values(|n: ReportingStructure| file_count(n));
            lemma_sum_before_take(plan_counts, i as int, i as int);
            lemma_sum_before_take(file_counts, i as int, i as int);
            assert(all.take(i as int).map_values(|n: ReportingStructure| plan_count(n))
                =~= plan_counts.take(i as int));
            assert(all.take(i as int).map_values(|n: ReportingStructure| file_count(n))
                =~= file_counts.take(i as int));
        }
        match recorded {
            Ok(()) => {},
            Err(e) => {
                return Err(e);
            },
        }
        i += 1;
    }
    assert(all.take(i as int) =~= all);
    Ok(results)
}

proof fn lemma_sum_before_take(counts: Seq<nat>, n: int, i: int)
    requires
        0 <= i <= n <= counts.len(),
    ensures
        sum_before(counts.take(n), i) == sum_before(counts, i),
    decreases i,
{
    if i > 0 {
        lemma_sum_before_take(counts, n, i - 1);
    }
}

/// The reporting structures that are held while the entity's name and
/// type are awaited, and how many of them may be held.
pub struct MetadataWait {
    pending: Vec<ReportingStructure>,
    max_pending: usize,
}

/// What the wait does after a look for the metadata.
pub enum AfterPoll {
    /// The metadata is there: the wait is over, with what was held.
    Ready(IndexFileMetadata, Vec<ReportingStructure>),
    /// The metadata is not there and more structures are held than may
    /// be: the wait is given up.
    Late,
    /// The metadata is not there: take the next structure.
    Take(MetadataWait),
}

/// What the wait does after it asked for the next structure.
pub enum AfterTake {
    /// A structure came and is held: look for the metadata again.
    Poll(MetadataWait),
    /// The structures have ended: wait for the metadata itself.
    Await(Vec<ReportingStructure>),
}

impl MetadataWait {
    /// The structures held, in the order in which they came.
    pub closed spec fn held(&self) -> Seq<ReportingStructure> {
        self.pending@
    }

    /// How many structures may be held while the metadata is not there.
    pub closed spec fn limit(&self) -> usize {
        self.max_pending
    }

    /// A wait that holds nothing yet.
    pub fn new(max_pending: usize) -> (wait: Self)
        ensures
            wait.held() == Seq::<ReportingStructure>::empty(),
            wait.limit() == max_pending,
    {
        MetadataWait { pending: Vec::new(), max_pending }
    }

    /// Decides on what a look for the metadata found. Metadata ends the
    /// wait, with everything that is held, the structure that came in with
    /// it too. Without metadata the wait goes on while no more structures
    /// are held than may be, and is given up when one more is held.
    pub fn polled(self, polled: Option<IndexFileMetadata>) -> (step: AfterPoll)
        ensures
            match polled {
                Some(metadata) => step matches AfterPoll::Ready(announced, pending) && announced
                    == metadata && pending@ == self.held(),
                None => if self.held().len() > self.limit() {
                    step is Late
                } else {
                    step matches AfterPoll::Take(wait) && wait.held() == self.held()
                        && wait.limit() == self.limit()
                },
            },
    {
        match polled {
            Some(metadata) => AfterPoll::Ready(metadata, self.pending),
            None => if self.pending.len() > self.max_pending {
                AfterPoll::Late
            } else {
                AfterPoll::Take(self)
            },
        }
    }

    /// Decides on what the channel of the structures handed over: a
    /// structure is held, behind those that are held already; the end of
    /// the channel ends the holding.
    pub fn took(self, taken: Option<ReportingStructure>) -> (step: AfterTake)
        ensures
            match taken {
                Some(node) => step matches AfterTake::Poll(wait) && wait.held()
                    == self.held().push(node) && wait.limit() == self.limit(),
                None => step matches AfterTake::Await(pending) && pending@ == self.held(),
            },
    {
        match taken {
            Some(node) => {
                let mut pending = self.pending;
                pending.push(node);
                AfterTake::Poll(MetadataWait { pending, max_pending: self.max_pending })
            },
            None => AfterTake::Await(self.pending),
        }
    }

    /// Decides on what the wait for the metadata itself brought, once the
    /// structures have ended: the metadata with what was held, or the
    /// error that there is none.
    pub fn awaited(pending: Vec<ReportingStructure>, awaited: Option<IndexFileMetadata>) -> (r:
        Result<(IndexFileMetadata, Vec<ReportingStructure>), IngestError>)
        ensures
            r == match awaited {
                Some(metadata) => Ok::<
                    (IndexFileMetadata, Vec<ReportingStructure>),
                    IngestError,
                >((metadata, pending)),
                None => Err::<(IndexFileMetadata, Vec<ReportingStructure>), IngestError>(
                    IngestError::NoMetadata,
                ),
            },
    {
        match awaited {
            Some(metadata) => Ok((metadata, pending)),
            None => Err(IngestError::NoMetadata),
        }
    }
}

/// A run of looks that found nothing.
pub open spec fn empty_polls(n: nat) -> Seq<bool> {
    Seq::new(n, |i: int| false)
}

/// Waits for the entity's name and type while reporting structures may
/// arrive already, as they do when the document holds its array ahead of
/// its scalar fields. It looks for the metadata, takes a structure, and
/// so on in turn; what each look and each take means is decided by
/// `MetadataWait`. The structures that arrive meanwhile are held, in
/// their order, and returned with the metadata; more than `max_pending` of
/// them are not held: the wait then ends with an error instead.
///
/// The wait cannot hang on a decoder that is itself waiting, as long as
/// the metadata channel has room for its one message: this side never
/// waits on that channel while the decoder can still send structures.
fn await_metadata(
    metadata: &mut ChannelGenerator<IndexFileMetadata>,
    reporting_structures: &mut ChannelGenerator<ReportingStructure>,
    max_pending: usize,
) -> (r: Result<(IndexFileMetadata, Vec<ReportingStructure>), IngestError>)
    ensures
        old(metadata).received().is_prefix_of(final(metadata).received()),
        old(metadata).polls().is_prefix_of(final(metadata).polls()),
        old(reporting_structures).received().is_prefix_of(final(reporting_structures).received()),
        ({
            let held = final(reporting_structures).received().len() - old(
                reporting_structures,
            ).received().len();
            let polls = final(metadata).polls().skip(old(metadata).polls().len() as int);
            match r {
                Ok((announced, pending)) => {
                    &&& pending@.len() <= max_pending + 1
                    &&& final(metadata).received() == old(metadata).received().push(announced)
                    &&& pending@ == final(reporting_structures).received().skip(
                        old(reporting_structures).received().len() as int,
                    )
                    &&& polls.len() == held + 1
                    &&& polls.drop_last() == empty_polls(held as nat)
                },
                Err(e) => {
                    &&& final(metadata).received() == old(metadata).received()
                    &&& polls == empty_polls((held + 1) as nat)
                    &&& e == IngestError::NoMetadata || e == IngestError::MetadataLate
                    &&& e == IngestError::NoMetadata ==> held <= max_pending
                    &&& e == IngestError::NoMetadata ==> final(metadata).ended()
                    &&& e == IngestError::NoMetadata ==> final(reporting_structures).ended()
                    &&& e == IngestError::MetadataLate ==> held == max_pending + 1
                },
            }
        }),
{
    let ghost metadata0 = metadata.received();
    let ghost polls0 = metadata.polls();
    let ghost received0 = reporting_structures.received();
    let mut wait = MetadataWait::new(max_pending);
    proof {
        assert(reporting_structures.received().skip(received0.len() as int) =~= Seq::empty());
        assert(metadata.polls().skip(polls0.len() as int) =~= empty_polls(0));
    }
    loop
        invariant
            metadata0 == old(metadata).received(),
            polls0 == old(metadata).polls(),
            received0 == old(reporting_structures).received(),
            metadata.received() == metadata0,
            polls0.is_prefix_of(metadata.polls()),
            received0.is_prefix_of(reporting_structures.received()),
            wait.limit() == max_pending,
            wait.held().len() <= max_pending + 1,
            wait.held() == reporting_structures.received().skip(received0.len() as int),
            metadata.polls().skip(polls0.len() as int) == empty_polls(wait.held().len()),
        decreases max_pending + 2 - wait.held().len(),
    {
        let ghost held = wait.held();
        let ghost polls1 = metadata.polls();
        let polled = metadata.poll();
        proof {
            let polls = metadata.polls().skip(polls0.len() as int);
            assert(polls =~= polls1.skip(polls0.len() as int).push(polled is Some));
            assert(polls.drop_last() =~= empty_polls(held.len()));
            if polled is None {
                assert(polls =~= empty_polls((held.len() + 1) as nat));
            }
        }
        let taking = match wait.polled(polled) {
            AfterPoll::Ready(announced, pending) => {
                return Ok((announced, pending));
            },
            AfterPoll::Late => {
                return Err(IngestError::MetadataLate);
            },
            AfterPoll::Take(taking) => taking,
        };
        let ghost before = reporting_structures.received();
        let taken = reporting_structures.next();
        proof {
            if taken is Some {
                assert(reporting_structures.received().skip(received0.len() as int)
                    =~= before.skip(received0.len() as int).push(taken->Some_0));
            }
        }
        match taking.took(taken) {
            AfterTake::Poll(next) => {
                wait = next;
            },
            AfterTake::Await(pending) => {
                return MetadataWait::awaited(pending, metadata.next());
            },
        }
    }
}

/// Consumes the reporting structures of an index document as they arrive
/// from its decoder: waits for the entity's name and type, asks the store
/// for the file record of the index file itself, then for the records of
/// every reporting structure in the order in which the channel hands them
/// over, until the channel ends, and returns the summary.
///
/// Structures that arrive ahead of the name and type are held until these
/// are known, `max_pending` of them at most, one more if the name and type
/// come in with it; a document that sends more of them ahead ends the
/// ingestion with an error before anything is written. The channels are
/// those that `index_file_channel` makes.
///
/// The first write that the store refuses ends the ingestion with that
/// refusal; a summary count that no longer fits ends it before the
/// structure that would overflow it is written. Whoever holds the
/// receiving halves lets go of them after an error: a decoder that still
/// sends then finds the channel closed and stops.
pub fn parse_index_file_async<R: MetaRepository>(
    repo: &mut Journal<R>,
    path: &str,
    metadata: &mut ChannelGenerator<IndexFileMetadata>,
    reporting_structures: &mut ChannelGenerator<ReportingStructure>,
    max_pending: usize,
) -> (r: Result<IndexFileParsingResults, IngestError>)
    ensures
        old(repo).calls().is_prefix_of(final(repo).calls()),
        old(repo).plans().is_prefix_of(final(repo).plans()),
        old(repo).files().is_prefix_of(final(repo).files()),
        old(repo).links().is_prefix_of(final(repo).links()),
        old(metadata).received().is_prefix_of(final(metadata).received()),
        old(reporting_structures).received().is_prefix_of(final(reporting_structures).received()),
        match r {
            Ok(results) => {
                let received = final(reporting_structures).received().skip(
                    old(reporting_structures).received().len() as int,
                );
                &&& final(reporting_structures).ended()
                &&& final(metadata).received().len() == old(metadata).received().len() + 1
                &&& final(metadata).received().last().reporting_entity_name
                    == results.reporting_entity_name
                &&& final(metadata).received().last().reporting_entity_type
                    == results.reporting_entity_type
                &&& index_file_ingested(
                    received,
                    path@,
                    results,
                    final(repo).plans().skip(old(repo).plans().len() as int),
                    final(repo).files().skip(old(repo).files().len() as int),
                    final(repo).links().skip(old(repo).links().len() as int),
                )
                &&& written_in_turn(
                    final(repo).calls().skip(old(repo).calls().len() as int),
                    document_requests(
                        received,
                        path@,
                        results.reporting_entity_name@,
                        results.reporting_entity_type@,
                        results.index_file_id,
                        final(repo).plans().skip(old(repo).plans().len() as int),
                        final(repo).files().skip(old(repo).files().len() as int).skip(1),
                    ),
                    None,
                )
            },
            Err(IngestError::NoMetadata) | Err(IngestError::MetadataLate) => {
                let held = final(reporting_structures).received().len() - old(
                    reporting_structures,
                ).received().len();
                &&& final(repo).calls() == old(repo).calls()
                &&& final(repo).plans() == old(repo).plans()
                &&& final(repo).files() == old(repo).files()
                &&& final(repo).links() == old(repo).links()
                &&& final(metadata).received() == old(metadata).received()
                &&& final(metadata).polls().skip(old(metadata).polls().len() as int)
                    == empty_polls((held + 1) as nat)
                &&& r matches Err(IngestError::NoMetadata) ==> held <= max_pending
                &&& r matches Err(IngestError::NoMetadata) ==> final(metadata).ended()
                &&& r matches Err(IngestError::NoMetadata) ==> final(reporting_structures).ended()
                &&& r matches Err(IngestError::MetadataLate) ==> held == max_pending + 1
            },
            Err(IngestError::CountOverflow) => {
                let received = final(reporting_structures).received().skip(
                    old(reporting_structures).received().len() as int,
                );
                &&& received.len() > usize::MAX || plans_before(received, received.len() as int)
                    > usize::MAX || files_before(received, received.len() as int) > usize::MAX
                &&& all_taken(final(repo).calls().skip(old(repo).calls().len() as int))
            },
            Err(IngestError::Store(e)) => {
                &&& final(metadata).received().len() == old(metadata).received().len() + 1
                &&& ended_by_refusal(
                    final(repo).calls().skip(old(repo).calls().len() as int),
                    index_file_fields(
                        path@,
                        final(metadata).received().last().reporting_entity_name@,
                        final(metadata).received().last().reporting_entity_type@,
                    ),
                    e,
                )
                &&& refused_in_document(
                    final(reporting_structures).received().skip(
                        old(reporting_structures).received().len() as int,
                    ),
                    path@,
                    final(metadata).received().last().reporting_entity_name@,
                    final(metadata).received().last().reporting_entity_type@,
                    e,
                    final(repo).calls().skip(old(repo).calls().len() as int),
                    final(repo).plans().skip(old(repo).plans().len() as int),
                    final(repo).files().skip(old(repo).files().len() as int),
                    final(repo).links().skip(old(repo).links().len() as int),
                )
            },
            Err(IngestError::Decode(_)) => false,
        },
{
    let ghost calls0 = repo.calls();
    let ghost plans0 = repo.plans();
    let ghost files0 = repo.files();
    let ghost links0 = repo.links();
    let ghost received0 = reporting_structures.received();
    let ghost metadata0 = metadata.received();
    let (announced, pending) = match await_metadata(metadata, reporting_structures, max_pending) {
        Ok(ready) => ready,
        Err(e) => {
            return Err(e);
        },
    };
    let ghost name = announced.reporting_entity_name@;
    let ghost entity_type = announced.reporting_entity_type@;
    let ghost metadata1 = metadata.received();
    assert(metadata1.last() == announced);
    let begun = begin_index_file(
        repo,
        path,
        announced.reporting_entity_name,
        announced.reporting_entity_type,
    );
    proof {
        let call = repo.calls().last();
        lemma_written_once(call);
        assert(repo.calls().skip(calls0.len() as int) =~= seq![call]);
        assert(seq![call].drop_last() =~= Seq::<Call>::empty());
        assert(repo.plans().skip(plans0.len() as int) =~= Seq::empty());
        assert(repo.links().skip(links0.len() as int) =~= Seq::empty());
        if begun is Err {
            assert(repo.files().skip(files0.len() as int) =~= Seq::empty());
        }
    }
    let mut results = match begun {
        Ok(results) => results,
        Err(e) => {
            return Err(IngestError::Store(e));
        },
    };
    let ghost index_file_id = results.index_file_id;
    let ghost mut nodes: Seq<ReportingStructure> = Seq::empty();
    proof {
        assert(repo.files().skip(files0.len() as int).skip(1) =~= Seq::empty());
        assert(repo.plans().skip(plans0.len() as int) =~= Seq::empty());
        assert(repo.links().skip(links0.len() as int) =~= Seq::empty());
        assert(pending@.take(0) =~= Seq::empty());
        assert(document_requests(
            nodes,
            path@,
            name,
            entity_type,
            index_file_id,
            Seq::empty(),
            Seq::empty(),
        ) =~= seq![Request::File(index_file_fields(path@, name, entity_type))]);
    }
    let mut i: usize = 0;
    while i < pending.len()
        invariant
            i <= pending.len(),
            nodes == pending@.take(i as int),
            pending@ == reporting_structures.received().skip(received0.len() as int),
            received0 == old(reporting_structures).received(),
            received0.is_prefix_of(reporting_structures.received()),
            metadata0 == old(metadata).received(),
            metadata1 == metadata0.push(metadata1.last()),
            metadata.received() == metadata1,
            calls0 == old(repo).calls(),
            plans0 == old(repo).plans(),
            files0 == old(repo).files(),
            links0 == old(repo).links(),
            calls0.is_prefix_of(repo.calls()),
            plans0.is_prefix_of(repo.plans()),
            files0.is_prefix_of(repo.files()),
            links0.is_prefix_of(repo.links()),
            results.index_file_id == index_file_id,
            results.reporting_entity_name@ == name,
            results.reporting_entity_type@ == entity_type,
            results.reporting_entity_name == metadata1.last().reporting_entity_name,
            results.reporting_entity_type == metadata1.last().reporting_entity_type,
            index_file_ingested(
                nodes,
                path@,
                results,
                repo.plans().skip(plans0.len() as int),
                repo.files().skip(files0.len() as int),
                repo.links().skip(links0.len() as int),
            ),
            written_in_turn(
                repo.calls().skip(calls0.len() as int),
                document_requests(
                    nodes,
                    path@,
                    name,
                    entity_type,
                    index_file_id,
                    repo.plans().skip(plans0.len() as int),
                    repo.files().skip(files0.len() as int).skip(1),
                ),
                None,
            ),
        decreases pending.len() - i,
    {
        let ghost calls1 = repo.calls();
        let ghost plans1 = repo.plans();
        let ghost files1 = repo.files();
        let ghost links1 = repo.links();
        let recorded = record_structure(repo, &mut results, &pending[i]);
        proof {
            lemma_one_more_structure(
                nodes,
                pending@[i as int],
                pending@,
                path@,
                name,
                entity_type,
                index_file_id,
                calls0,
                plans0,
                files0,
                links0,
                calls1,
                plans1,
                files1,
                links1,
                repo.calls(),
                repo.plans(),
                repo.files(),
                repo.links(),
                store_refusal(recorded),
                recorded matches Err(IngestError::CountOverflow),
            );
        }
        match recorded {
            Ok(()) => {},
            Err(e) => {
                return Err(e);
            },
        }
        proof {
            assert(pending@.take(i + 1) =~= nodes.push(pending@[i as int]));
            nodes = nodes.push(pending@[i as int]);
        }
        i += 1;
    }
    assert(pending@.take(i as int) =~= pending@);
    loop
        invariant
            nodes == reporting_structures.received().skip(received0.len() as int),
            received0 == old(reporting_structures).received(),
            received0.is_prefix_of(reporting_structures.received()),
            metadata0 == old(metadata).received(),
            metadata1 == metadata0.push(metadata1.last()),
            metadata.received() == metadata1,
            calls0 == old(repo).calls(),
            plans0 == old(repo).plans(),
            files0 == old(repo).files(),
            links0 == old(repo).links(),
            calls0.is_prefix_of(repo.calls()),
            plans0.is_prefix_of(repo.plans()),
            files0.is_prefix_of(repo.files()),
            links0.is_prefix_of(repo.links()),
            results.index_file_id == index_file_id,
            results.reporting_entity_name@ == name,
            results.reporting_entity_type@ == entity_type,
            results.reporting_entity_name == metadata1.last().reporting_entity_name,
            results.reporting_entity_type == metadata1.last().reporting_entity_type,
            index_file_ingested(
                nodes,
                path@,
                results,
                repo.plans().skip(plans0.len() as int),
                repo.files().skip(files0.len() as int),
                repo.links().skip(links0.len() as int),
            ),
            written_in_turn(
                repo.calls().skip(calls0.len() as int),
                document_requests(
                    nodes,
                    path@,
                    name,
                    entity_type,
                    index_file_id,
                    repo.plans().skip(plans0.len() as int),
                    repo.files().skip(files0.len() as int).skip(1),
                ),
                None,
            ),
        decreases usize::MAX - results.num_reporting_structures,
    {
        let ghost before = reporting_structures.received();
        let node = match reporting_structures.next() {
            Some(node) => node,
            None => {
                return Ok(results);
            },
        };
        let ghost calls1 = repo.calls();
        let ghost plans1 = repo.plans();
        let ghost files1 = repo.files();
        let ghost links1 = repo.links();
        let recorded = record_structure(repo, &mut results, &node);
        proof {
            assert(reporting_structures.received().skip(received0.len() as int) =~= nodes.push(
                node,
            ));
            lemma_one_more_structure(
                nodes,
                node,
                nodes.push(node),
                path@,
                name,
                entity_type,
                index_file_id,
                calls0,
                plans0,
                files0,
                links0,
                calls1,
                plans1,
                files1,
                links1,
                repo.calls(),
                repo.plans(),
                repo.files(),
                repo.links(),
                store_refusal(recorded),
                recorded matches Err(IngestError::CountOverflow),
            );
        }
        match recorded {
            Ok(()) => {},
            Err(e) => {
                return Err(e);
            },
        }
        proof {
            nodes = nodes.push(node);
        }
    }
}

/// What one more recorded structure means for the ingestion of a
/// document: after a success the records and the calls are those of the
/// longer list of structures; after a refusal of the store the calls
/// ended with it; and a count that overflows at a structure overflows for
/// every list of structures that goes on behind it.
proof fn lemma_one_more_structure(
    nodes: Seq<ReportingStructure>,
    node: ReportingStructure,
    received: Seq<ReportingStructure>,
    path: Seq<char>,
    reporting_entity_name: Seq<char>,
    reporting_entity_type: Seq<char>,
    index_file_id: usize,
    calls0: Seq<Call>,
    plans0: Seq<PlanRecord>,
    files0: Seq<FileRecord>,
    links0: Seq<LinkRecord>,
    calls1: Seq<Call>,
    plans1: Seq<PlanRecord>,
    files1: Seq<FileRecord>,
    links1: Seq<LinkRecord>,
    calls2: Seq<Call>,
    plans2: Seq<PlanRecord>,
    files2: Seq<FileRecord>,
    links2: Seq<LinkRecord>,
    refusal: Option<StoreError>,
    overflow: bool,
)
    requires
        nodes.push(node).is_prefix_of(received),
        calls0.is_prefix_of(calls1),
        plans0.is_prefix_of(plans1),
        files0.is_prefix_of(files1),
        links0.is_prefix_of(links1),
        calls1.is_prefix_of(calls2),
        plans1.is_prefix_of(plans2),
        files1.is_prefix_of(files2),
        links1.is_prefix_of(links2),
        files1.len() > files0.len(),
        structures_recorded(
            nodes,
            index_file_id,
            reporting_entity_name,
            reporting_entity_type,
            plans1.skip(plans0.len() as int),
            files1.skip(files0.len() as int).skip(1),
            links1.skip(links0.len() as int),
        ),
        written_in_turn(
            calls1.skip(calls0.len() as int),
            document_requests(
                nodes,
                path,
                reporting_entity_name,
                reporting_entity_type,
                index_file_id,
                plans1.skip(plans0.len() as int),
                files1.skip(files0.len() as int).skip(1),
            ),
            None,
        ),
        overflow ==> calls2 == calls1,
        !overflow ==> written_in_turn(
            calls2.skip(calls1.len() as int),
            structure_requests(
                node,
                reporting_entity_name,
                reporting_entity_type,
                index_file_id,
                plan_record_ids(plans2.skip(plans1.len() as int)),
                file_record_ids(files2.skip(files1.len() as int)),
            ),
            refusal,
        ),
        !overflow && refusal is None ==> structure_recorded(
            node,
            index_file_id,
            reporting_entity_name,
            reporting_entity_type,
            plans2.skip(plans1.len() as int),
            files2.skip(files1.len() as int),
            links2.skip(links1.len() as int),
        ),
        files1[files0.len() as int] == (FileRecord {
            id: index_file_id,
            fields: index_file_fields(path, reporting_entity_name, reporting_entity_type),
        }),
        !overflow && refusal is Some ==> {
            &&& plan_record_fields(plans2.skip(plans1.len() as int)).is_prefix_of(
                structure_plans(node),
            )
            &&& file_fields(files2.skip(files1.len() as int)).is_prefix_of(
                structure_files(node, reporting_entity_name, reporting_entity_type),
            )
            &&& link_fields(links2.skip(links1.len() as int)).is_prefix_of(
                structure_links(
                    index_file_id,
                    plan_record_ids(plans2.skip(plans1.len() as int)),
                    file_record_ids(files2.skip(files1.len() as int)),
                ),
            )
        },
    ensures
        !overflow && refusal is Some ==> refused_in_document(
            received,
            path,
            reporting_entity_name,
            reporting_entity_type,
            refusal->Some_0,
            calls2.skip(calls0.len() as int),
            plans2.skip(plans0.len() as int),
            files2.skip(files0.len() as int),
            links2.skip(links0.len() as int),
        ),
        overflow ==> all_taken(calls2.skip(calls0.len() as int)),
        !overflow && refusal is Some ==> ended_by_refusal(
            calls2.skip(calls0.len() as int),
            index_file_fields(path, reporting_entity_name, reporting_entity_type),
            refusal->Some_0,
        ),
        !overflow && refusal is None ==> {
            &&& structures_recorded(
                nodes.push(node),
                index_file_id,
                reporting_entity_name,
                reporting_entity_type,
                plans2.skip(plans0.len() as int),
                files2.skip(files0.len() as int).skip(1),
                links2.skip(links0.len() as int),
            )
            &&& written_in_turn(
                calls2.skip(calls0.len() as int),
                document_requests(
                    nodes.push(node),
                    path,
                    reporting_entity_name,
                    reporting_entity_type,
                    index_file_id,
                    plans2.skip(plans0.len() as int),
                    files2.skip(files0.len() as int).skip(1),
                ),
                None,
            )
            &&& files2.skip(files0.len() as int)[0] == files1.skip(files0.len() as int)[0]
            &&& plans2.skip(plans0.len() as int).len() == plans1.skip(plans0.len() as int).len()
                + plan_count(node)
            &&& files2.skip(files0.len() as int).len() == files1.skip(files0.len() as int).len()
                + file_count(node)
        },
        plans_before(nodes.push(node), (nodes.len() + 1) as int) <= plans_before(
            received,
            received.len() as int,
        ),
        files_before(nodes.push(node), (nodes.len() + 1) as int) <= files_before(
            received,
            received.len() as int,
        ),
        plans_before(nodes.push(node), (nodes.len() + 1) as int) == plans_before(
            nodes,
            nodes.len() as int,
        ) + plan_count(node),
        files_before(nodes.push(node), (nodes.len() + 1) as int) == files_before(
            nodes,
            nodes.len() as int,
        ) + file_count(node),
        nodes.len() + 1 <= received.len(),
{
    let longer = nodes.push(node);
    let n = nodes.len() as int;
    let plan_counts = received.map_values(|n: ReportingStructure| plan_count(n));
    let file_counts = received.map_values(|n: ReportingStructure| file_count(n));
    assert(received.take(n + 1) =~= longer);
    assert(longer.map_values(|n: ReportingStructure| plan_count(n)) =~= plan_counts.take(n + 1));
    assert(longer.map_values(|n: ReportingStructure| file_count(n)) =~= file_counts.take(n + 1));
    lemma_sum_before_take(plan_counts, n + 1, n + 1);
    lemma_sum_before_take(file_counts, n + 1, n + 1);
    lemma_sum_before_monotone(plan_counts, n + 1, received.len() as int);
    lemma_sum_before_monotone(file_counts, n + 1, received.len() as int);
    let short_plans = nodes.map_values(|n: ReportingStructure| plan_count(n));
    let short_files = nodes.map_values(|n: ReportingStructure| file_count(n));
    assert(longer.map_values(|n: ReportingStructure| plan_count(n)) =~= short_plans.push(
        plan_count(node),
    ));
    assert(longer.map_values(|n: ReportingStructure| file_count(n)) =~= short_files.push(
        file_count(node),
    ));
    lemma_sum_before_push(short_plans, plan_count(node), n);
    lemma_sum_before_push(short_files, file_count(node), n);
    assert(calls2.skip(calls0.len() as int) =~= calls1.skip(calls0.len() as int) + calls2.skip(
        calls1.len() as int,
    ));
    if !overflow {
        let new_plans = plans2.skip(plans1.len() as int);
        let new_files = files2.skip(files1.len() as int);
        lemma_called_one_more(
            nodes,
            node,
            path,
            reporting_entity_name,
            reporting_entity_type,
            index_file_id,
            plans1.skip(plans0.len() as int),
            files1.skip(files0.len() as int).skip(1),
            new_plans,
            new_files,
            calls1.skip(calls0.len() as int),
            calls2.skip(calls1.len() as int),
            refusal,
        );
        if refusal is Some {
            let link_counts = received.map_values(|n: ReportingStructure| link_count(n));
            assert(received.take(n) =~= longer.take(n));
            assert(longer.take(n) =~= nodes);
            assert(nodes.map_values(|n: ReportingStructure| plan_count(n)) =~= plan_counts.take(n));
            assert(nodes.map_values(|n: ReportingStructure| file_count(n)) =~= file_counts.take(n));
            assert(nodes.map_values(|n: ReportingStructure| link_count(n)) =~= link_counts.take(n));
            assert(received.take(n) =~= nodes);
            lemma_sum_before_take(plan_counts, n, n);
            lemma_sum_before_take(file_counts, n, n);
            lemma_sum_before_take(link_counts, n, n);
            let plans = plans2.skip(plans0.len() as int);
            let files = files2.skip(files0.len() as int);
            let links = links2.skip(links0.len() as int);
            let held_plans = plans1.skip(plans0.len() as int);
            let held_files = files1.skip(files0.len() as int).skip(1);
            let held_links = links1.skip(links0.len() as int);
            assert(plans =~= held_plans + new_plans);
            assert(files.skip(1) =~= held_files + new_files);
            assert(links =~= held_links + links2.skip(links1.len() as int));
            assert(plans.take(held_plans.len() as int) =~= held_plans);
            assert(files.skip(1).take(held_files.len() as int) =~= held_files);
            assert(links.take(held_links.len() as int) =~= held_links);
            assert(plans.skip(held_plans.len() as int) =~= new_plans);
            assert(files.skip(1).skip(held_files.len() as int) =~= new_files);
            assert(links.skip(held_links.len() as int) =~= links2.skip(links1.len() as int));
            assert(files[0] == files1[files0.len() as int]);
            assert(received[n] == node);
            assert(refused_at(
                received,
                n,
                path,
                reporting_entity_name,
                reporting_entity_type,
                refusal->Some_0,
                calls2.skip(calls0.len() as int),
                plans,
                files,
                links,
            ));
        }
        if refusal is None {
            lemma_ingested_one_more(
                nodes,
                node,
                index_file_id,
                reporting_entity_name,
                reporting_entity_type,
                plans0,
                files0,
                links0,
                plans1,
                files1,
                links1,
                plans2,
                files2,
                links2,
            );
            lemma_structure_counts(node, reporting_entity_name, reporting_entity_type);
            assert(plan_record_fields(new_plans).len() == new_plans.len());
            assert(file_fields(new_files).len() == new_files.len());
            assert(plans2.skip(plans0.len() as int) =~= plans1.skip(plans0.len() as int)
                + new_plans);
            assert(files2.skip(files0.len() as int).skip(1) =~= files1.skip(
                files0.len() as int,
            ).skip(1) + new_files);
        }
    }
}

/// The records of an index file and of a list of its reporting
/// structures, followed by the records of one more structure, are the
/// records of the index file and of the longer list. The records are
/// given as the journals before the ingestion, before the structure and
/// after it.
proof fn lemma_ingested_one_more(
    nodes: Seq<ReportingStructure>,
    node: ReportingStructure,
    index_file_id: usize,
    reporting_entity_name: Seq<char>,
    reporting_entity_type: Seq<char>,
    plans0: Seq<PlanRecord>,
    files0: Seq<FileRecord>,
    links0: Seq<LinkRecord>,
    plans1: Seq<PlanRecord>,
    files1: Seq<FileRecord>,
    links1: Seq<LinkRecord>,
    plans2: Seq<PlanRecord>,
    files2: Seq<FileRecord>,
    links2: Seq<LinkRecord>,
)
    requires
        plans0.is_prefix_of(plans1),
        files0.is_prefix_of(files1),
        links0.is_prefix_of(links1),
        plans1.is_prefix_of(plans2),
        files1.is_prefix_of(files2),
        links1.is_prefix_of(links2),
        files1.len() > files0.len(),
        structures_recorded(
            nodes,
            index_file_id,
            reporting_entity_name,
            reporting_entity_type,
            plans1.skip(plans0.len() as int),
            files1.skip(files0.len() as int).skip(1),
            links1.skip(links0.len() as int),
        ),
        structure_recorded(
            node,
            index_file_id,
            reporting_entity_name,
            reporting_entity_type,
            plans2.skip(plans1.len() as int),
            files2.skip(files1.len() as int),
            links2.skip(links1.len() as int),
        ),
    ensures
        structures_recorded(
            nodes.push(node),
            index_file_id,
            reporting_entity_name,
            reporting_entity_type,
            plans2.skip(plans0.len() as int),
            files2.skip(files0.len() as int).skip(1),
            links2.skip(links0.len() as int),
        ),
        files2.skip(files0.len() as int)[0] == files1.skip(files0.len() as int)[0],
        plans2.skip(plans0.len() as int).len() == plans1.skip(plans0.len() as int).len()
            + plan_count(node),
        files2.skip(files0.len() as int).len() == files1.skip(files0.len() as int).len()
            + file_count(node),
{
    let new_plans = plans2.skip(plans1.len() as int);
    let new_files = files2.skip(files1.len() as int);
    let new_links = links2.skip(links1.len() as int);
    lemma_structures_recorded_push(
        nodes,
        node,
        index_file_id,
        reporting_entity_name,
        reporting_entity_type,
        plans1.skip(plans0.len() as int),
        files1.skip(files0.len() as int).skip(1),
        links1.skip(links0.len() as int),
        new_plans,
        new_files,
        new_links,
    );
    assert(plans2.skip(plans0.len() as int) =~= plans1.skip(plans0.len() as int) + new_plans);
    assert(files2.skip(files0.len() as int).skip(1) =~= files1.skip(files0.len() as int).skip(1)
        + new_files);
    assert(links2.skip(links0.len() as int) =~= links1.skip(links0.len() as int) + new_links);
    lemma_structure_counts(node, reporting_entity_name, reporting_entity_type);
    assert(plan_record_fields(new_plans).len() == new_plans.len());
    assert(file_fields(new_files).len() == new_files.len());
}

/// The CSV store at its usual place, without records.
pub fn _get_repo() -> (repo: CsvMetaRepository)
    ensures
        repo.files_csv_path@ == "./db/files.csv"@,
        repo.links_csv_path@ == "./db/links.csv"@,
        repo.plans_csv_path@ == "./db/plans.csv"@,
        repo.tables.files_table() == csv_record(file_header()),
        repo.tables.links_table() == csv_record(link_header()),
        repo.tables.plans_table() == csv_record(plan_header()),
        repo.tables.files_count() == 0,
        repo.tables.links_count() == 0,
        repo.tables.plans_count() == 0,
{
    CsvMetaRepository::new("./db/files.csv", "./db/links.csv", "./db/plans.csv")
}

/// What the pipeline ends with once both of its tasks have ended: the
/// decoder's error if it met one, whatever the consumer ended with; else
/// what the consumer ended with.
pub fn pipeline_result(
    producer: Result<AsyncIndexFile, DecodeError>,
    consumer: Result<IndexFileParsingResults, IngestError>,
) -> (r: Result<IndexFileParsingResults, IngestError>)
    ensures
        r == match producer {
            Err(e) => Err::<IndexFileParsingResults, IngestError>(IngestError::Decode(e)),
            Ok(_) => consumer,
        },
{
    match producer {
        Err(e) => Err(IngestError::Decode(e)),
        Ok(_) => consumer,
    }
}

} // verus!

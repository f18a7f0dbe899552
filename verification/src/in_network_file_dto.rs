//! Record shapes of an in-network rate document.

use vstd::prelude::*;
use crate::error::DecodeError;
use crate::filtered_in_network_file::{filter_nodes, filter_result};
use crate::node_filters::NodeFilters;

verus! {

/// The allow-list that an in-network document is decoded with: the one
/// billing code `945`.
pub open spec fn billing_codes() -> Seq<Seq<char>> {
    seq!["945"@]
}

/// The filter that an in-network document is decoded with.
pub fn billing_code_filter() -> (filter: NodeFilters)
    ensures
        filter.codes() == billing_codes(),
{
    let mut billing_codes: Vec<String> = Vec::new();
    billing_codes.push("945".to_owned());
    assert(billing_codes.deep_view() =~= crate::in_network_file_dto::billing_codes());
    NodeFilters::new(billing_codes)
}

/// The filtering decode of the `in_network` array of a document, given as
/// the outcome of decoding each of its elements: only the rate objects
/// with the billing code `945` are kept.
pub fn filter_nodes_by_billing_codes(elements: Vec<Result<InNetworkRateObject, DecodeError>>) -> (r:
    Result<Vec<InNetworkRateObject>, DecodeError>)
    ensures
        filter_result(elements@, billing_codes()) == match r {
            Ok(nodes) => Ok::<Seq<InNetworkRateObject>, DecodeError>(nodes@),
            Err(e) => Err::<Seq<InNetworkRateObject>, DecodeError>(e),
        },
{
    filter_nodes(elements, billing_code_filter())
}

/// `serde_json::Number`, a JSON number kept as the document wrote it.
/// Nothing is stated of its contents: the records only carry it.
#[verifier::external_type_specification]
#[verifier::external_body]
pub struct ExNumber(serde_json::Number);

#[derive(Debug)]
pub struct InNetworkFile {
    pub reporting_entity_name: String,
    pub reporting_entity_type: String,
    pub version: String,
    pub last_updated_on: String,
    pub plan_name: Option<String>,
    pub plan_id: Option<String>,
    pub plan_id_type: Option<String>,
    pub plan_market_type: Option<String>,
    /// Only the rate objects that passed the allow-list.
    pub in_network: Vec<InNetworkRateObject>,
    pub provider_references: Option<Vec<ProviderReference>>,
}

#[derive(Debug)]
pub struct InNetworkRateObject {
    pub negotiation_arrangement: String,
    pub name: String,
    pub billing_code_type: String,
    pub billing_code_type_version: String,
    pub billing_code: String,
    pub negotiated_rates: Vec<NegotiatedRate>,
    pub description: String,
    pub bundled_codes: Option<Vec<CoveredService>>,
    pub covered_services: Option<Vec<CoveredService>>,
}

#[derive(Debug)]
pub struct NegotiatedRate {
    pub negotiated_prices: Vec<NegotiatedPrice>,
    pub provider_groups: Option<Vec<ProviderGroup>>,
    pub provider_references: Option<Vec<serde_json::Number>>,
}

#[derive(Debug)]
pub struct NegotiatedPrice {
    pub negotiated_rate: serde_json::Number,
    pub negotiated_type: String,
    pub expiration_date: String,
    pub service_code: Option<Vec<String>>,
    pub billing_class: BillingClass,
    pub billing_code_modifier: Option<Vec<String>>,
    pub additional_information: Option<String>,
}

#[derive(Debug, Clone, Copy, PartialEq, Eq, Structural)]
pub enum BillingClass {
    Professional,
    Institutional,
}

#[derive(Debug)]
pub struct ProviderGroup {
    pub npi: Vec<serde_json::Number>,
    pub tin: Tin,
}

#[derive(Debug)]
pub struct Tin {
    pub type_: TinType,
    pub value: String,
}

#[derive(Debug, Clone, Copy, PartialEq, Eq, Structural)]
pub enum TinType {
    Ein,
    Npi,
}

#[derive(Debug)]
pub struct CoveredService {
    pub billing_code: String,
    pub billing_code_type: String,
    pub billing_code_type_version: String,
    pub description: String,
}

#[derive(Debug)]
pub struct ProviderReference {
    pub provider_group_id: serde_json::Number,
    pub provider_groups: Option<Vec<ProviderGroup>>,
    pub location: Option<String>,
}

} // verus!

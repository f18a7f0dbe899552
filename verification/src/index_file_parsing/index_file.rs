//! Record shapes of an index document.

use vstd::prelude::*;

verus! {

/// The two scalar fields of an index document.
#[derive(Debug)]
pub struct IndexFileMetadata {
    pub reporting_entity_name: String,
    pub reporting_entity_type: String,
}

/// An index document held in memory as a whole.
#[derive(Debug)]
pub struct IndexFile {
    pub reporting_entity_name: String,
    pub reporting_entity_type: String,
    pub reporting_structure: Vec<ReportingStructure>,
}

/// What a streaming decode of an index document leaves behind: the scalar
/// fields and how many reporting structures went to the consumer.
#[derive(Debug)]
pub struct AsyncIndexFile {
    pub reporting_entity_name: String,
    pub reporting_entity_type: String,
    pub reporting_structure_processing_stats: ProcessingStats,
}

#[derive(Debug)]
pub struct ProcessingStats {
    pub num_reporting_structures: usize,
}

#[derive(Debug, Default)]
pub struct ReportingStructure {
    pub reporting_plans: Vec<ReportingPlan>,
    pub in_network_files: Option<Vec<LinkedFile>>,
    pub allowed_amount_file: Option<LinkedFile>,
}

#[derive(Debug)]
pub struct ReportingPlan {
    pub plan_name: String,
    pub plan_id_type: String,
    pub plan_id: String,
    pub plan_market_type: String,
}

#[derive(Debug, Default)]
pub struct LinkedFile {
    pub description: String,
    /// A URL.
    pub location: String,
}

} // verus!

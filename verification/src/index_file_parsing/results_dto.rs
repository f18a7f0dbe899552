//! The summary of one ingested index document.

use vstd::prelude::*;

verus! {

#[derive(Debug)]
pub struct IndexFileParsingResults {
    pub index_file_id: usize,
    pub reporting_entity_name: String,
    pub reporting_entity_type: String,
    pub num_reporting_structures: usize,
    pub num_plans: usize,
    pub num_rate_files: usize,
}

} // verus!

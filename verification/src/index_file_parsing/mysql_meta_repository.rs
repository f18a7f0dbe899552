//! How link records are laid out in the relational store.

use vstd::prelude::*;
use crate::index_file_parsing::meta_repository_trait::{DbLinkInput, LinkFields};
use crate::text::same_text;

verus! {

/// The columns of one row of the relational link table.
#[derive(Debug, Clone, Copy, PartialEq, Eq, Structural)]
pub struct LinkParams {
    pub index_file_id: Option<usize>,
    pub data_file_id: usize,
    pub plan_id: Option<usize>,
}

/// The row of a link: one that ends at a plan starts at a data file, one
/// that ends at a rate file starts at the index file. A link that ends
/// at anything else has no row.
pub open spec fn link_params_of(link: LinkFields) -> Option<LinkParams> {
    if link.to_type == "plan"@ {
        Some(LinkParams { index_file_id: None, data_file_id: link.from_id, plan_id: Some(link.to_id) })
    } else if link.to_type == "rate_file"@ {
        Some(LinkParams { index_file_id: Some(link.from_id), data_file_id: link.to_id, plan_id: None })
    } else {
        None
    }
}

pub fn link_params(link: &DbLinkInput) -> (params: Option<LinkParams>)
    ensures
        params == link_params_of(link@),
{
    if same_text(link.to_type, "plan") {
        Some(LinkParams { index_file_id: None, data_file_id: link.from_id, plan_id: Some(link.to_id) })
    } else if same_text(link.to_type, "rate_file") {
        Some(LinkParams { index_file_id: Some(link.from_id), data_file_id: link.to_id, plan_id: None })
    } else {
        None
    }
}

} // verus!

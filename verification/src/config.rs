//! The geometry parameters of a diagram and the ordering directive that
//! selects and orders the organizations to draw.

use vstd::prelude::*;

verus! {

use crate::MAX_PARAM;

/// Outer margins of an organization box.
#[derive(Debug)]
pub struct MarginSet {
    pub top: i32,
    pub right: i32,
    pub bottom: i32,
    pub left: i32,
}

/// Width and height of a role box.
#[derive(Debug)]
pub struct Dimensions {
    pub width: i32,
    pub height: i32,
}

/// One entry of the ordering directive: the organization to draw next,
/// and whether it opens a new column.
#[derive(Debug)]
pub struct OrgOrdering {
    pub name: String,
    pub begins_new_column: bool,
}

/// All layout parameters of one diagram run.
#[derive(Debug)]
pub struct Config {
    pub diagram_start_x: i32,
    pub diagram_start_y: i32,
    pub calling_bubbles_per_row: i32,
    pub org_bubble_width: i32,
    pub org_bubble_title_height: i32,
    pub org_bubble_margins: MarginSet,
    pub sub_org_bubble_horzontal_margins: i32,
    pub sub_org_bubble_vertical_margins: i32,
    pub calling_bubble_vertical_margins: i32,
    pub calling_bubble_dimensions: Dimensions,
    pub calling_bubble_min_horizontal_margin: i32,
    pub org_ordering: Vec<OrgOrdering>,
}

impl Config {
    /// Geometry parameters are non-negative and small enough that every
    /// computed coordinate fits the arithmetic the engine uses. The row
    /// capacity is exempt from the lower bound: a non-positive capacity is
    /// reported as a layout error, not excluded up front.
    pub open spec fn wf(&self) -> bool {
        &&& 0 <= self.diagram_start_x <= MAX_PARAM
        &&& 0 <= self.diagram_start_y <= MAX_PARAM
        &&& self.calling_bubbles_per_row <= MAX_PARAM
        &&& 0 <= self.org_bubble_width <= MAX_PARAM
        &&& 0 <= self.org_bubble_title_height <= MAX_PARAM
        &&& 0 <= self.org_bubble_margins.top <= MAX_PARAM
        &&& 0 <= self.org_bubble_margins.right <= MAX_PARAM
        &&& 0 <= self.org_bubble_margins.bottom <= MAX_PARAM
        &&& 0 <= self.org_bubble_margins.left <= MAX_PARAM
        &&& 0 <= self.sub_org_bubble_horzontal_margins <= MAX_PARAM
        &&& 0 <= self.sub_org_bubble_vertical_margins <= MAX_PARAM
        &&& 0 <= self.calling_bubble_vertical_margins <= MAX_PARAM
        &&& 0 <= self.calling_bubble_dimensions.width <= MAX_PARAM
        &&& 0 <= self.calling_bubble_dimensions.height <= MAX_PARAM
        &&& 0 <= self.calling_bubble_min_horizontal_margin <= MAX_PARAM
        &&& self.org_ordering@.len() <= MAX_PARAM
    }

    /// Runtime test for [`Config::wf`], for callers outside verified code.
    pub fn check_wf(&self) -> (r: bool)
        ensures
            r == self.wf(),
    {
        0 <= self.diagram_start_x && self.diagram_start_x <= MAX_PARAM
            && 0 <= self.diagram_start_y && self.diagram_start_y <= MAX_PARAM
            && self.calling_bubbles_per_row <= MAX_PARAM
            && 0 <= self.org_bubble_width && self.org_bubble_width <= MAX_PARAM
            && 0 <= self.org_bubble_title_height && self.org_bubble_title_height <= MAX_PARAM
            && 0 <= self.org_bubble_margins.top && self.org_bubble_margins.top <= MAX_PARAM
            && 0 <= self.org_bubble_margins.right && self.org_bubble_margins.right <= MAX_PARAM
            && 0 <= self.org_bubble_margins.bottom && self.org_bubble_margins.bottom <= MAX_PARAM
            && 0 <= self.org_bubble_margins.left && self.org_bubble_margins.left <= MAX_PARAM
            && 0 <= self.sub_org_bubble_horzontal_margins
            && self.sub_org_bubble_horzontal_margins <= MAX_PARAM
            && 0 <= self.sub_org_bubble_vertical_margins
            && self.sub_org_bubble_vertical_margins <= MAX_PARAM
            && 0 <= self.calling_bubble_vertical_margins
            && self.calling_bubble_vertical_margins <= MAX_PARAM
            && 0 <= self.calling_bubble_dimensions.width
            && self.calling_bubble_dimensions.width <= MAX_PARAM
            && 0 <= self.calling_bubble_dimensions.height
            && self.calling_bubble_dimensions.height <= MAX_PARAM
            && 0 <= self.calling_bubble_min_horizontal_margin
            && self.calling_bubble_min_horizontal_margin <= MAX_PARAM
            && self.org_ordering.len() <= MAX_PARAM as usize
    }
}

} // verus!
